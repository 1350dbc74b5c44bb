//! URLs and form bodies, as the `url` crate has them.

use crate::bytes;
use crate::pairs;
use crate::pairs::Pair;
use crate::text;
use vstd::prelude::*;
use vstd::string::*;

verus! {

// ---- form encoding --------------------------------------------------------------------------

/// The hexadecimal digit of a number below sixteen.
pub open spec fn hex_digit(n: u8) -> char {
    if n < 10 {
        ('0' as u8 + n) as char
    } else {
        ('A' as u8 + (n - 10)) as char
    }
}

/// How a byte is written in a form: ASCII letters, digits and `*-._` as they are, a space as a plus
/// sign, anything else by its value.
pub open spec fn form_byte(b: u8) -> Seq<char> {
    if (b >= 48 && b <= 57) || (b >= 65 && b <= 90) || (b >= 97 && b <= 122) || b == 42 || b == 45
        || b == 46 || b == 95 {
        seq![b as char]
    } else if b == 32 {
        seq!['+']
    } else {
        seq!['%', hex_digit(b / 16), hex_digit(b % 16)]
    }
}

/// How the first `n` bytes are written in a form.
pub open spec fn form_bytes(bytes: Seq<u8>, n: int) -> Seq<char>
    decreases n,
{
    if n <= 0 {
        seq![]
    } else {
        form_bytes(bytes, n - 1) + form_byte(bytes[n - 1])
    }
}

/// How a text is written in a form: byte by byte of its UTF-8 form.
pub open spec fn form_text(s: Seq<char>) -> Seq<char> {
    let bytes = vstd::utf8::encode_utf8(s);
    form_bytes(bytes, bytes.len() as int)
}

/// The form of the first `n` pairs: `name=value`, with `&` between.
pub open spec fn form_of(pairs: Seq<Pair>, n: int) -> Seq<char>
    decreases n,
{
    if n <= 0 {
        seq![]
    } else if n == 1 {
        form_text(pairs[0].0) + "="@ + form_text(pairs[0].1)
    } else {
        form_of(pairs, n - 1) + "&"@ + form_text(pairs[n - 1].0) + "="@ + form_text(pairs[n - 1].1)
    }
}

/// `url::form_urlencoded::byte_serialize` on the text's bytes: each byte as a form writes it.
#[verifier::external_body]
pub(crate) fn encode_text(s: &str) -> (r: String)
    ensures
        r@ == form_text(s@),
{
    url::form_urlencoded::byte_serialize(s.as_bytes()).collect()
}

/// `url::form_urlencoded::Serializer` fed with the pairs: an `application/x-www-form-urlencoded`
/// body.
#[verifier::external_body]
pub(crate) fn encode_pairs(pairs: &Vec<(String, String)>) -> (r: String)
    ensures
        r@ == form_of(pairs::pair_views(pairs@), pairs@.len() as int),
{
    url::form_urlencoded::Serializer::new(String::new()).extend_pairs(pairs.iter()).finish()
}

// ---- URLs -----------------------------------------------------------------------------------

/// The URL with pairs appended to its query, where the text is a URL.
pub uninterp spec fn url_extended(url: Seq<char>, pairs: Seq<Pair>) -> Option<Seq<char>>;

/// The host and the port that a URL names, or the message with which a text is refused as a URL.
pub uninterp spec fn url_address(url: Seq<char>) -> Result<
    (Option<Seq<char>>, Option<u16>),
    Seq<char>,
>;

/// The pairs in a URL's query, where the text is a URL.
pub uninterp spec fn url_pairs(url: Seq<char>) -> Option<Seq<Pair>>;

/// The pairs in the query of what a target stands for relative to a URL, or the message with which
/// one of the two is refused.
pub uninterp spec fn target_pairs(base: Seq<char>, target: Seq<char>) -> Result<
    Seq<Pair>,
    Seq<char>,
>;

/// The most bytes in a URL that is extended.
pub const MAX_URL_BYTES: usize = 0x0100_0000;

/// The longest form that is appended to a URL.
pub const MAX_FORM_LEN: usize = 0x4000_0000;

/// The URL and the form that the pairs make are short enough for one to be appended to the other.
pub open spec fn extendable(url: Seq<char>, pairs: Seq<Pair>) -> bool {
    bytes::byte_len(url) <= MAX_URL_BYTES && form_of(pairs, pairs.len() as int).len()
        <= MAX_FORM_LEN
}

/// `url::Url::parse`, then `append_pair` on `query_pairs_mut` for each pair, then the URL's text.
/// Whether the text is a URL and what comes out depend on the texts alone. What comes out holds the
/// pairs in the form that a form has them. The crate panics where the place of the query or of the
/// fragment is no `u32`; the two limits keep clear of that, whatever percent-encoding and the mapping
/// of the host make of the text.
#[verifier::external_body]
pub(crate) fn extend_query(url: &str, pairs: &Vec<(String, String)>) -> (r: Option<String>)
    requires
        bytes::byte_len(url@) <= MAX_URL_BYTES,
        form_of(pairs::pair_views(pairs@), pairs@.len() as int).len() <= MAX_FORM_LEN,
    ensures
        text::opt_view(r) == url_extended(url@, pairs::pair_views(pairs@)),
        r matches Some(u) ==> text::holds(
            u@,
            form_of(pairs::pair_views(pairs@), pairs@.len() as int),
        ),
{
    let mut u = url::Url::parse(url).ok()?;
    u.query_pairs_mut().extend_pairs(pairs.iter());
    Some(u.to_string())
}

/// The result of an address lookup by its value.
pub open spec fn address_view(r: Result<(Option<String>, Option<u16>), String>) -> Result<
    (Option<Seq<char>>, Option<u16>),
    Seq<char>,
> {
    match r {
        Ok((host, port)) => Ok((text::opt_view(host), port)),
        Err(e) => Err(e@),
    }
}

/// `url::Url::parse`, then `host_str` and `port`. They depend on the text alone, as does the refusal's
/// message.
#[verifier::external_body]
pub(crate) fn address_of(url: &str) -> (r: Result<(Option<String>, Option<u16>), String>)
    ensures
        address_view(r) == url_address(url@),
{
    match url::Url::parse(url) {
        Ok(u) => Ok((u.host_str().map(|h| h.to_string()), u.port())),
        Err(e) => Err(e.to_string()),
    }
}

/// `url::Url::parse`, then the pairs of `query_pairs`. They depend on the text alone.
#[verifier::external_body]
pub(crate) fn pairs_of(url: &str) -> (r: Option<Vec<(String, String)>>)
    ensures
        match r {
            Some(pairs) => url_pairs(url@) == Some(pairs::pair_views(pairs@)),
            None => url_pairs(url@) is None,
        },
{
    let u = url::Url::parse(url).ok()?;
    Some(u.query_pairs().into_owned().collect())
}

/// `url::Url::parse` of the base, then `join` of the target to it, then the pairs of `query_pairs`.
/// They depend on the two texts alone, as does the message with which one of them is refused.
#[verifier::external_body]
pub(crate) fn pairs_of_target(base: &str, target: &str) -> (r: Result<
    Vec<(String, String)>,
    String,
>)
    ensures
        match r {
            Ok(pairs) => target_pairs(base@, target@) == Ok::<Seq<Pair>, Seq<char>>(
                pairs::pair_views(pairs@),
            ),
            Err(e) => target_pairs(base@, target@) == Err::<Seq<Pair>, Seq<char>>(e@),
        },
{
    match url::Url::parse(base).and_then(|base| base.join(target)) {
        Ok(u) => Ok(u.query_pairs().into_owned().collect()),
        Err(e) => Err(e.to_string()),
    }
}

} // verus!
