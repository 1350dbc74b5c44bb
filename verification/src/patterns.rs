//! Regular expressions, as the `regex` crate has them.

use crate::text;
use vstd::prelude::*;
use vstd::string::*;

verus! {

/// The message with which the `regex` crate refuses a pattern, if it does.
pub uninterp spec fn regex_error(pattern: Seq<char>) -> Option<Seq<char>>;

/// Whether a pattern that the `regex` crate accepts matches somewhere in a text.
pub uninterp spec fn regex_match(pattern: Seq<char>, text: Seq<char>) -> bool;

/// `regex::Regex::new`, then `Regex::is_match` on each text. Whether the pattern is accepted, the
/// refusal's message, and whether a text matches depend on the pattern and that text alone.
#[verifier::external_body]
fn which_match(pattern: &str, texts: &Vec<&str>) -> (r: Result<Vec<bool>, String>)
    ensures
        match r {
            Ok(v) => {
                &&& regex_error(pattern@) is None
                &&& v@.len() == texts@.len()
                &&& forall|i: int|
                    0 <= i < v@.len() ==> #[trigger] v@[i] == regex_match(pattern@, texts@[i]@)
            },
            Err(e) => regex_error(pattern@) == Some(e@),
        },
{
    match regex::Regex::new(pattern) {
        Ok(re) => Ok(texts.iter().map(|t| re.is_match(t)).collect()),
        Err(e) => Err(e.to_string()),
    }
}

/// A text with every match of a pattern replaced.
pub uninterp spec fn regex_replaced(
    pattern: Seq<char>,
    text: Seq<char>,
    with: Seq<char>,
) -> Result<Seq<char>, Seq<char>>;

/// What each match of a pattern in a text captured: the whole match and its groups, a group being
/// none where it took no part. Newlines are matched by a dot.
pub uninterp spec fn regex_captures(pattern: Seq<char>, text: Seq<char>) -> Result<
    Seq<Seq<Option<Seq<char>>>>,
    Seq<char>,
>;

/// `regex::Regex::new`, then `Regex::replace_all`. The result depends on the three texts alone, as
/// does the message with which the pattern is refused.
#[verifier::external_body]
pub(crate) fn replace_all(pattern: &str, text: &str, with: &str) -> (r: Result<String, String>)
    ensures
        result_view(r) == regex_replaced(pattern@, text@, with@),
{
    match regex::Regex::new(pattern) {
        Ok(re) => Ok(re.replace_all(text, with).into_owned()),
        Err(e) => Err(e.to_string()),
    }
}

/// `regex::RegexBuilder` with `dot_matches_new_line`, then the groups of `Regex::captures_iter`. They
/// depend on the pattern and the text alone, as does the message with which the pattern is refused.
#[verifier::external_body]
pub(crate) fn captures(pattern: &str, text: &str) -> (r: Result<
    Vec<Vec<Option<String>>>,
    String,
>)
    ensures
        captures_view(r) == regex_captures(pattern@, text@),
{
    match regex::RegexBuilder::new(pattern).dot_matches_new_line(true).build() {
        Ok(re) => Ok(
            re.captures_iter(text).map(
                |c| c.iter().map(|m| m.map(|m| m.as_str().to_string())).collect(),
            ).collect(),
        ),
        Err(e) => Err(e.to_string()),
    }
}

/// A text or a message by its value.
pub open spec fn result_view(r: Result<String, String>) -> Result<Seq<char>, Seq<char>> {
    match r {
        Ok(s) => Ok(s@),
        Err(e) => Err(e@),
    }
}

/// The groups of a match by their values.
pub open spec fn groups_view(groups: Seq<Option<String>>) -> Seq<Option<Seq<char>>> {
    groups.map_values(|g: Option<String>| text::opt_view(g))
}

/// The groups of each match by their values.
pub open spec fn matches_view(matches: Seq<Vec<Option<String>>>) -> Seq<Seq<Option<Seq<char>>>> {
    matches.map_values(|m: Vec<Option<String>>| groups_view(m@))
}

/// The matches or a message by their values.
pub open spec fn captures_view(r: Result<Vec<Vec<Option<String>>>, String>) -> Result<
    Seq<Seq<Option<Seq<char>>>>,
    Seq<char>,
> {
    match r {
        Ok(matches) => Ok(matches_view(matches@)),
        Err(e) => Err(e@),
    }
}

/// What a group captured; nothing where there is no such group or it took no part.
pub open spec fn group(groups: Seq<Option<Seq<char>>>, i: int) -> Seq<char> {
    if 0 <= i < groups.len() && groups[i] is Some {
        groups[i]->0
    } else {
        seq![]
    }
}

/// What a group captured.
pub fn group_of(groups: &Vec<Option<String>>, i: usize) -> (r: &str)
    ensures
        r@ == group(groups_view(groups@), i as int),
{
    if i < groups.len() {
        assert(groups_view(groups@)[i as int] == text::opt_view(groups@[i as int]));
        match &groups[i] {
            Some(s) => return s.as_str(),
            None => {},
        }
    }
    proof {
        reveal_strlit("");
        assert(""@ =~= seq![]);
    }
    ""
}

/// A text matches a pattern. Nothing matches a pattern that is refused.
pub open spec fn matched(pattern: Seq<char>, text: Seq<char>) -> bool {
    regex_error(pattern) is None && regex_match(pattern, text)
}

/// The message with which a pattern is refused, if it is.
pub fn error_in(pattern: &str) -> (r: Option<String>)
    ensures
        text::opt_view(r) == regex_error(pattern@),
{
    let none: Vec<&str> = Vec::new();
    match which_match(pattern, &none) {
        Ok(_) => None,
        Err(e) => Some(e),
    }
}

/// Whether a text matches a pattern.
pub fn is_match(pattern: &str, text: &str) -> (r: bool)
    ensures
        r == matched(pattern@, text@),
{
    let mut one: Vec<&str> = Vec::new();
    one.push(text);
    match which_match(pattern, &one) {
        Ok(v) => v[0],
        Err(_) => false,
    }
}

/// Which of the texts match a pattern.
pub fn matches_of(pattern: &str, texts: &Vec<&str>) -> (r: Vec<bool>)
    ensures
        r@.len() == texts@.len(),
        forall|i: int| 0 <= i < r@.len() ==> #[trigger] r@[i] == matched(pattern@, texts@[i]@),
{
    match which_match(pattern, texts) {
        Ok(v) => v,
        Err(_) => {
            let mut none: Vec<bool> = Vec::new();
            let mut i: usize = 0;
            while i < texts.len()
                invariant
                    0 <= i <= texts@.len(),
                    none@.len() == i,
                    forall|k: int| 0 <= k < i ==> !(#[trigger] none@[k]),
                decreases texts@.len() - i,
            {
                none.push(false);
                i += 1;
            }
            none
        },
    }
}

} // verus!
