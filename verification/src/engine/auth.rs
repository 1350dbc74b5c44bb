//! OAuth2 (PKCE) foundation for subscription login, plus token and key stores.
//!
//! Generic and provider-agnostic: an [`AuthConfig`] carries the endpoints, client id, scopes, and
//! loopback redirect for a given provider. What is asked of a provider, what its answers hold and
//! what is kept of them is decided here; the requests, the loopback listener and the files are the
//! caller's.

use crate::bytes;
use crate::json;
use crate::json::{Json, JsonSpec, NumberSpec};
use crate::pairs;
use crate::pairs::Pair;
use crate::paths;
use crate::provider::retry;
use crate::text;
use crate::urls;
use vstd::prelude::*;
use vstd::string::*;

verus! {

// ---- proof keys -----------------------------------------------------------------------------

/// A PKCE verifier/challenge pair (`S256`).
pub struct Pkce {
    pub verifier: String,
    pub challenge: String,
}

/// The byte at `i`, or zero past the end.
pub open spec fn byte_at(bytes: Seq<u8>, i: int) -> int {
    if 0 <= i < bytes.len() {
        bytes[i] as int
    } else {
        0
    }
}

/// The `k`th group of six bits.
pub open spec fn sextet(bytes: Seq<u8>, k: int) -> int {
    let b = (k / 4) * 3;
    if k % 4 == 0 {
        byte_at(bytes, b) / 4
    } else if k % 4 == 1 {
        (byte_at(bytes, b) % 4) * 16 + byte_at(bytes, b + 1) / 16
    } else if k % 4 == 2 {
        (byte_at(bytes, b + 1) % 16) * 4 + byte_at(bytes, b + 2) / 64
    } else {
        byte_at(bytes, b + 2) % 64
    }
}

/// The character of a group of six bits in the URL-safe alphabet.
pub open spec fn base64url_char(v: int) -> char {
    if v < 26 {
        ('A' as int + v) as char
    } else if v < 52 {
        ('a' as int + (v - 26)) as char
    } else if v < 62 {
        ('0' as int + (v - 52)) as char
    } else if v == 62 {
        '-'
    } else {
        '_'
    }
}

/// Bytes in URL-safe base64 without padding: a character for every six bits, the last group filled up
/// with zero bits.
pub open spec fn base64url(bytes: Seq<u8>) -> Seq<char> {
    Seq::new(
        ((bytes.len() * 8 + 5) / 6) as nat,
        |k: int| base64url_char(sextet(bytes, k)),
    )
}

/// `URL_SAFE_NO_PAD.encode` of the `base64` crate: URL-safe base64 without padding.
#[verifier::external_body]
fn encode_base64url(bytes: &Vec<u8>) -> (r: String)
    ensures
        r@ == base64url(bytes@),
{
    base64::Engine::encode(&base64::engine::general_purpose::URL_SAFE_NO_PAD, bytes)
}

/// The SHA-256 digest of bytes.
pub uninterp spec fn sha256(bytes: Seq<u8>) -> Seq<u8>;

/// `sha2::Sha256::digest`: the SHA-256 digest, which depends on the bytes alone. It has 32 bytes.
#[verifier::external_body]
fn digest(bytes: &[u8]) -> (r: Vec<u8>)
    ensures
        r@ == sha256(bytes@),
        r@.len() == 32,
{
    <sha2::Sha256 as sha2::Digest>::digest(bytes).to_vec()
}

/// The challenge of a verifier.
pub open spec fn challenge_spec(verifier: Seq<char>) -> Seq<char> {
    base64url(sha256(vstd::utf8::encode_utf8(verifier)))
}

/// `base64url(sha256(verifier))`, no padding.
pub fn challenge_of(verifier: &str) -> (r: String)
    ensures
        r@ == challenge_spec(verifier@),
        r@.len() == 43,
{
    let d = digest(verifier.as_bytes());
    encode_base64url(&d)
}

/// Random bytes in URL-safe base64. None where the system gives no randomness.
pub fn random_b64url(bytes: usize) -> (r: Option<String>)
    requires
        bytes <= isize::MAX,
    ensures
        r matches Some(s) ==> exists|b: Seq<u8>| b.len() == bytes && s@ == #[trigger] base64url(b),
{
    match retry::random_bytes(bytes) {
        Some(buf) => Some(encode_base64url(&buf)),
        None => None,
    }
}

impl Pkce {
    /// The pair of a verifier.
    pub fn of(verifier: String) -> (r: Pkce)
        ensures
            r.verifier@ == verifier@,
            r.challenge@ == challenge_spec(verifier@),
    {
        Pkce { challenge: challenge_of(verifier.as_str()), verifier }
    }

    /// A fresh pair, its verifier made of 32 random bytes. None where the system gives no randomness.
    pub fn generate() -> (r: Option<Pkce>)
        ensures
            r matches Some(p) ==> p.challenge@ == challenge_spec(p.verifier@) && exists|b: Seq<u8>|
                b.len() == 32 && p.verifier@ == #[trigger] base64url(b),
    {
        match random_b64url(32) {
            Some(verifier) => Some(Self::of(verifier)),
            None => None,
        }
    }
}

// ---- requests -------------------------------------------------------------------------------

/// Per-provider OAuth configuration.
pub struct AuthConfig {
    pub client_id: String,
    pub auth_url: String,
    pub token_url: String,
    /// Loopback redirect, e.g. `http://127.0.0.1:8788/callback`.
    pub redirect_uri: String,
    pub scopes: Vec<String>,
}

/// `application/x-www-form-urlencoded` body from key/value pairs.
pub fn encode_form(pairs: &Vec<(String, String)>) -> (r: String)
    ensures
        r@ == urls::form_of(pairs::pair_views(pairs@), pairs@.len() as int),
{
    urls::encode_pairs(pairs)
}

fn put(pairs: &mut Vec<(String, String)>, name: &str, value: &str)
    ensures
        pairs::pair_views(final(pairs)@) == pairs::pair_views(old(pairs)@).push((name@, value@)),
        final(pairs)@.len() == old(pairs)@.len() + 1,
{
    let ghost before = pairs::pair_views(pairs@);
    pairs.push((name.to_string(), value.to_string()));
    assert(pairs::pair_views(pairs@) =~= before.push((name@, value@)));
}

fn no_pairs() -> (r: Vec<(String, String)>)
    ensures
        pairs::pair_views(r@) == Seq::<Pair>::empty(),
        r@.len() == 0,
{
    let r: Vec<(String, String)> = Vec::new();
    assert(pairs::pair_views(r@) =~= Seq::empty());
    r
}

/// What the authorization request carries.
pub open spec fn authorize_pairs(cfg: AuthConfig, challenge: Seq<char>, state: Seq<char>) -> Seq<
    Pair,
> {
    Seq::empty().push(("response_type"@, "code"@)).push(("client_id"@, cfg.client_id@)).push(
        ("redirect_uri"@, cfg.redirect_uri@),
    ).push(("scope"@, text::joined(text::views(cfg.scopes@), " "@))).push(("state"@, state)).push(
        ("code_challenge"@, challenge),
    ).push(("code_challenge_method"@, "S256"@))
}

/// What the exchange of a code carries.
pub open spec fn exchange_pairs(cfg: AuthConfig, verifier: Seq<char>, code: Seq<char>) -> Seq<
    Pair,
> {
    Seq::empty().push(("grant_type"@, "authorization_code"@)).push(("code"@, code)).push(
        ("redirect_uri"@, cfg.redirect_uri@),
    ).push(("client_id"@, cfg.client_id@)).push(("code_verifier"@, verifier))
}

/// What a refresh carries.
pub open spec fn refresh_pairs(cfg: AuthConfig, refresh_token: Seq<char>) -> Seq<Pair> {
    Seq::empty().push(("grant_type"@, "refresh_token"@)).push(
        ("refresh_token"@, refresh_token),
    ).push(("client_id"@, cfg.client_id@))
}

impl AuthConfig {
    /// Build the authorization URL the user opens in a browser. None where `auth_url` is no URL, or
    /// where it or what it is to carry is too long. The URL carries the challenge and the state.
    pub fn authorize_url(&self, pkce: &Pkce, state: &str) -> (r: Option<String>)
        ensures
            text::opt_view(r) == (if urls::extendable(
                self.auth_url@,
                authorize_pairs(*self, pkce.challenge@, state@),
            ) {
                urls::url_extended(
                    self.auth_url@,
                    authorize_pairs(*self, pkce.challenge@, state@),
                )
            } else {
                None
            }),
            r matches Some(url) ==> text::holds(
                url@,
                urls::form_of(authorize_pairs(*self, pkce.challenge@, state@), 7),
            ),
    {
        let mut pairs = no_pairs();
        put(&mut pairs, "response_type", "code");
        put(&mut pairs, "client_id", self.client_id.as_str());
        put(&mut pairs, "redirect_uri", self.redirect_uri.as_str());
        put(&mut pairs, "scope", text::join(&self.scopes, " ").as_str());
        put(&mut pairs, "state", state);
        put(&mut pairs, "code_challenge", pkce.challenge.as_str());
        put(&mut pairs, "code_challenge_method", "S256");
        let form = encode_form(&pairs);
        if self.auth_url.as_str().as_bytes().len() > urls::MAX_URL_BYTES
            || form.as_str().unicode_len() > urls::MAX_FORM_LEN {
            return None;
        }
        urls::extend_query(self.auth_url.as_str(), &pairs)
    }

    /// The body that exchanges an authorization `code` for tokens.
    pub fn exchange_body(&self, pkce: &Pkce, code: &str) -> (r: String)
        ensures
            r@ == urls::form_of(exchange_pairs(*self, pkce.verifier@, code@), 5),
    {
        let mut pairs = no_pairs();
        put(&mut pairs, "grant_type", "authorization_code");
        put(&mut pairs, "code", code);
        put(&mut pairs, "redirect_uri", self.redirect_uri.as_str());
        put(&mut pairs, "client_id", self.client_id.as_str());
        put(&mut pairs, "code_verifier", pkce.verifier.as_str());
        encode_form(&pairs)
    }

    /// The body that refreshes tokens with a refresh token.
    pub fn refresh_body(&self, refresh_token: &str) -> (r: String)
        ensures
            r@ == urls::form_of(refresh_pairs(*self, refresh_token@), 3),
    {
        let mut pairs = no_pairs();
        put(&mut pairs, "grant_type", "refresh_token");
        put(&mut pairs, "refresh_token", refresh_token);
        put(&mut pairs, "client_id", self.client_id.as_str());
        encode_form(&pairs)
    }
}

// ---- tokens ---------------------------------------------------------------------------------

/// Stored credentials.
#[derive(Debug, Clone, PartialEq, Eq)]
pub struct AuthTokens {
    pub access_token: String,
    pub refresh_token: Option<String>,
    /// Unix seconds at which `access_token` expires, if known.
    pub expires_at: Option<u64>,
}

/// The mathematical value of [`AuthTokens`].
pub struct TokensView {
    pub access_token: Seq<char>,
    pub refresh_token: Option<Seq<char>>,
    pub expires_at: Option<u64>,
}

impl View for AuthTokens {
    type V = TokensView;

    open spec fn view(&self) -> TokensView {
        TokensView {
            access_token: self.access_token@,
            refresh_token: text::opt_view(self.refresh_token),
            expires_at: self.expires_at,
        }
    }
}

impl AuthTokens {
    /// Whether the access token has expired. One whose end is not known has not.
    pub fn is_expired(&self, now_unix: u64) -> (r: bool)
        ensures
            r == (self.expires_at matches Some(e) && now_unix >= e),
    {
        match self.expires_at {
            Some(e) => now_unix >= e,
            None => false,
        }
    }
}

/// A provider's answer to a token request.
pub struct TokenResponse {
    pub access_token: String,
    pub refresh_token: Option<String>,
    /// For how many seconds the access token holds, if that is known.
    pub expires_in: Option<u64>,
}

/// An optional number in a record's field: absent or null is none. A value of another type does not
/// fit.
pub open spec fn optional_u64(v: Option<JsonSpec>) -> Option<Option<u64>> {
    match v {
        None => Some(None),
        Some(JsonSpec::Null) => Some(None),
        Some(JsonSpec::Number(NumberSpec::PosInt(n))) => Some(Some(n)),
        _ => None,
    }
}

/// A record of a token, an optional token and an optional number under `last`.
pub open spec fn tokens_record(j: JsonSpec, last: Seq<char>) -> Option<TokensView> {
    let access = match json::slot(j, "access_token"@, 0) {
        Some(v) => json::string_in(v),
        None => None,
    };
    match (
        access,
        json::optional_string(json::slot(j, "refresh_token"@, 1)),
        optional_u64(json::slot(j, last, 2)),
    ) {
        (Some(access_token), Some(refresh_token), Some(expires_at)) if json::is_record(
            j,
            3,
        ) => Some(TokensView { access_token, refresh_token, expires_at }),
        _ => None,
    }
}

fn u64_at(j: &Json, name: &str, pos: usize) -> (r: Result<Option<u64>, ()>)
    ensures
        match r {
            Ok(n) => optional_u64(json::slot(j.model(), name@, pos as int)) == Some(n),
            Err(_) => optional_u64(json::slot(j.model(), name@, pos as int)) is None,
        },
{
    match j.slot(name, pos) {
        None => Ok(None),
        Some(v) => if v.is_null() {
            Ok(None)
        } else {
            match v.as_u64() {
                Some(n) => Ok(Some(n)),
                None => Err(()),
            }
        },
    }
}

fn read_record(j: &Json, last: &str) -> (r: Option<AuthTokens>)
    ensures
        match r {
            Some(t) => tokens_record(j.model(), last@) == Some(t@),
            None => tokens_record(j.model(), last@) is None,
        },
{
    if !j.is_record(3) {
        return None;
    }
    let access_token = match j.slot("access_token", 0)?.as_str() {
        Some(t) => t.to_string(),
        None => return None,
    };
    match (j.optional_string("refresh_token", 1), u64_at(j, last, 2)) {
        (Ok(refresh_token), Ok(expires_at)) => Some(
            AuthTokens { access_token, refresh_token, expires_at },
        ),
        _ => None,
    }
}

impl TokenResponse {
    /// The answer that a value holds.
    pub fn from_json(j: &Json) -> (r: Option<TokenResponse>)
        ensures
            match r {
                Some(t) => tokens_record(j.model(), "expires_in"@) == Some(
                    TokensView {
                        access_token: t.access_token@,
                        refresh_token: text::opt_view(t.refresh_token),
                        expires_at: t.expires_in,
                    },
                ),
                None => tokens_record(j.model(), "expires_in"@) is None,
            },
    {
        match read_record(j, "expires_in") {
            Some(t) => Some(
                TokenResponse {
                    access_token: t.access_token,
                    refresh_token: t.refresh_token,
                    expires_in: t.expires_at,
                },
            ),
            None => None,
        }
    }

    /// The credentials to store of an answer that came at `now`.
    pub fn into_tokens(self, now: u64) -> (r: AuthTokens)
        requires
            self.expires_in matches Some(secs) ==> now + secs <= u64::MAX,
        ensures
            r@ == (TokensView {
                access_token: self.access_token@,
                refresh_token: text::opt_view(self.refresh_token),
                expires_at: match self.expires_in {
                    Some(secs) => Some((now + secs) as u64),
                    None => None,
                },
            }),
    {
        let expires_at = match self.expires_in {
            Some(secs) => Some(now + secs),
            None => None,
        };
        AuthTokens {
            access_token: self.access_token,
            refresh_token: self.refresh_token,
            expires_at,
        }
    }
}

// ---- token files ----------------------------------------------------------------------------

/// The JSON form of an optional text.
pub open spec fn text_or_null(v: Option<Seq<char>>) -> JsonSpec {
    match v {
        Some(t) => JsonSpec::Str(t),
        None => JsonSpec::Null,
    }
}

/// The JSON form of credentials.
pub open spec fn tokens_json(t: TokensView) -> JsonSpec {
    JsonSpec::Object(
        json::pairs3(
            "access_token"@,
            JsonSpec::Str(t.access_token),
            "expires_at"@,
            match t.expires_at {
                Some(n) => JsonSpec::Number(NumberSpec::PosInt(n)),
                None => JsonSpec::Null,
            },
            "refresh_token"@,
            text_or_null(t.refresh_token),
        ),
    )
}

/// The credentials that a file holds.
pub open spec fn tokens_in(file: Seq<char>) -> Option<TokensView> {
    match json::json_parsed(file) {
        Ok(j) => tokens_record(j, "expires_at"@),
        Err(_) => None,
    }
}

proof fn lemma_tokens_read_back(t: TokensView)
    ensures
        tokens_record(tokens_json(t), "expires_at"@) == Some(t),
        json::canonical(tokens_json(t), json::MAX_DEPTH as nat),
{
    reveal_strlit("access_token");
    reveal_strlit("expires_at");
    reveal_strlit("refresh_token");
    reveal_with_fuel(text::precedes_from, 2);
    reveal_with_fuel(json::member_from, 4);
    assert("access_token"@[0] == 'a' && "expires_at"@[0] == 'e' && "refresh_token"@[0] == 'r');
    let ms = tokens_json(t)->Object_0;
    let d = (json::MAX_DEPTH - 1) as nat;
    assert(ms.len() == 3 && ms[0].0 == "access_token"@ && ms[1].0 == "expires_at"@);
    assert(ms[2].0 == "refresh_token"@);
    assert(json::canonical(ms[0].1, d) && json::canonical(ms[1].1, d) && json::canonical(
        ms[2].1,
        d,
    ));
}

/// Persistence for tokens, keyed by provider.
pub trait TokenStore {
    fn load(&self, key: &str) -> Option<AuthTokens>;

    fn save(&self, key: &str, tokens: &AuthTokens) -> Result<(), String>;
}

/// Keeps credentials as JSON files under a directory.
pub struct FileTokenStore {
    dir: String,
}

impl View for FileTokenStore {
    type V = Seq<char>;

    /// The directory.
    closed spec fn view(&self) -> Seq<char> {
        self.dir@
    }
}

impl FileTokenStore {
    pub fn new(dir: &str) -> (r: FileTokenStore)
        ensures
            r@ == dir@,
    {
        FileTokenStore { dir: dir.to_string() }
    }

    /// The file of a key.
    pub fn path(&self, key: &str) -> (r: String)
        ensures
            r@ == paths::joined_path(self@, key@ + ".json"@),
    {
        let name = text::concat2(key, ".json");
        paths::join(self.dir.as_str(), name.as_str())
    }

    /// The credentials that a file holds, if it holds any.
    pub fn decode(file: &str) -> (r: Option<AuthTokens>)
        ensures
            match r {
                Some(t) => tokens_in(file@) == Some(t@),
                None => tokens_in(file@) is None,
            },
    {
        match json::parse(file) {
            Ok(j) => read_record(&j, "expires_at"),
            Err(_) => None,
        }
    }

    /// The file that holds the credentials. Reading it gives them back.
    pub fn encode(tokens: &AuthTokens) -> (r: String)
        ensures
            r@ == json::json_pretty(tokens_json(tokens@)),
            tokens_in(r@) == Some(tokens@),
    {
        let mut m = json::members();
        json::put(&mut m, "access_token", json::string(tokens.access_token.as_str()));
        let expires = match tokens.expires_at {
            Some(n) => json::uint(n),
            None => Json::Null,
        };
        json::put(&mut m, "expires_at", expires);
        let refresh = match &tokens.refresh_token {
            Some(t) => json::string(t.as_str()),
            None => Json::Null,
        };
        json::put(&mut m, "refresh_token", refresh);
        let j = json::object(m);
        proof {
            lemma_tokens_read_back(tokens@);
        }
        json::print_pretty(&j)
    }
}

// ---- API keys -------------------------------------------------------------------------------

/// A flat `name -> api key` store, kept as a single JSON map.
pub struct ApiKeyStore {
    path: String,
}

/// All values are texts.
pub open spec fn all_texts(members: Seq<(Seq<char>, JsonSpec)>) -> bool {
    forall|i: int| 0 <= i < members.len() ==> (#[trigger] members[i]).1 is Str
}

/// The members that the file holds: a JSON object of texts. Any other file, and none, hold nothing.
pub open spec fn keys_in(file: Option<Seq<char>>) -> Seq<(Seq<char>, JsonSpec)> {
    match file {
        None => seq![],
        Some(f) => match json::json_parsed(f) {
            Ok(JsonSpec::Object(members)) => if all_texts(members) {
                members
            } else {
                seq![]
            },
            _ => seq![],
        },
    }
}

/// The key stored under a name.
pub open spec fn key_of(file: Option<Seq<char>>, name: Seq<char>) -> Option<Seq<char>> {
    match json::member_from(keys_in(file), name, 0) {
        Some(JsonSpec::Str(key)) => Some(key),
        _ => None,
    }
}

/// The names come in dictionary order, no name twice.
pub open spec fn in_order(members: Seq<(Seq<char>, JsonSpec)>) -> bool {
    forall|i: int, j: int|
        0 <= i < j < members.len() ==> text::precedes(
            (#[trigger] members[i]).0,
            (#[trigger] members[j]).0,
        )
}

proof fn lemma_member_at(members: Seq<(Seq<char>, JsonSpec)>, at: int, i: int)
    requires
        in_order(members),
        0 <= i <= at < members.len(),
    ensures
        json::member_from(members, members[at].0, i) == Some(members[at].1),
    decreases at - i,
{
    if i < at {
        text::lemma_precedes_differ(members[i].0, members[at].0);
        lemma_member_at(members, at, i + 1);
    }
}

proof fn lemma_no_member(members: Seq<(Seq<char>, JsonSpec)>, name: Seq<char>, i: int)
    requires
        0 <= i <= members.len(),
        forall|k: int| 0 <= k < members.len() ==> (#[trigger] members[k]).0 != name,
    ensures
        json::member_from(members, name, i) is None,
    decreases members.len() - i,
{
    if i < members.len() {
        lemma_no_member(members, name, i + 1);
    }
}

proof fn lemma_member_found(members: Seq<(Seq<char>, JsonSpec)>, name: Seq<char>, i: int)
    requires
        0 <= i <= members.len(),
    ensures
        match json::member_from(members, name, i) {
            Some(v) => exists|k: int|
                i <= k < members.len() && (#[trigger] members[k]).0 == name && members[k].1 == v,
            None => forall|k: int| i <= k < members.len() ==> (#[trigger] members[k]).0 != name,
        },
    decreases members.len() - i,
{
    if i < members.len() && members[i].0 != name {
        lemma_member_found(members, name, i + 1);
    }
}

/// Puts a member where its name belongs, in place of one of the same name.
fn put_in_order(members: &mut Vec<(String, Json)>, name: &str, value: Json)
    requires
        in_order(json::members_model(old(members)@)),
    ensures
        in_order(json::members_model(final(members)@)),
        forall|k: Seq<char>| #[trigger]
            json::member_from(json::members_model(final(members)@), k, 0) == (if k == name@ {
                Some(value.model())
            } else {
                json::member_from(json::members_model(old(members)@), k, 0)
            }),
        all_texts(json::members_model(old(members)@)) && value.model() is Str ==> all_texts(
            json::members_model(final(members)@),
        ),
{
    let ghost was = members@;
    let ghost before = json::members_model(was);
    let mut at: usize = 0;
    while at < members.len() && text::less(members[at].0.as_str(), name)
        invariant
            0 <= at <= members@.len(),
            members@ == was,
            before == json::members_model(was),
            forall|k: int| 0 <= k < at ==> text::precedes((#[trigger] before[k]).0, name@),
        decreases members@.len() - at,
    {
        assert(before[at as int].0 == members@[at as int].0@);
        at += 1;
    }
    let ghost v = value.model();
    if at < members.len() && text::same(members[at].0.as_str(), name) {
        assert(before[at as int].0 == name@);
        members.set(at, (name.to_string(), value));
        assert(json::members_model(members@) =~= before.update(at as int, (name@, v)));
    } else {
        proof {
            if at < before.len() {
                assert(before[at as int].0 == members@[at as int].0@);
                text::lemma_precedes_cases(before[at as int].0, name@);
                assert forall|k: int| at <= k < before.len() implies text::precedes(
                    name@,
                    (#[trigger] before[k]).0,
                ) by {
                    if k > at {
                        text::lemma_precedes_chain(name@, before[at as int].0, before[k].0);
                    }
                }
            }
        }
        members.insert(at, (name.to_string(), value));
        assert(json::members_model(members@) =~= before.insert(at as int, (name@, v)));
    }
    proof {
        let after = json::members_model(members@);
        let grown = after.len() > before.len();
        assert(after[at as int] == (name@, v));
        assert forall|i: int, j: int| 0 <= i < j < after.len() implies text::precedes(
            (#[trigger] after[i]).0,
            (#[trigger] after[j]).0,
        ) by {
            if grown {
                if i < at && j < at {
                    assert(after[i] == before[i] && after[j] == before[j]);
                } else if i < at && j > at {
                    assert(after[i] == before[i] && after[j] == before[j - 1]);
                    assert(text::precedes(before[i].0, before[j - 1].0));
                } else if i > at {
                    assert(after[i] == before[i - 1] && after[j] == before[j - 1]);
                    assert(text::precedes(before[i - 1].0, before[j - 1].0));
                } else if i == at {
                    assert(after[j] == before[j - 1]);
                } else {
                    assert(after[i] == before[i]);
                }
            } else {
                assert(after[i].0 == before[i].0 && after[j].0 == before[j].0);
            }
        }
        assert forall|k: Seq<char>| #[trigger] json::member_from(after, k, 0) == (if k == name@ {
            Some(v)
        } else {
            json::member_from(before, k, 0)
        }) by {
            if k == name@ {
                lemma_member_at(after, at as int, 0);
            } else {
                lemma_member_found(before, k, 0);
                lemma_member_found(after, k, 0);
                if json::member_from(before, k, 0) is Some {
                    let i = choose|i: int|
                        0 <= i < before.len() && (#[trigger] before[i]).0 == k && before[i].1
                            == json::member_from(before, k, 0)->0;
                    let o = if grown && i >= at {
                        i + 1
                    } else {
                        i
                    };
                    assert(after[o] == before[i]);
                    lemma_member_at(after, o, 0);
                } else if json::member_from(after, k, 0) is Some {
                    let i = choose|i: int| 0 <= i < after.len() && (#[trigger] after[i]).0 == k;
                    let o = if grown && i > at {
                        i - 1
                    } else {
                        i
                    };
                    assert(before[o] == after[i]);
                }
            }
        }
        if all_texts(before) && v is Str {
            assert forall|i: int| 0 <= i < after.len() implies (#[trigger] after[i]).1 is Str by {
                if i != at {
                    let o = if grown && i > at {
                        i - 1
                    } else {
                        i
                    };
                    assert(after[i] == before[o]);
                }
            }
        }
    }
}

impl View for ApiKeyStore {
    type V = Seq<char>;

    /// The file.
    closed spec fn view(&self) -> Seq<char> {
        self.path@
    }
}

impl ApiKeyStore {
    pub fn new(path: &str) -> (r: ApiKeyStore)
        ensures
            r@ == path@,
    {
        ApiKeyStore { path: path.to_string() }
    }

    /// Where the keys are kept.
    pub fn path(&self) -> (r: &str)
        ensures
            r@ == self@,
    {
        self.path.as_str()
    }

    /// The names and keys that the file holds. `file` is its text, if there is one.
    fn read(file: Option<&str>) -> (r: Vec<(String, String)>)
        ensures
            r@.len() == keys_in(opt_str(file)).len(),
            in_order(keys_in(opt_str(file))),
            forall|i: int|
                0 <= i < r@.len() ==> (#[trigger] r@[i]).0@ == keys_in(opt_str(file))[i].0
                    && JsonSpec::Str(r@[i].1@) == keys_in(opt_str(file))[i].1,
    {
        let mut out: Vec<(String, String)> = Vec::new();
        let f = match file {
            Some(f) => f,
            None => return out,
        };
        if let Ok(Json::Object(members)) = json::parse(f) {
            let ghost all = json::members_model(members@);
            proof {
                let parsed = json::json_parsed(f@)->Ok_0;
                assert(parsed->Object_0 =~= all);
            }
            let mut i: usize = 0;
            while i < members.len()
                invariant
                    0 <= i <= members@.len(),
                    all == json::members_model(members@),
                    json::json_parsed(f@) == Ok::<JsonSpec, Seq<char>>(JsonSpec::Object(all)),
                    in_order(all),
                    file == Some(f),
                    out@.len() == i,
                    forall|k: int|
                        0 <= k < i ==> (#[trigger] out@[k]).0@ == all[k].0 && JsonSpec::Str(
                            out@[k].1@,
                        ) == all[k].1,
                decreases members@.len() - i,
            {
                assert(all[i as int] == (members@[i as int].0@, members@[i as int].1.model()));
                match members[i].1.as_str() {
                    Some(key) => out.push((members[i].0.clone(), key.to_string())),
                    None => {
                        assert(!all_texts(all));
                        return Vec::new();
                    },
                }
                i += 1;
            }
            assert(all_texts(all)) by {
                assert forall|k: int| 0 <= k < all.len() implies (#[trigger] all[k]).1 is Str by {
                    assert(JsonSpec::Str(out@[k].1@) == all[k].1);
                }
            }
        }
        out
    }

    /// The stored key for `name`, if any. `file` is what the store's file holds, if there is one.
    pub fn get(file: Option<&str>, name: &str) -> (r: Option<String>)
        ensures
            text::opt_view(r) == key_of(opt_str(file), name@),
    {
        let pairs = Self::read(file);
        let ghost all = keys_in(opt_str(file));
        let mut i: usize = 0;
        while i < pairs.len()
            invariant
                0 <= i <= pairs@.len(),
                pairs@.len() == all.len(),
                forall|k: int|
                    0 <= k < pairs@.len() ==> (#[trigger] pairs@[k]).0@ == all[k].0
                        && JsonSpec::Str(pairs@[k].1@) == all[k].1,
                json::member_from(all, name@, 0) == json::member_from(all, name@, i as int),
                all == keys_in(opt_str(file)),
            decreases pairs@.len() - i,
        {
            if text::same(pairs[i].0.as_str(), name) {
                return Some(pairs[i].1.clone());
            }
            i += 1;
        }
        None
    }

    /// What the store's file holds once the key for `name` is stored (or replaced). Reading it gives
    /// that key, and every other key as it was.
    pub fn set(file: Option<&str>, name: &str, key: &str) -> (r: String)
        ensures
            exists|keys: Seq<(Seq<char>, JsonSpec)>| #[trigger]
                in_order(keys) && r@ == json::json_pretty(JsonSpec::Object(keys)),
            key_of(Some(r@), name@) == Some(key@),
            forall|other: Seq<char>|
                other != name@ ==> #[trigger] key_of(Some(r@), other) == key_of(
                    opt_str(file),
                    other,
                ),
    {
        let pairs = Self::read(file);
        let ghost all = keys_in(opt_str(file));
        let mut members = json::members();
        let mut i: usize = 0;
        while i < pairs.len()
            invariant
                0 <= i <= pairs@.len(),
                pairs@.len() == all.len(),
                forall|k: int|
                    0 <= k < pairs@.len() ==> (#[trigger] pairs@[k]).0@ == all[k].0
                        && JsonSpec::Str(pairs@[k].1@) == all[k].1,
                in_order(json::members_model(members@)),
                all_texts(json::members_model(members@)),
                in_order(all),
                forall|k: Seq<char>| #[trigger]
                    json::member_from(json::members_model(members@), k, 0) == json::member_from(
                        all.take(i as int),
                        k,
                        0,
                    ),
            decreases pairs@.len() - i,
        {
            let ghost before = json::members_model(members@);
            put_in_order(&mut members, pairs[i].0.as_str(), json::string(pairs[i].1.as_str()));
            proof {
                let next = all.take(i + 1);
                let now = all.take(i as int);
                assert(in_order(next));
                assert forall|k: Seq<char>| #[trigger]
                    json::member_from(json::members_model(members@), k, 0) == json::member_from(
                        next,
                        k,
                        0,
                    ) by {
                    if k == all[i as int].0 {
                        lemma_member_at(next, i as int, 0);
                        assert(next[i as int] == all[i as int]);
                    } else {
                        assert(json::member_from(before, k, 0) == json::member_from(now, k, 0));
                        assert(next =~= now.push(all[i as int]));
                        lemma_member_of_prefix(now, all[i as int], k, 0);
                    }
                }
            }
            i += 1;
        }
        assert(all.take(i as int) =~= all);
        put_in_order(&mut members, name, json::string(key));
        let ghost ms = json::members_model(members@);
        let j = json::object(members);
        proof {
            let d = (json::MAX_DEPTH - 1) as nat;
            assert forall|k: int| 0 <= k < ms.len() implies json::canonical(
                (#[trigger] ms[k]).1,
                d,
            ) by {
                assert(ms[k].1 is Str);
            }
            assert(json::canonical(JsonSpec::Object(ms), json::MAX_DEPTH as nat));
        }
        json::print_pretty(&j)
    }
}

/// The value of an optional text.
pub open spec fn opt_str(v: Option<&str>) -> Option<Seq<char>> {
    match v {
        Some(s) => Some(s@),
        None => None,
    }
}

proof fn lemma_member_of_prefix(
    members: Seq<(Seq<char>, JsonSpec)>,
    last: (Seq<char>, JsonSpec),
    name: Seq<char>,
    i: int,
)
    requires
        0 <= i <= members.len(),
        last.0 != name,
    ensures
        json::member_from(members.push(last), name, i) == json::member_from(members, name, i),
    decreases members.len() - i,
{
    if i < members.len() && members[i].0 != name {
        lemma_member_of_prefix(members, last, name, i + 1);
    } else if i == members.len() {
        assert(json::member_from(members.push(last), name, i + 1) is None);
    }
}

// ---- the loopback redirect ------------------------------------------------------------------

/// The address to listen at for a URL's host and port.
pub open spec fn listen_at(host: Option<Seq<char>>, port: Option<u16>) -> Seq<char> {
    (match host {
        Some(h) => h,
        None => "127.0.0.1"@,
    }) + ":"@ + text::decimal(
        match port {
            Some(p) => p as nat,
            None => 80,
        },
    )
}

/// The address to listen at for a URL's host and port.
pub fn listen_address(host: Option<String>, port: Option<u16>) -> (r: String)
    ensures
        r@ == listen_at(text::opt_view(host), port),
{
    let mut s = match host {
        Some(h) => h,
        None => "127.0.0.1".to_string(),
    };
    s.append(":");
    let p: u64 = match port {
        Some(p) => p as u64,
        None => 80,
    };
    s.append(text::decimal_of(p).as_str());
    s
}

/// The `host:port` to bind for the loopback listener, parsed from the redirect URI.
pub fn loopback_addr(redirect_uri: &str) -> (r: Result<String, String>)
    ensures
        match (urls::url_address(redirect_uri@), r) {
            (Ok((host, port)), Ok(s)) => s@ == listen_at(host, port),
            (Err(a), Err(b)) => a == b@,
            _ => false,
        },
{
    match urls::address_of(redirect_uri) {
        Ok((host, port)) => Ok(listen_address(host, port)),
        Err(e) => Err(e),
    }
}

/// What the browser is answered, whatever it sent.
pub const SUCCESS_PAGE: &'static str = "Cordy authorized. You may close this window.";

/// The answer to the browser.
pub fn success_response() -> (r: String)
    ensures
        r@ == "HTTP/1.1 200 OK\r\nContent-Length: "@ + text::decimal(
            bytes::byte_len(SUCCESS_PAGE@),
        ) + "\r\nContent-Type: text/plain\r\n\r\n"@ + SUCCESS_PAGE@,
{
    let mut s = "HTTP/1.1 200 OK\r\nContent-Length: ".to_string();
    s.append(text::decimal_of(SUCCESS_PAGE.as_bytes().len() as u64).as_str());
    s.append("\r\nContent-Type: text/plain\r\n\r\n");
    s.append(SUCCESS_PAGE);
    s
}

/// The code in a redirect's pairs. The state must be the expected one, whatever else there is.
pub open spec fn code_in(pairs: Seq<Pair>, expected: Seq<char>) -> Result<Seq<char>, Seq<char>> {
    let n = pairs.len() as int;
    if pairs::last_value(pairs, "state"@, n) != Some(expected) {
        Err("OAuth state mismatch"@)
    } else {
        match pairs::last_value(pairs, "code"@, n) {
            Some(code) => Ok(code),
            None => Err("no authorization code in redirect"@),
        }
    }
}

/// The code in a redirect request. Its second word is the target.
pub open spec fn code_in_request(request: Seq<char>, expected: Seq<char>) -> Result<
    Seq<char>,
    Seq<char>,
> {
    let words = text::words_of(request);
    if words.len() < 2 {
        Err("malformed redirect request"@)
    } else {
        match urls::target_pairs("http://localhost"@, words[1]) {
            Ok(pairs) => code_in(pairs, expected),
            Err(e) => Err(e),
        }
    }
}

/// A redirect whose state is not the expected one gives no code: the login is refused.
pub proof fn a_foreign_state_is_refused(pairs: Seq<Pair>, expected: Seq<char>)
    requires
        pairs::last_value(pairs, "state"@, pairs.len() as int) != Some(expected),
    ensures
        code_in(pairs, expected) is Err,
{
}

/// The code in a redirect's pairs.
pub fn code_of(pairs: &Vec<(String, String)>, expected_state: &str) -> (r: Result<String, String>)
    ensures
        match r {
            Ok(code) => code_in(pairs::pair_views(pairs@), expected_state@) == Ok::<
                Seq<char>,
                Seq<char>,
            >(code@),
            Err(e) => code_in(pairs::pair_views(pairs@), expected_state@) == Err::<
                Seq<char>,
                Seq<char>,
            >(e@),
        },
{
    let matches = match pairs::last_of(pairs, "state") {
        Some(s) => text::same(s.as_str(), expected_state),
        None => false,
    };
    if !matches {
        return Err("OAuth state mismatch".to_string());
    }
    match pairs::last_of(pairs, "code") {
        Some(code) => Ok(code),
        None => Err("no authorization code in redirect".to_string()),
    }
}

/// The code in a redirect request (validating the state), or what is wrong with it.
pub fn code_from_request(request: &str, expected_state: &str) -> (r: Result<String, String>)
    ensures
        match r {
            Ok(code) => code_in_request(request@, expected_state@) == Ok::<Seq<char>, Seq<char>>(
                code@,
            ),
            Err(e) => code_in_request(request@, expected_state@) == Err::<Seq<char>, Seq<char>>(
                e@,
            ),
        },
{
    let words = text::words(request);
    assert(text::views(words@).len() == words@.len());
    if words.len() < 2 {
        return Err("malformed redirect request".to_string());
    }
    assert(text::views(words@)[1] == words@[1]@);
    match urls::pairs_of_target("http://localhost", words[1]) {
        Ok(pairs) => code_of(&pairs, expected_state),
        Err(e) => Err(e),
    }
}

// ---- what holds of the requests -------------------------------------------------------------

proof fn lemma_parameter_names()
    ensures
        "response_type"@.len() == 13 && "client_id"@.len() == 9 && "redirect_uri"@.len() == 12,
        "scope"@.len() == 5 && "state"@.len() == 5 && "code_challenge"@.len() == 14,
        "code_challenge_method"@.len() == 21 && "grant_type"@.len() == 10 && "code"@.len() == 4,
        "code_verifier"@.len() == 13 && "refresh_token"@.len() == 13,
        "scope"@[1] == 'c' && "state"@[1] == 't',
        "code_verifier"@[0] == 'c' && "refresh_token"@[0] == 'r' && "response_type"@[0] == 'r',
{
    reveal_strlit("response_type");
    reveal_strlit("client_id");
    reveal_strlit("redirect_uri");
    reveal_strlit("scope");
    reveal_strlit("state");
    reveal_strlit("code_challenge");
    reveal_strlit("code_challenge_method");
    reveal_strlit("grant_type");
    reveal_strlit("code");
    reveal_strlit("code_verifier");
    reveal_strlit("refresh_token");
}

/// The browser is sent for a code with the challenge and the state, and is not told the verifier.
pub proof fn an_authorization_is_asked_with_the_challenge(
    cfg: AuthConfig,
    challenge: Seq<char>,
    state: Seq<char>,
)
    ensures
        ({
            let pairs = authorize_pairs(cfg, challenge, state);
            &&& pairs::first_value(pairs, "response_type"@, 0) == Some("code"@)
            &&& pairs::first_value(pairs, "client_id"@, 0) == Some(cfg.client_id@)
            &&& pairs::first_value(pairs, "redirect_uri"@, 0) == Some(cfg.redirect_uri@)
            &&& pairs::first_value(pairs, "scope"@, 0) == Some(
                text::joined(text::views(cfg.scopes@), " "@),
            )
            &&& pairs::first_value(pairs, "state"@, 0) == Some(state)
            &&& pairs::first_value(pairs, "code_challenge"@, 0) == Some(challenge)
            &&& pairs::first_value(pairs, "code_challenge_method"@, 0) == Some("S256"@)
            &&& pairs::first_value(pairs, "code_verifier"@, 0) is None
        }),
{
    lemma_parameter_names();
    reveal_with_fuel(pairs::first_value, 8);
}

/// The code is exchanged with the verifier of the challenge, for the client and the address that it was
/// asked for; a refresh token is exchanged for the client it was given to.
pub proof fn a_code_is_exchanged_with_the_verifier(
    cfg: AuthConfig,
    verifier: Seq<char>,
    code: Seq<char>,
    refresh: Seq<char>,
)
    ensures
        ({
            let pairs = exchange_pairs(cfg, verifier, code);
            &&& pairs::first_value(pairs, "grant_type"@, 0) == Some("authorization_code"@)
            &&& pairs::first_value(pairs, "code"@, 0) == Some(code)
            &&& pairs::first_value(pairs, "redirect_uri"@, 0) == Some(cfg.redirect_uri@)
            &&& pairs::first_value(pairs, "client_id"@, 0) == Some(cfg.client_id@)
            &&& pairs::first_value(pairs, "code_verifier"@, 0) == Some(verifier)
        }),
        ({
            let pairs = refresh_pairs(cfg, refresh);
            &&& pairs::first_value(pairs, "grant_type"@, 0) == Some("refresh_token"@)
            &&& pairs::first_value(pairs, "refresh_token"@, 0) == Some(refresh)
            &&& pairs::first_value(pairs, "client_id"@, 0) == Some(cfg.client_id@)
        }),
{
    lemma_parameter_names();
    reveal_with_fuel(pairs::first_value, 6);
}

/// The code in a redirect is taken where the state is the one expected.
pub proof fn a_code_is_taken_with_its_state(
    pairs: Seq<Pair>,
    expected: Seq<char>,
    code: Seq<char>,
    state_at: int,
    code_at: int,
)
    requires
        0 <= state_at < pairs.len(),
        0 <= code_at < pairs.len(),
        pairs[state_at] == ("state"@, expected),
        pairs[code_at] == ("code"@, code),
        forall|k: int| state_at < k < pairs.len() ==> (#[trigger] pairs[k]).0 != "state"@,
        forall|k: int| code_at < k < pairs.len() ==> (#[trigger] pairs[k]).0 != "code"@,
    ensures
        code_in(pairs, expected) == Ok::<Seq<char>, Seq<char>>(code),
{
    pairs::the_last_value_is_found(pairs, "state"@, state_at, pairs.len() as int);
    pairs::the_last_value_is_found(pairs, "code"@, code_at, pairs.len() as int);
}

/// Base 64 loses nothing: two texts of bytes of one length that differ are written differently.
pub proof fn base64_tells_bytes_apart(a: Seq<u8>, b: Seq<u8>, i: int)
    requires
        a.len() == b.len(),
        0 <= i < a.len(),
        a[i] != b[i],
    ensures
        base64url(a) != base64url(b),
{
    let q = i / 3;
    let k = 4 * q;
    let n = ((a.len() * 8 + 5) / 6) as int;
    if base64url(a) == base64url(b) {
        if i % 3 == 0 {
            lemma_same_sextet(a, b, k);
            lemma_same_sextet(a, b, k + 1);
            assert(byte_at(a, i) == 4 * (byte_at(a, i) / 4) + byte_at(a, i) % 4);
        } else if i % 3 == 1 {
            lemma_same_sextet(a, b, k + 1);
            lemma_same_sextet(a, b, k + 2);
        } else {
            lemma_same_sextet(a, b, k + 2);
            lemma_same_sextet(a, b, k + 3);
        }
    }
}

proof fn lemma_same_sextet(a: Seq<u8>, b: Seq<u8>, k: int)
    requires
        a.len() == b.len(),
        base64url(a) == base64url(b),
        0 <= k < (a.len() * 8 + 5) / 6,
    ensures
        sextet(a, k) == sextet(b, k),
        0 <= sextet(a, k) < 64,
{
    assert(base64url(a)[k] == base64url_char(sextet(a, k)));
    assert(base64url(b)[k] == base64url_char(sextet(b, k)));
    assert(0 <= sextet(a, k) < 64);
    assert(0 <= sextet(b, k) < 64);
    lemma_base64_chars(sextet(a, k), sextet(b, k));
}

proof fn lemma_base64_chars(v: int, w: int)
    requires
        0 <= v < 64,
        0 <= w < 64,
        base64url_char(v) == base64url_char(w),
    ensures
        v == w,
{
    assert(base64url_char(v) as int == if v < 26 {
        65 + v
    } else if v < 52 {
        97 + (v - 26)
    } else if v < 62 {
        48 + (v - 52)
    } else if v == 62 {
        45
    } else {
        95
    });
    assert(base64url_char(w) as int == if w < 26 {
        65 + w
    } else if w < 52 {
        97 + (w - 26)
    } else if w < 62 {
        48 + (w - 52)
    } else if w == 62 {
        45
    } else {
        95
    });
}

/// Credentials that are written are the ones read again.
pub proof fn written_credentials_read_back(t: TokensView)
    ensures
        tokens_record(tokens_json(t), "expires_at"@) == Some(t),
{
    lemma_tokens_read_back(t);
}

/// The answer of the token endpoint is read by the names of its fields.
pub proof fn a_token_answer_is_read_by_name(
    j: JsonSpec,
    access: Seq<char>,
    refresh: Seq<char>,
    seconds: u64,
)
    requires
        j is Object,
        json::field(j, "access_token"@) == Some(JsonSpec::Str(access)),
        json::field(j, "refresh_token"@) == Some(JsonSpec::Str(refresh)),
        json::field(j, "expires_in"@) == Some(JsonSpec::Number(NumberSpec::PosInt(seconds))),
    ensures
        tokens_record(j, "expires_in"@) == Some(
            TokensView {
                access_token: access,
                refresh_token: Some(refresh),
                expires_at: Some(seconds),
            },
        ),
{
}

} // verus!
