//! Update check: is a newer version published than the one running?
//!
//! The package registry is asked first, then the release list; the result is kept for a day so the
//! network is hit at most once per 24 hours, and any failure degrades silently to "no update".

use crate::json;
use crate::json::{Json, JsonSpec};
use crate::text;
use vstd::prelude::*;
use vstd::string::*;

verus! {

pub const CRATES_URL: &'static str = "https://crates.io/api/v1/crates/cordy";

pub const GITHUB_URL: &'static str =
    "https://api.github.com/repos/redstone-md/Cordy/releases/latest";

/// How long an answer is kept, in seconds.
pub const MAX_AGE_SECS: u64 = 86400;

/// An answer from `checked_at` still counts at `now`. One from the future does.
pub open spec fn fresh(checked_at: u64, now: u64) -> bool {
    now < checked_at + MAX_AGE_SECS
}

/// Whether an answer from `checked_at` still counts at `now`.
pub fn is_fresh(checked_at: u64, now: u64) -> (r: bool)
    ensures
        r == fresh(checked_at, now),
{
    now < checked_at || now - checked_at < MAX_AGE_SECS
}

/// The newest stable version that the package registry's answer names.
pub open spec fn registry_version(v: JsonSpec) -> Option<Seq<char>> {
    match json::field(v, "crate"@) {
        Some(c) => json::string_field(c, "max_stable_version"@),
        None => None,
    }
}

/// The version of the release that the answer names, without leading `v`s.
pub open spec fn release_version(v: JsonSpec) -> Option<Seq<char>> {
    match json::string_field(v, "tag_name"@) {
        Some(tag) => Some(text::without_leading(tag, 'v')),
        None => None,
    }
}

/// The newest stable version that the package registry's answer names.
pub fn version_in_registry(v: &Json) -> (r: Option<String>)
    ensures
        text::opt_view(r) == registry_version(v.model()),
{
    match v.get("crate")?.str_field("max_stable_version") {
        Some(s) => Some(s.to_string()),
        None => None,
    }
}

/// The version of the release that the answer names.
pub fn version_of_release(v: &Json) -> (r: Option<String>)
    ensures
        text::opt_view(r) == release_version(v.model()),
{
    match v.str_field("tag_name") {
        Some(tag) => Some(text::trim_start_matches(tag, 'v').to_string()),
        None => None,
    }
}

/// Whether the first of two versions comes after the second, where both are versions.
pub uninterp spec fn version_above(a: Seq<char>, b: Seq<char>) -> Option<bool>;

/// `semver::Version::parse` on both texts, then `>` on the versions. Whether a text is a version, and
/// which of two versions comes later, depend on the texts alone.
#[verifier::external_body]
fn compare_versions(a: &str, b: &str) -> (r: Option<bool>)
    ensures
        r == version_above(a@, b@),
{
    match (semver::Version::parse(a), semver::Version::parse(b)) {
        (Ok(x), Ok(y)) => Some(x > y),
        _ => None,
    }
}

/// The published version comes after the running one. A text that is no version does not.
pub open spec fn newer(latest: Seq<char>, current: Seq<char>) -> bool {
    version_above(text::without_leading(latest, 'v'), current) == Some(true)
}

/// True when `latest` parses as a version strictly greater than `current`.
pub fn is_newer(latest: &str, current: &str) -> (r: bool)
    ensures
        r == newer(latest@, current@),
{
    match compare_versions(text::trim_start_matches(latest, 'v'), current) {
        Some(above) => above,
        None => false,
    }
}

/// The version that a kept answer names, while it still counts.
pub fn known(kept: Option<(u64, String)>, now: u64) -> (r: Option<String>)
    ensures
        text::opt_view(r) == (match kept {
            Some((checked_at, latest)) => if fresh(checked_at, now) {
                Some(latest@)
            } else {
                None
            },
            None => None,
        }),
{
    match kept {
        Some((checked_at, latest)) => if is_fresh(checked_at, now) {
            Some(latest)
        } else {
            None
        },
        None => None,
    }
}

/// The version that the answers name: the registry's, or else the release list's.
pub open spec fn published_in(registry: Option<JsonSpec>, release: Option<JsonSpec>) -> Option<
    Seq<char>,
> {
    let first = match registry {
        Some(v) => registry_version(v),
        None => None,
    };
    if first is Some {
        first
    } else {
        match release {
            Some(v) => release_version(v),
            None => None,
        }
    }
}

/// The version that the answers name: the registry's, or else the release list's.
pub fn published(registry: Option<&Json>, release: Option<&Json>) -> (r: Option<String>)
    ensures
        text::opt_view(r) == published_in(
            match registry {
                Some(v) => Some(v.model()),
                None => None,
            },
            match release {
                Some(v) => Some(v.model()),
                None => None,
            },
        ),
{
    if let Some(v) = registry {
        if let Some(version) = version_in_registry(v) {
            return Some(version);
        }
    }
    match release {
        Some(v) => version_of_release(v),
        None => None,
    }
}

/// The latest published version if it is strictly newer than the running build.
pub fn offer(latest: String, current: &str) -> (r: Option<String>)
    ensures
        text::opt_view(r) == (if newer(latest@, current@) {
            Some(latest@)
        } else {
            None
        }),
{
    if is_newer(latest.as_str(), current) {
        Some(latest)
    } else {
        None
    }
}

/// An answer counts for a day from when it was given, and no longer.
pub proof fn an_answer_counts_for_a_day(checked_at: u64, now: u64)
    ensures
        now <= checked_at ==> fresh(checked_at, now),
        checked_at <= now ==> (fresh(checked_at, now) <==> now - checked_at < 24 * 60 * 60),
{
}

/// The registry's word counts before that of the release list.
pub proof fn the_registry_is_believed_first(
    named: JsonSpec,
    version: Seq<char>,
    release: Option<JsonSpec>,
)
    requires
        json::string_field(json::field_or_null(named, "crate"@), "max_stable_version"@) == Some(
            version,
        ),
    ensures
        published_in(Some(named), release) == Some(version),
{
}

proof fn lemma_leading(s: Seq<char>, k: nat)
    requires
        k <= s.len(),
        forall|i: int| 0 <= i < k ==> s[i] == 'v',
        k < s.len() ==> s[k as int] != 'v',
    ensures
        text::without_leading(s, 'v') == s.skip(k as int),
    decreases k,
{
    if k > 0 {
        let rest = s.subrange(1, s.len() as int);
        lemma_leading(rest, (k - 1) as nat);
        assert(rest.skip(k - 1) =~= s.skip(k as int));
    } else {
        assert(s.skip(0) =~= s);
    }
}

/// Without the registry's word the tag of the release counts, and the `v` in front of a tag is no
/// part of the version.
pub proof fn a_tag_names_its_version(release: JsonSpec, version: Seq<char>)
    requires
        version.len() > 0 ==> version[0] != 'v',
        ({
            let tag = json::string_field(release, "tag_name"@);
            tag == Some(version) || tag == Some(seq!['v'] + version)
        }),
    ensures
        published_in(None, Some(release)) == Some(version),
{
    let tag = json::string_field(release, "tag_name"@)->0;
    if tag == version {
        lemma_leading(tag, 0);
        assert(tag.skip(0) =~= version);
    }
    if tag == seq!['v'] + version {
        lemma_leading(tag, 1);
        assert(tag.skip(1) =~= version);
    }
}

/// With or without the `v` in front, a published version is compared by its number alone.
pub proof fn the_mark_of_a_version_does_not_count(version: Seq<char>, current: Seq<char>)
    requires
        version.len() > 0 ==> version[0] != 'v',
    ensures
        newer(seq!['v'] + version, current) == newer(version, current),
        newer(version, current) <==> version_above(version, current) == Some(true),
{
    let marked = seq!['v'] + version;
    lemma_leading(version, 0);
    lemma_leading(marked, 1);
    assert(version.skip(0) =~= version);
    assert(marked.skip(1) =~= version);
}

} // verus!
