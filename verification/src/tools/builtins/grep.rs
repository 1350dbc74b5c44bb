//! `grep` — regex search across files, honoring ignore files.

use super::ls;
use crate::engine::types;
use crate::engine::types::{ToolOutput, ToolSpec, ToolView};
use crate::json;
use crate::json::{Json, JsonSpec};
use crate::patterns;
use crate::text;
use crate::tools;
use crate::tools::Risk;
use vstd::prelude::*;
use vstd::string::*;

verus! {

broadcast use crate::text::views_push;

/// How many matches are reported.
pub const MAX_MATCHES: usize = 200;

pub struct Grep;

/// What the tool is advertised as.
pub open spec fn grep_spec() -> ToolView {
    ToolView {
        name: "grep"@,
        description: "Search file contents by regex, honoring ignore files. Returns file:line:text matches."@,
        input_schema: tools::object_spec(
            json::pairs2(
                "pattern"@,
                tools::described_spec("string"@, "Regular expression."@),
                "path"@,
                tools::described_spec("string"@, "Directory to search; defaults to cwd."@),
            ),
            Seq::empty().push("pattern"@),
        ),
    }
}

/// A search that is to be made.
pub struct GrepPlan {
    pub pattern: String,
    pub root: String,
}

/// The pattern that an input asks for, or what the model is told.
pub open spec fn pattern_in(input: JsonSpec) -> Result<Seq<char>, Seq<char>> {
    match json::string_field(input, "pattern"@) {
        None => Err("grep: missing `pattern`"@),
        Some(pattern) => match patterns::regex_error(pattern) {
            Some(e) => Err("grep: bad pattern: "@ + e),
            None => Ok(pattern),
        },
    }
}

/// A match as it is reported.
pub open spec fn hit(path: Seq<char>, n: int, line: Seq<char>) -> Seq<char> {
    path + ":"@ + text::decimal(n as nat) + ":"@ + text::trimmed_end(line)
}

/// The matches in the first `n` lines of a file.
pub open spec fn hits_to(
    pattern: Seq<char>,
    path: Seq<char>,
    lines: Seq<Seq<char>>,
    n: int,
) -> Seq<Seq<char>>
    decreases n,
{
    if n <= 0 {
        seq![]
    } else {
        let before = hits_to(pattern, path, lines, n - 1);
        if patterns::matched(pattern, lines[n - 1]) {
            before.push(hit(path, n, lines[n - 1]))
        } else {
            before
        }
    }
}

/// The matches in a file.
pub open spec fn hits_in(pattern: Seq<char>, path: Seq<char>, content: Seq<char>) -> Seq<
    Seq<char>,
> {
    let lines = text::lines_of(content);
    hits_to(pattern, path, lines, lines.len() as int)
}

/// The matches that are kept, and whether there were more.
pub struct HitsView {
    pub hits: Seq<Seq<char>>,
    pub truncated: bool,
}

/// What is kept of a series of matches.
pub open spec fn kept(all: Seq<Seq<char>>) -> HitsView {
    if all.len() <= MAX_MATCHES {
        HitsView { hits: all, truncated: false }
    } else {
        HitsView { hits: all.take(MAX_MATCHES as int), truncated: true }
    }
}

/// What is kept when more matches come. Once there were too many, nothing is added.
pub open spec fn kept_more(h: HitsView, more: Seq<Seq<char>>) -> HitsView {
    if h.truncated {
        h
    } else {
        kept(h.hits + more)
    }
}

/// Going through the files one by one keeps the same as taking all their matches at once: the first
/// ones, in the order of the files.
pub proof fn files_add_up(seen: Seq<Seq<char>>, more: Seq<Seq<char>>)
    ensures
        kept_more(kept(seen), more) == kept(seen + more),
{
    if seen.len() > MAX_MATCHES {
        assert((seen + more).take(MAX_MATCHES as int) =~= seen.take(MAX_MATCHES as int));
    }
}

/// The matches found so far.
pub struct Hits {
    hits: Vec<String>,
    truncated: bool,
}

impl View for Hits {
    type V = HitsView;

    closed spec fn view(&self) -> HitsView {
        HitsView { hits: text::views(self.hits@), truncated: self.truncated }
    }
}

/// The report of a search.
pub open spec fn report(h: HitsView) -> Seq<char> {
    if h.hits.len() == 0 {
        "no matches"@
    } else if h.truncated {
        text::joined(
            h.hits.push("... (truncated at "@ + text::decimal(MAX_MATCHES as nat) + " matches)"@),
            "\n"@,
        )
    } else {
        text::joined(h.hits, "\n"@)
    }
}

impl Hits {
    /// No more matches are kept than can be reported.
    #[verifier::type_invariant]
    spec fn bounded(self) -> bool {
        self.hits@.len() <= MAX_MATCHES
    }

    pub fn new() -> (r: Hits)
        ensures
            r@ == kept(Seq::<Seq<char>>::empty()),
    {
        let r = Hits { hits: Vec::new(), truncated: false };
        assert(r@.hits =~= Seq::empty());
        r
    }

    /// Whether there were too many matches: the search is over.
    pub fn is_full(&self) -> (r: bool)
        ensures
            r == self@.truncated,
    {
        self.truncated
    }

    /// Adds the matches of a file.
    pub fn scan(&mut self, pattern: &str, path: &str, content: &str)
        ensures
            final(self)@ == kept_more(old(self)@, hits_in(pattern@, path@, content@)),
    {
        proof {
            use_type_invariant(&*self);
        }
        if self.truncated {
            return;
        }
        let ghost before = text::views(self.hits@);
        let lines = text::lines(content);
        let ghost all = text::views(lines@);
        let ghost found = hits_in(pattern@, path@, content@);
        let matched = patterns::matches_of(pattern, &lines);
        let mut hits: Vec<String> = Vec::new();
        std::mem::swap(&mut hits, &mut self.hits);
        assert(before + hits_to(pattern@, path@, all, 0) =~= before);
        let mut i: usize = 0;
        while i < lines.len()
            invariant
                0 <= i <= lines.len(),
                all == text::views(lines@),
                found == hits_to(pattern@, path@, all, all.len() as int),
                matched@.len() == lines@.len(),
                forall|k: int|
                    0 <= k < matched@.len() ==> #[trigger] matched@[k] == patterns::matched(
                        pattern@,
                        lines@[k]@,
                    ),
                text::views(hits@) == before + hits_to(pattern@, path@, all, i as int),
                hits@.len() <= MAX_MATCHES,
                self.hits@.len() == 0,
                !self.truncated,
                old(self)@ == (HitsView { hits: before, truncated: false }),
                found == hits_in(pattern@, path@, content@),
            decreases lines@.len() - i,
        {
            assert(all[i as int] == lines@[i as int]@);
            if matched[i] {
                let ghost so_far = hits_to(pattern@, path@, all, i as int);
                if hits.len() >= MAX_MATCHES {
                    proof {
                        lemma_hits_grow(pattern@, path@, all, i + 1, all.len() as int);
                        let total = before + found;
                        assert(text::views(hits@).len() == MAX_MATCHES);
                        assert(total.take(MAX_MATCHES as int) =~= text::views(hits@)) by {
                            let more = hits_to(pattern@, path@, all, i + 1);
                            assert(more == so_far.push(hit(path@, i + 1, all[i as int])));
                            assert(so_far =~= more.take(so_far.len() as int));
                            assert(so_far =~= found.take(so_far.len() as int));
                        }
                    }
                    self.hits = hits;
                    self.truncated = true;
                    return;
                }
                let mut line = text::concat3(
                    path,
                    ":",
                    text::decimal_of(i as u64 + 1).as_str(),
                );
                line.append(":");
                line.append(text::trim_end(lines[i]));
                assert(line@ == hit(path@, i + 1, all[i as int]));
                hits.push(line);
                assert((before + so_far).push(line@) =~= before + so_far.push(line@));
            }
            i += 1;
        }
        assert(text::views(hits@).len() == hits@.len());
        self.hits = hits;
    }

    /// The report of the search.
    pub fn finish(&self) -> (r: ToolOutput)
        ensures
            r@ == types::output_ok(report(self@)),
    {
        assert(text::views(self.hits@).len() == self.hits@.len());
        if self.hits.len() == 0 {
            return ToolOutput::ok("no matches");
        }
        let mut lines = text::copy_strings(self.hits.as_slice());
        if self.truncated {
            lines.push(
                text::concat3(
                    "... (truncated at ",
                    text::decimal_of(MAX_MATCHES as u64).as_str(),
                    " matches)",
                ),
            );
        }
        let out = text::join(&lines, "\n");
        ToolOutput::ok(out.as_str())
    }
}

/// The matches of a few lines are the first matches of more lines.
proof fn lemma_hits_grow(
    pattern: Seq<char>,
    path: Seq<char>,
    lines: Seq<Seq<char>>,
    m: int,
    n: int,
)
    requires
        0 <= m <= n,
    ensures
        hits_to(pattern, path, lines, m).len() <= hits_to(pattern, path, lines, n).len(),
        hits_to(pattern, path, lines, n).take(hits_to(pattern, path, lines, m).len() as int)
            == hits_to(pattern, path, lines, m),
    decreases n,
{
    let few = hits_to(pattern, path, lines, m);
    if m < n {
        lemma_hits_grow(pattern, path, lines, m, n - 1);
        let less = hits_to(pattern, path, lines, n - 1);
        let more = hits_to(pattern, path, lines, n);
        assert(more.take(few.len() as int) =~= less.take(few.len() as int));
    } else {
        assert(few.take(few.len() as int) =~= few);
    }
}

impl Grep {
    pub fn spec(&self) -> (r: ToolSpec)
        ensures
            r@ == grep_spec(),
    {
        let mut p = json::members();
        json::put(&mut p, "pattern", tools::described("string", "Regular expression."));
        json::put(
            &mut p,
            "path",
            tools::described("string", "Directory to search; defaults to cwd."),
        );
        tools::advertise(
            "grep",
            "Search file contents by regex, honoring ignore files. Returns file:line:text matches.",
            tools::object_schema(p, &tools::one_name("pattern")),
        )
    }

    pub fn risk(&self) -> (r: Risk)
        ensures
            r == Risk::ReadOnly,
    {
        Risk::ReadOnly
    }

    /// What the input asks to search, or what the model is told where the pattern is no good.
    pub fn plan(input: &Json, cwd: &str) -> (r: Result<GrepPlan, ToolOutput>)
        ensures
            match (pattern_in(input.model()), r) {
                (Ok(pattern), Ok(plan)) => plan.pattern@ == pattern && plan.root@ == ls::dir_in(
                    input.model(),
                    cwd@,
                ),
                (Err(e), Err(out)) => out@ == types::output_error(e),
                _ => false,
            },
    {
        let pattern = match input.str_field("pattern") {
            Some(p) => p,
            None => return Err(ToolOutput::error("grep: missing `pattern`")),
        };
        match patterns::error_in(pattern) {
            Some(e) => {
                let msg = text::concat2("grep: bad pattern: ", e.as_str());
                Err(ToolOutput::error(msg.as_str()))
            },
            None => Ok(GrepPlan { pattern: pattern.to_string(), root: ls::dir_of(input, cwd) }),
        }
    }
}

// ---- what holds of a search -----------------------------------------------------------------

/// The lines that match, by their places in the file.
pub open spec fn matching_places(pattern: Seq<char>, lines: Seq<Seq<char>>) -> Seq<int> {
    Seq::new(lines.len(), |i: int| i).filter(|i: int| patterns::matched(pattern, lines[i]))
}

proof fn lemma_hits(pattern: Seq<char>, path: Seq<char>, lines: Seq<Seq<char>>, n: int)
    requires
        0 <= n <= lines.len(),
    ensures
        hits_to(pattern, path, lines, n) == Seq::new(n as nat, |i: int| i).filter(
            |i: int| patterns::matched(pattern, lines[i]),
        ).map_values(
            |i: int|
                path + seq![':'] + text::decimal((i + 1) as nat) + seq![':'] + text::trimmed_end(
                    lines[i],
                ),
        ),
    decreases n,
{
    let keep = |i: int| patterns::matched(pattern, lines[i]);
    let write = |i: int|
        path + seq![':'] + text::decimal((i + 1) as nat) + seq![':'] + text::trimmed_end(lines[i]);
    let all = Seq::new(n as nat, |i: int| i);
    reveal_strlit(":");
    assert(":"@ =~= seq![':']);
    reveal(Seq::filter);
    if n <= 0 {
        assert(all.filter(keep) =~= Seq::<int>::empty());
        assert(all.filter(keep).map_values(write) =~= Seq::empty());
    } else {
        lemma_hits(pattern, path, lines, n - 1);
        let fewer = Seq::new((n - 1) as nat, |i: int| i);
        assert(all.drop_last() =~= fewer);
        assert(all.last() == n - 1);
        assert(write(n - 1) == hit(path, n, lines[n - 1]));
        if keep(n - 1) {
            assert(all.filter(keep) == fewer.filter(keep).push(n - 1));
            assert(all.filter(keep).map_values(write) =~= fewer.filter(keep).map_values(write).push(
                write(n - 1),
            ));
        }
    }
}

/// Every line that matches is reported once, in order, with its file, its number counted from one and
/// its text; no other line is.
pub proof fn every_matching_line_is_reported(
    pattern: Seq<char>,
    path: Seq<char>,
    content: Seq<char>,
)
    ensures
        hits_in(pattern, path, content) == matching_places(
            pattern,
            text::lines_of(content),
        ).map_values(
            |i: int|
                path + seq![':'] + text::decimal((i + 1) as nat) + seq![':'] + text::trimmed_end(
                    text::lines_of(content)[i],
                ),
        ),
{
    let lines = text::lines_of(content);
    lemma_hits(pattern, path, lines, lines.len() as int);
}

/// The report lists the matches one to a line. Where there are too many it lists the first two hundred
/// and says so; where there are none it says that.
pub proof fn a_report_lists_the_matches(all: Seq<Seq<char>>)
    requires
        forall|i: int, k: int|
            0 <= i < all.len() && 0 <= k < all[i].len() ==> #[trigger] all[i][k] != '\n',
    ensures
        ({
            let lines = text::split(report(kept(all)), '\n');
            &&& 0 < all.len() <= 200 ==> lines == all
            &&& all.len() > 200 ==> lines.len() == 201 && lines.take(200) == all.take(200)
                && lines[200] == "... (truncated at "@ + text::decimal(200) + " matches)"@
            &&& all.len() == 0 ==> report(kept(all)) == "no matches"@
        }),
{
    reveal_strlit("\n");
    assert("\n"@ =~= seq!['\n']);
    if 0 < all.len() <= 200 {
        text::joined_parts_split_again(all, '\n');
    } else if all.len() > 200 {
        let note = "... (truncated at "@ + text::decimal(200) + " matches)"@;
        let listed = all.take(200).push(note);
        reveal_strlit("... (truncated at ");
        reveal_strlit(" matches)");
        text::lemma_decimal_digits(200);
        assert forall|i: int, k: int|
            0 <= i < listed.len() && 0 <= k < listed[i].len() implies #[trigger] listed[i][k]
            != '\n' by {
            if i < 200 {
                assert(listed[i][k] == all[i][k]);
            } else {
                let a = "... (truncated at "@;
                let d = text::decimal(200);
                if k >= a.len() && k < a.len() + d.len() {
                    assert(listed[i][k] == d[k - a.len()]);
                }
            }
        }
        text::joined_parts_split_again(listed, '\n');
        assert(listed.take(200) =~= all.take(200));
    }
}

} // verus!
