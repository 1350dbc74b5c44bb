//! `glob` — list files matching a glob pattern, honoring ignore files.

use super::ls;
use crate::engine::types;
use crate::engine::types::{ToolOutput, ToolSpec, ToolView};
use crate::json;
use crate::json::{Json, JsonSpec};
use crate::patterns;
use crate::text;
use crate::tools;
use crate::tools::Risk;
use vstd::prelude::*;
use vstd::string::*;

verus! {

broadcast use crate::text::views_push;

/// How many files are listed.
pub const MAX_HITS: usize = 500;

pub struct Glob;

/// What the tool is advertised as.
pub open spec fn glob_spec() -> ToolView {
    ToolView {
        name: "glob"@,
        description: "List files matching a glob pattern (e.g. `**/*.rs`), honoring ignore files."@,
        input_schema: tools::object_spec(
            json::pairs2(
                "pattern"@,
                tools::typed_spec("string"@),
                "path"@,
                tools::described_spec("string"@, "Root dir; defaults to cwd."@),
            ),
            Seq::empty().push("pattern"@),
        ),
    }
}

/// A character that stands for itself in a glob but not in a regular expression.
pub open spec fn is_special(c: char) -> bool {
    c == '.' || c == '+' || c == '(' || c == ')' || c == '|' || c == '^' || c == '$' || c == '{' || c
        == '}' || c == '[' || c == ']' || c == '\\'
}

/// There are two stars at `i`.
pub open spec fn double_star(glob: Seq<char>, i: int) -> bool {
    glob[i] == '*' && i + 1 < glob.len() && glob[i + 1] == '*'
}

/// What the character at `i` becomes in the regular expression: two stars match anything, one star
/// anything but a slash, a question mark one character but a slash, and any other character itself.
pub open spec fn piece_at(glob: Seq<char>, i: int) -> Seq<char> {
    if double_star(glob, i) {
        ".*"@
    } else if glob[i] == '*' {
        "[^/]*"@
    } else if glob[i] == '?' {
        "[^/]"@
    } else if is_special(glob[i]) {
        seq!['\\', glob[i]]
    } else {
        seq![glob[i]]
    }
}

/// The character after what stands at `i`. A slash behind two stars goes with them, so that `**/x`
/// matches `x` at the root too.
pub open spec fn next_at(glob: Seq<char>, i: int) -> int {
    if double_star(glob, i) {
        if i + 2 < glob.len() && glob[i + 2] == '/' {
            i + 3
        } else {
            i + 2
        }
    } else {
        i + 1
    }
}

/// What the characters from `i` on become.
pub open spec fn body_from(glob: Seq<char>, i: int) -> Seq<char>
    decreases glob.len() - i,
{
    if i < 0 || i >= glob.len() {
        seq![]
    } else {
        piece_at(glob, i) + body_from(glob, next_at(glob, i))
    }
}

/// The anchored regular expression of a glob.
pub open spec fn pattern_of(glob: Seq<char>) -> Seq<char> {
    "^"@ + body_from(glob, 0) + "$"@
}

/// Convert a glob to an anchored regex. Supports `**` (any dirs), `*` (within a segment), `?`.
pub fn glob_to_regex(glob: &str) -> (r: String)
    ensures
        r@ == pattern_of(glob@),
{
    let chars = text::chars_of(glob);
    let ghost all = glob@;
    let mut re = "^".to_string();
    let mut i: usize = 0;
    while i < chars.len()
        invariant
            0 <= i <= chars.len(),
            all == chars@,
            re@ + body_from(all, i as int) == "^"@ + body_from(all, 0),
        decreases chars.len() - i,
    {
        let c = chars[i];
        let ghost before = re@;
        let ghost rest = body_from(all, next_at(all, i as int));
        let n = chars.len();
        if c == '*' {
            if n - i > 1 && chars[i + 1] == '*' {
                re.append(".*");
                assert(re@ + rest =~= before + (piece_at(all, i as int) + rest));
                if n - i > 2 && chars[i + 2] == '/' {
                    i = i + 3;
                } else {
                    i = i + 2;
                }
                continue;
            }
            re.append("[^/]*");
        } else if c == '?' {
            re.append("[^/]");
        } else if c == '.' || c == '+' || c == '(' || c == ')' || c == '|' || c == '^' || c == '$'
            || c == '{' || c == '}' || c == '[' || c == ']' || c == '\\' {
            re.push('\\');
            re.push(c);
            assert(re@ =~= before + seq!['\\', c]);
        } else {
            re.push(c);
            assert(re@ =~= before + seq![c]);
        }
        assert(re@ + rest =~= before + (piece_at(all, i as int) + rest));
        i += 1;
    }
    assert(re@ + body_from(all, i as int) =~= re@);
    re.append("$");
    re
}

/// A file search that is to be made.
pub struct GlobPlan {
    /// The regular expression of the glob.
    pub pattern: String,
    pub root: String,
}

/// The regular expression that an input asks for, or what the model is told.
pub open spec fn pattern_in(input: JsonSpec) -> Result<Seq<char>, Seq<char>> {
    match json::string_field(input, "pattern"@) {
        None => Err("glob: missing `pattern`"@),
        Some(glob) => match patterns::regex_error(pattern_of(glob)) {
            Some(e) => Err("glob: bad pattern: "@ + e),
            None => Ok(pattern_of(glob)),
        },
    }
}

/// A path with slashes between its parts.
pub open spec fn slashed(path: Seq<char>) -> Seq<char> {
    text::replaced(path, "\\"@, "/"@)
}

/// Those of the first `n` paths that match.
pub open spec fn matching_to(pattern: Seq<char>, files: Seq<Seq<char>>, n: int) -> Seq<Seq<char>>
    decreases n,
{
    if n <= 0 {
        seq![]
    } else {
        let before = matching_to(pattern, files, n - 1);
        if patterns::matched(pattern, slashed(files[n - 1])) {
            before.push(slashed(files[n - 1]))
        } else {
            before
        }
    }
}

/// The first of the paths that match.
pub open spec fn hits_of(pattern: Seq<char>, files: Seq<Seq<char>>) -> Seq<Seq<char>> {
    let all = matching_to(pattern, files, files.len() as int);
    if all.len() <= MAX_HITS {
        all
    } else {
        all.take(MAX_HITS as int)
    }
}

impl Glob {
    pub fn spec(&self) -> (r: ToolSpec)
        ensures
            r@ == glob_spec(),
    {
        let mut p = json::members();
        json::put(&mut p, "pattern", tools::typed("string"));
        json::put(&mut p, "path", tools::described("string", "Root dir; defaults to cwd."));
        tools::advertise(
            "glob",
            "List files matching a glob pattern (e.g. `**/*.rs`), honoring ignore files.",
            tools::object_schema(p, &tools::one_name("pattern")),
        )
    }

    pub fn risk(&self) -> (r: Risk)
        ensures
            r == Risk::ReadOnly,
    {
        Risk::ReadOnly
    }

    /// What the input asks to search, or what the model is told where the pattern is no good.
    pub fn plan(input: &Json, cwd: &str) -> (r: Result<GlobPlan, ToolOutput>)
        ensures
            match (pattern_in(input.model()), r) {
                (Ok(pattern), Ok(plan)) => plan.pattern@ == pattern && plan.root@ == ls::dir_in(
                    input.model(),
                    cwd@,
                ),
                (Err(e), Err(out)) => out@ == types::output_error(e),
                _ => false,
            },
    {
        let glob = match input.str_field("pattern") {
            Some(p) => p,
            None => return Err(ToolOutput::error("glob: missing `pattern`")),
        };
        let pattern = glob_to_regex(glob);
        match patterns::error_in(pattern.as_str()) {
            Some(e) => {
                let msg = text::concat2("glob: bad pattern: ", e.as_str());
                Err(ToolOutput::error(msg.as_str()))
            },
            None => Ok(GlobPlan { pattern, root: ls::dir_of(input, cwd) }),
        }
    }

    /// The first matching files, in dictionary order, one to a line. `files` are the paths of all
    /// files below the root, relative to it, in the order in which they are found.
    pub fn finish(pattern: &str, files: &Vec<String>) -> (r: ToolOutput)
        ensures
            ({
                let hits = hits_of(pattern@, text::views(files@));
                if hits.len() == 0 {
                    r@ == types::output_ok("no matches"@)
                } else {
                    exists|listed: Seq<Seq<char>>| #[trigger]
                        text::is_sorting(listed, hits) && r@ == types::output_ok(
                            text::joined(listed, "\n"@),
                        )
                }
            }),
    {
        let ghost all = text::views(files@);
        proof {
            reveal_strlit("\\");
        }
        let mut paths: Vec<String> = Vec::new();
        let mut k: usize = 0;
        while k < files.len()
            invariant
                0 <= k <= files@.len(),
                "\\"@.len() == 1,
                paths@.len() == k,
                forall|i: int| 0 <= i < k ==> (#[trigger] paths@[i])@ == slashed(files@[i]@),
            decreases files@.len() - k,
        {
            paths.push(text::replace(files[k].as_str(), "\\", "/"));
            k += 1;
        }
        let mut texts: Vec<&str> = Vec::new();
        let mut j: usize = 0;
        while j < paths.len()
            invariant
                0 <= j <= paths@.len(),
                texts@.len() == j,
                forall|i: int| 0 <= i < j ==> (#[trigger] texts@[i])@ == paths@[i]@,
            decreases paths@.len() - j,
        {
            texts.push(paths[j].as_str());
            j += 1;
        }
        let matched = patterns::matches_of(pattern, &texts);
        let mut hits: Vec<String> = Vec::new();
        assert(text::views(hits@) =~= seq![]);
        let mut i: usize = 0;
        while i < paths.len() && hits.len() < MAX_HITS
            invariant
                0 <= i <= paths@.len(),
                all == text::views(files@),
                paths@.len() == files@.len(),
                texts@.len() == paths@.len(),
                matched@.len() == paths@.len(),
                forall|x: int|
                    0 <= x < paths@.len() ==> (#[trigger] paths@[x])@ == slashed(files@[x]@),
                forall|x: int| 0 <= x < texts@.len() ==> (#[trigger] texts@[x])@ == paths@[x]@,
                forall|x: int|
                    0 <= x < matched@.len() ==> #[trigger] matched@[x] == patterns::matched(
                        pattern@,
                        texts@[x]@,
                    ),
                text::views(hits@) == matching_to(pattern@, all, i as int),
                hits@.len() <= MAX_HITS,
            decreases paths@.len() - i,
        {
            assert(all[i as int] == files@[i as int]@);
            assert(texts@[i as int]@ == paths@[i as int]@);
            if matched[i] {
                hits.push(paths[i].clone());
            }
            i += 1;
        }
        proof {
            assert(text::views(hits@).len() == hits@.len());
            lemma_matching_grow(pattern@, all, i as int, all.len() as int);
            assert(text::views(hits@) =~= hits_of(pattern@, all));
        }
        if hits.len() == 0 {
            return ToolOutput::ok("no matches");
        }
        let listed = text::sort(&hits);
        let out = text::join(&listed, "\n");
        assert(text::is_sorting(text::views(listed@), hits_of(pattern@, all)));
        ToolOutput::ok(out.as_str())
    }
}

/// The matches among a few paths are the first matches among more paths.
proof fn lemma_matching_grow(pattern: Seq<char>, files: Seq<Seq<char>>, m: int, n: int)
    requires
        0 <= m <= n,
    ensures
        matching_to(pattern, files, m).len() <= matching_to(pattern, files, n).len(),
        matching_to(pattern, files, n).take(matching_to(pattern, files, m).len() as int)
            == matching_to(pattern, files, m),
    decreases n,
{
    let few = matching_to(pattern, files, m);
    if m < n {
        lemma_matching_grow(pattern, files, m, n - 1);
        let less = matching_to(pattern, files, n - 1);
        let more = matching_to(pattern, files, n);
        assert(more.take(few.len() as int) =~= less.take(few.len() as int));
    } else {
        assert(few.take(few.len() as int) =~= few);
    }
}

// ---- what holds of a file search ------------------------------------------------------------

/// The files that match are the hits: all of them where they are no more than five hundred, in the
/// order in which they are found, with slashes between their parts; else the first five hundred.
pub proof fn every_matching_file_is_a_hit(pattern: Seq<char>, files: Seq<Seq<char>>)
    ensures
        ({
            let matching = files.map_values(|f: Seq<char>| slashed(f)).filter(
                |f: Seq<char>| patterns::matched(pattern, f),
            );
            &&& matching.len() <= 500 ==> hits_of(pattern, files) == matching
            &&& matching.len() > 500 ==> hits_of(pattern, files) == matching.take(500)
        }),
{
    lemma_matching(pattern, files, files.len() as int);
    assert(files.take(files.len() as int) =~= files);
}

proof fn lemma_matching(pattern: Seq<char>, files: Seq<Seq<char>>, n: int)
    requires
        0 <= n <= files.len(),
    ensures
        matching_to(pattern, files, n) == files.take(n).map_values(
            |f: Seq<char>| slashed(f),
        ).filter(|f: Seq<char>| patterns::matched(pattern, f)),
    decreases n,
{
    reveal(Seq::filter);
    let write = |f: Seq<char>| slashed(f);
    let keep = |f: Seq<char>| patterns::matched(pattern, f);
    let some = files.take(n).map_values(write);
    if n <= 0 {
        assert(some =~= Seq::empty());
        assert(some.filter(keep) =~= Seq::empty());
    } else {
        lemma_matching(pattern, files, n - 1);
        assert(some.drop_last() =~= files.take(n - 1).map_values(write));
        assert(some.last() == slashed(files[n - 1]));
    }
}

/// What a glob is made of.
pub enum Token {
    /// Two stars: anything.
    Any,
    /// Two stars and a slash: any directories, or none.
    AnyDirs,
    /// One star: anything within a part of the path.
    Star,
    /// A question mark: one character of a part of the path.
    One,
    /// A character that stands for itself.
    Lit(char),
}

/// A token as it stands in a glob.
pub open spec fn as_glob(t: Token) -> Seq<char> {
    match t {
        Token::Any => seq!['*', '*'],
        Token::AnyDirs => seq!['*', '*', '/'],
        Token::Star => seq!['*'],
        Token::One => seq!['?'],
        Token::Lit(c) => seq![c],
    }
}

/// A token as it stands in the regular expression. A character that means something there is escaped.
pub open spec fn as_regex(t: Token) -> Seq<char> {
    match t {
        Token::Any => seq!['.', '*'],
        Token::AnyDirs => seq!['.', '*'],
        Token::Star => seq!['[', '^', '/', ']', '*'],
        Token::One => seq!['[', '^', '/', ']'],
        Token::Lit(c) => if ".+()|^${}[]\\"@.contains(c) {
            seq!['\\', c]
        } else {
            seq![c]
        },
    }
}

/// The tokens can be told apart where they are written one behind the other.
pub open spec fn told_apart(tokens: Seq<Token>) -> bool {
    &&& forall|i: int|
        0 <= i < tokens.len() ==> (#[trigger] tokens[i] matches Token::Lit(c) ==> c != '*' && c
            != '?')
    &&& forall|i: int, j: int|
        0 <= i && j == i + 1 && j < tokens.len() && #[trigger] tokens[i] is Star ==> !(
        #[trigger] tokens[j] is Star) && !(tokens[j] is Any) && !(tokens[j] is AnyDirs)
    &&& forall|i: int, j: int|
        0 <= i && j == i + 1 && j < tokens.len() && #[trigger] tokens[i] is Any
            ==> #[trigger] tokens[j] != Token::Lit('/')
}

proof fn lemma_special(c: char)
    ensures
        ".+()|^${}[]\\"@.contains(c) <==> is_special(c),
{
    reveal_strlit(".+()|^${}[]\\");
    let all = ".+()|^${}[]\\"@;
    assert(all.len() == 12);
    assert(all[0] == '.' && all[1] == '+' && all[2] == '(' && all[3] == ')' && all[4] == '|');
    assert(all[5] == '^' && all[6] == '$' && all[7] == '{' && all[8] == '}' && all[9] == '[');
    assert(all[10] == ']' && all[11] == '\\');
    if all.contains(c) {
        let i = choose|i: int| 0 <= i < all.len() && all[i] == c;
        assert(is_special(c));
    }
}

proof fn lemma_tokens(tokens: Seq<Token>, k: int)
    requires
        told_apart(tokens),
        0 <= k <= tokens.len(),
    ensures
        ({
            let glob = tokens.map_values(|t: Token| as_glob(t)).flatten();
            let at = tokens.take(k).map_values(|t: Token| as_glob(t)).flatten().len() as int;
            &&& at <= glob.len()
            &&& k == tokens.len() ==> at == glob.len()
            &&& k < tokens.len() ==> at < glob.len()
            &&& body_from(glob, at) == tokens.skip(k).map_values(|t: Token| as_regex(t)).flatten()
        }),
    decreases tokens.len() - k,
{
    let write = |t: Token| as_glob(t);
    let mean = |t: Token| as_regex(t);
    let glob = tokens.map_values(write).flatten();
    let front = tokens.take(k).map_values(write);
    let back = tokens.skip(k).map_values(write);
    let at = front.flatten().len() as int;
    assert(tokens.map_values(write) =~= front + back);
    vstd::seq_lib::lemma_flatten_concat(front, back);
    assert(glob == front.flatten() + back.flatten());
    if k == tokens.len() {
        assert(back =~= Seq::empty());
        assert(tokens.skip(k).map_values(mean) =~= Seq::empty());
    } else {
        let t = tokens[k];
        lemma_tokens(tokens, k + 1);
        assert(back.first() == as_glob(t));
        assert(back.drop_first() =~= tokens.skip(k + 1).map_values(write));
        assert(tokens.take(k + 1).map_values(write) =~= front.push(as_glob(t)));
        front.lemma_flatten_push(as_glob(t));
        let next = tokens.take(k + 1).map_values(write).flatten().len() as int;
        assert(next == at + as_glob(t).len());
        let later = back.drop_first().flatten();
        assert(glob == front.flatten() + (as_glob(t) + later));
        assert(forall|i: int| 0 <= i < as_glob(t).len() ==> glob[at + i] == as_glob(t)[i]);
        assert(forall|i: int|
            0 <= i < later.len() ==> glob[at + as_glob(t).len() + i] == later[i]);
        if k + 1 < tokens.len() {
            let u = tokens[k + 1];
            assert(back.drop_first().first() == as_glob(u));
            assert(later == as_glob(u) + back.drop_first().drop_first().flatten());
            assert(later[0] == as_glob(u)[0]);
            assert(glob[next] == later[0]);
        } else {
            assert(back.drop_first() =~= Seq::empty());
            assert(later.len() == 0);
        }
        let rest = tokens.skip(k).map_values(mean);
        assert(rest.first() == as_regex(t));
        assert(rest.drop_first() =~= tokens.skip(k + 1).map_values(mean));
        reveal_strlit(".*");
        reveal_strlit("[^/]*");
        reveal_strlit("[^/]");
        assert(".*"@ =~= seq!['.', '*']);
        assert("[^/]*"@ =~= seq!['[', '^', '/', ']', '*']);
        assert("[^/]"@ =~= seq!['[', '^', '/', ']']);
        match t {
            Token::Lit(c) => {
                lemma_special(c);
                assert(glob[at] == c);
            },
            Token::Star => {
                assert(glob[at] == '*');
                assert(!double_star(glob, at));
            },
            Token::One => {
                assert(glob[at] == '?');
            },
            Token::Any => {
                assert(glob[at] == '*' && glob[at + 1] == '*');
                assert(double_star(glob, at));
            },
            Token::AnyDirs => {
                assert(glob[at] == '*' && glob[at + 1] == '*' && glob[at + 2] == '/');
            },
        }
        assert(piece_at(glob, at) == as_regex(t));
        assert(next_at(glob, at) == next);
    }
}

/// A glob becomes the regular expression that says the same, part by part, from one end of the path to
/// the other: stars and question marks become what they match, and every other character matches
/// itself, one that a regular expression would read otherwise being escaped.
pub proof fn a_glob_becomes_its_expression(tokens: Seq<Token>)
    requires
        told_apart(tokens),
    ensures
        pattern_of(tokens.map_values(|t: Token| as_glob(t)).flatten()) == seq!['^']
            + tokens.map_values(|t: Token| as_regex(t)).flatten() + seq!['$'],
{
    let write = |t: Token| as_glob(t);
    lemma_tokens(tokens, 0);
    assert(tokens.take(0).map_values(write) =~= Seq::empty());
    assert(tokens.skip(0) =~= tokens);
    reveal_strlit("^");
    reveal_strlit("$");
    assert("^"@ =~= seq!['^']);
    assert("$"@ =~= seq!['$']);
}

} // verus!
