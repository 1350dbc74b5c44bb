//! System prompt assembly (layered composition).
//!
//! The final prompt is built from several sources, in order:
//! 1. **Base instructions** — a `SYSTEM.md` override (the project's, else the global one) if present,
//!    otherwise the built-in default (full, or a lean variant for Cognitive Core models).
//! 2. **Tools** — the available tool names.
//! 3. **Environment** — cwd + OS.
//! 4. **Project context** — files such as `AGENTS.md` and `.cordy/CORDY.md`, discovered by walking up
//!    from the working directory, wrapped in a `<project_context>` block with per-file paths.
//! 5. **Capabilities** — skills / sub-agents / MCP prompt fragments.
//! 6. **Append** — `APPEND_SYSTEM.md` (global then project) added verbatim at the end.

use crate::paths;
use crate::text;
use crate::text_laws;
use vstd::prelude::*;
use vstd::string::*;

verus! {

broadcast use crate::text::views_push;

/// Inputs for [`build_system_prompt`].
pub struct PromptContext<'a> {
    pub cwd: &'a str,
    pub os: &'a str,
    pub tool_names: &'a Vec<String>,
    /// `<project_context>` body (from [`load_project_context`]).
    pub project_context: Option<String>,
    /// Full base-prompt override from `SYSTEM.md` (replaces the built-in default).
    pub custom_prompt: Option<String>,
    /// Extra text appended verbatim from `APPEND_SYSTEM.md`.
    pub append_prompt: Option<String>,
    /// Capability fragments (skills / sub-agents / MCP) to fold into the prompt.
    pub capabilities: Option<String>,
    /// Emit the lean small-orchestrator prompt.
    pub cognitive_core: bool,
}

pub const FULL_PREAMBLE: &'static str = "You are Cordy, an expert autonomous coding agent operating in the user's terminal. You help by reading files, running commands, editing code, and writing new files — working directly in the project with the tools provided.

## How you work
- Understand before you act: read the relevant files and search the codebase before proposing or making changes.
- Edit precisely: use `edit` with an exact, unique `old` string; keep diffs minimal and focused; never reformat or touch unrelated code.
- Match the surroundings: follow the project's existing style, naming, and conventions.
- Verify your work: after changes, build/test/run what's relevant and report the actual result — if something fails, say so with the output.
- Prefer tools over recall: read the code, grep, run commands, and search the web for current facts instead of relying on memory.
- Work one concrete step at a time; don't guess when you can check.

## Style
- Be concise and factual. Lead with the answer or the action; skip preamble and filler.
- Show file paths clearly (e.g. `src/main.rs:42`) so they are easy to follow.
- When you change files, state what changed and where.
- Ask only when you are genuinely blocked on a decision that is the user's to make.

## Safety
- Destructive or irreversible actions (deleting files, force operations, mass edits) need care — confirm intent unless clearly authorized.
- Respect the permission system: some tools are gated and will prompt the user before running.";

pub const LEAN_PREAMBLE: &'static str = "You are Cordy, a compact coding agent that drives tools. You hold little built-in knowledge — rely on tools: read files, grep, run commands, and search the web instead of recalling. Take one concrete step at a time and keep output terse. Use `edit` with an exact, unique `old` string; read before you edit; verify every change.";

// ---- the layers -----------------------------------------------------------------------------

/// A text without white space around it, where anything is left.
pub open spec fn nonblank(v: Option<Seq<char>>) -> Option<Seq<char>> {
    match v {
        Some(t) => if text::trimmed(t).len() > 0 {
            Some(text::trimmed(t))
        } else {
            None
        },
        None => None,
    }
}

/// The base instructions: the override, else the built-in default.
pub open spec fn base_layer(custom: Option<Seq<char>>, cognitive_core: bool) -> Seq<char> {
    match nonblank(custom) {
        Some(t) => t,
        None => if cognitive_core {
            LEAN_PREAMBLE@
        } else {
            FULL_PREAMBLE@
        },
    }
}

/// The tools that are named.
pub open spec fn tools_layer(names: Seq<Seq<char>>) -> Seq<char> {
    if names.len() == 0 {
        seq![]
    } else {
        "\n\n## Tools\n"@ + text::joined(names, ", "@)
            + "\nOther tools may be available depending on the project (skills, MCP servers)."@
    }
}

/// Where the agent runs.
pub open spec fn environment_layer(cwd: Seq<char>, os: Seq<char>) -> Seq<char> {
    "\n\n## Environment\ncwd: "@ + cwd + "\nos: "@ + os + "\n"@
}

/// A text between two others; nothing where the text is blank.
pub open spec fn wrapped(before: Seq<char>, v: Option<Seq<char>>, after: Seq<char>) -> Seq<char> {
    match nonblank(v) {
        Some(t) => before + t + after,
        None => seq![],
    }
}

/// The whole prompt, layer by layer.
pub open spec fn prompt_of(ctx: PromptContext<'_>) -> Seq<char> {
    base_layer(text::opt_view(ctx.custom_prompt), ctx.cognitive_core) + tools_layer(
        text::views(ctx.tool_names@),
    ) + environment_layer(ctx.cwd@, ctx.os@) + wrapped(
        "\n<project_context>\n"@,
        text::opt_view(ctx.project_context),
        "\n</project_context>\n"@,
    ) + wrapped("\n"@, text::opt_view(ctx.capabilities), "\n"@) + wrapped(
        "\n\n"@,
        text::opt_view(ctx.append_prompt),
        "\n"@,
    )
}

fn nonblank_of<'a>(v: &'a Option<String>) -> (r: Option<&'a str>)
    ensures
        match r {
            Some(t) => nonblank(text::opt_view(*v)) == Some(t@),
            None => nonblank(text::opt_view(*v)) is None,
        },
{
    match v {
        Some(t) => {
            let inner = text::trim(t.as_str());
            if inner.unicode_len() > 0 {
                Some(inner)
            } else {
                None
            }
        },
        None => None,
    }
}

fn push_wrapped(s: &mut String, before: &str, v: &Option<String>, after: &str)
    ensures
        final(s)@ == old(s)@ + wrapped(before@, text::opt_view(*v), after@),
{
    let ghost was = s@;
    match nonblank_of(v) {
        Some(t) => {
            s.append(before);
            s.append(t);
            s.append(after);
            assert(s@ =~= was + (before@ + t@ + after@));
        },
        None => {
            assert(was + Seq::<char>::empty() =~= was);
        },
    }
}

/// Assemble the full system prompt string.
pub fn build_system_prompt(ctx: &PromptContext<'_>) -> (r: String)
    ensures
        r@ == prompt_of(*ctx),
{
    // 1. Base instructions: SYSTEM.md override, else the built-in default.
    let mut s = match nonblank_of(&ctx.custom_prompt) {
        Some(custom) => custom.to_string(),
        None => if ctx.cognitive_core {
            LEAN_PREAMBLE.to_string()
        } else {
            FULL_PREAMBLE.to_string()
        },
    };
    let ghost base = s@;

    // 2. Tools.
    if ctx.tool_names.len() > 0 {
        s.append("\n\n## Tools\n");
        s.append(text::join(ctx.tool_names, ", ").as_str());
        s.append("\nOther tools may be available depending on the project (skills, MCP servers).");
        assert(s@ =~= base + tools_layer(text::views(ctx.tool_names@)));
    } else {
        assert(s@ =~= base + tools_layer(text::views(ctx.tool_names@)));
    }
    let ghost with_tools = s@;

    // 3. Environment.
    s.append("\n\n## Environment\ncwd: ");
    s.append(ctx.cwd);
    s.append("\nos: ");
    s.append(ctx.os);
    s.append("\n");
    assert(s@ =~= with_tools + environment_layer(ctx.cwd@, ctx.os@));

    // 4. Project context (AGENTS.md, CORDY.md), tagged with paths.
    push_wrapped(&mut s, "\n<project_context>\n", &ctx.project_context, "\n</project_context>\n");

    // 5. Capabilities (skills / sub-agents / MCP fragments).
    push_wrapped(&mut s, "\n", &ctx.capabilities, "\n");

    // 6. Append (APPEND_SYSTEM.md), verbatim and last.
    push_wrapped(&mut s, "\n\n", &ctx.append_prompt, "\n");
    s
}

/// The appended text comes last in the prompt: nothing but a line end follows it.
pub proof fn the_appended_text_comes_last(ctx: PromptContext<'_>)
    requires
        nonblank(text::opt_view(ctx.append_prompt)) is Some,
    ensures
        text::ends(
            prompt_of(ctx),
            nonblank(text::opt_view(ctx.append_prompt))->0 + "\n"@,
        ),
{
    let last = nonblank(text::opt_view(ctx.append_prompt))->0;
    let tail = last + "\n"@;
    let whole = prompt_of(ctx);
    assert(wrapped("\n\n"@, text::opt_view(ctx.append_prompt), "\n"@) =~= "\n\n"@ + tail);
    assert(whole.subrange(whole.len() - tail.len(), whole.len() as int) =~= tail);
}

// ---- project context ------------------------------------------------------------------------

proof fn lemma_core_shorter(p: Seq<char>)
    ensures
        paths::core_of(p).len() <= p.len(),
    decreases p.len(),
{
    if p.len() > 0 && (p.last() == '/' || (p.len() >= 2 && p.last() == '.' && p[p.len() - 2]
        == '/')) {
        lemma_core_shorter(p.subrange(0, p.len() - 1));
    }
}

/// A path's parent is shorter than the path.
pub proof fn lemma_parent_shorter(p: Seq<char>)
    ensures
        paths::parent_of(p) matches Some(q) ==> q.len() < p.len(),
{
    let t = paths::core_of(p);
    lemma_core_shorter(p);
    let k = text::last_char(t, '/', t.len() as int);
    lemma_last_char(t, '/', t.len() as int);
    if t.len() > 0 && k >= 0 {
        lemma_core_shorter(t.subrange(0, k));
        lemma_core_end(p);
        reveal_strlit("/");
    }
}

proof fn lemma_last_char(s: Seq<char>, c: char, n: int)
    requires
        0 <= n <= s.len(),
    ensures
        -1 <= text::last_char(s, c, n) < n || (n == 0 && text::last_char(s, c, n) == -1),
        text::last_char(s, c, n) >= 0 ==> s[text::last_char(s, c, n)] == c,
    decreases n,
{
    if n > 0 && s[n - 1] != c {
        lemma_last_char(s, c, n - 1);
    }
}

/// What is left of a path without trailing slashes does not end in one.
proof fn lemma_core_end(p: Seq<char>)
    ensures
        paths::core_of(p).len() > 0 ==> paths::core_of(p).last() != '/',
    decreases p.len(),
{
    if p.len() > 0 && (p.last() == '/' || (p.len() >= 2 && p.last() == '.' && p[p.len() - 2]
        == '/')) {
        lemma_core_end(p.subrange(0, p.len() - 1));
    }
}

/// The directories from the outermost ancestor down to `dir` itself.
pub open spec fn chain_of(dir: Seq<char>) -> Seq<Seq<char>>
    decreases dir.len(),
{
    proof {
        lemma_parent_shorter(dir);
    }
    match paths::parent_of(dir) {
        Some(up) => chain_of(up).push(dir),
        None => seq![dir],
    }
}

/// The names under which context files are looked for in a directory.
pub open spec fn context_file_names() -> Seq<Seq<char>> {
    seq!["AGENTS.md"@, ".cordy/CORDY.md"@]
}

/// The names under which project context is looked for in each directory, the project's own last.
/// [`context_paths`] takes these or any others.
pub fn context_names() -> (r: Vec<String>)
    ensures
        text::views(r@) == context_file_names(),
{
    let names = vec!["AGENTS.md".to_string(), ".cordy/CORDY.md".to_string()];
    assert(text::views(names@) =~= context_file_names());
    names
}

/// Where context files of these names may stand in a directory.
pub open spec fn context_files(dir: Seq<char>, names: Seq<Seq<char>>) -> Seq<Seq<char>> {
    names.map_values(|name: Seq<char>| paths::joined_path(dir, name))
}

/// Where context files may stand in the first `n` directories.
pub open spec fn context_files_to(
    chain: Seq<Seq<char>>,
    names: Seq<Seq<char>>,
    n: int,
) -> Seq<Seq<char>>
    decreases n,
{
    if n <= 0 {
        seq![]
    } else {
        context_files_to(chain, names, n - 1) + context_files(chain[n - 1], names)
    }
}

/// Where context files of these names may stand, from the filesystem root down to `cwd`, so that the
/// most specific (nearest to `cwd`) guidance comes last.
pub fn context_paths(cwd: &str, names: &Vec<String>) -> (r: Vec<String>)
    ensures
        text::views(r@) == context_files_to(
            chain_of(cwd@),
            text::views(names@),
            chain_of(cwd@).len() as int,
        ),
{
    let chain = chain_to(cwd);
    let ghost all = text::views(chain@);
    let ghost called = text::views(names@);
    let mut out: Vec<String> = Vec::new();
    assert(text::views(out@) =~= seq![]);
    let mut i: usize = 0;
    while i < chain.len()
        invariant
            0 <= i <= chain@.len(),
            all == text::views(chain@),
            called == text::views(names@),
            text::views(out@) == context_files_to(all, called, i as int),
        decreases chain@.len() - i,
    {
        let dir = chain[i].as_str();
        let ghost before = text::views(out@);
        let ghost found = context_files(dir@, called);
        assert(all[i as int] == dir@);
        assert(before + found.take(0) =~= before);
        let mut k: usize = 0;
        while k < names.len()
            invariant
                0 <= k <= names@.len(),
                found == context_files(dir@, text::views(names@)),
                text::views(out@) == before + found.take(k as int),
            decreases names@.len() - k,
        {
            out.push(paths::join(dir, names[k].as_str()));
            assert(before + found.take(k + 1) =~= (before + found.take(k as int)).push(
                found[k as int],
            ));
            k += 1;
        }
        assert(found.take(k as int) =~= found);
        i += 1;
    }
    out
}

fn chain_to(dir: &str) -> (r: Vec<String>)
    ensures
        text::views(r@) == chain_of(dir@),
    decreases dir@.len(),
{
    proof {
        lemma_parent_shorter(dir@);
    }
    let mut out: Vec<String> = match paths::parent(dir) {
        Some(up) => chain_to(up.as_str()),
        None => {
            let none: Vec<String> = Vec::new();
            assert(text::views(none@) =~= seq![]);
            none
        },
    };
    out.push(dir.to_string());
    assert(text::views(out@) =~= chain_of(dir@));
    out
}

/// A path with what the file there holds, where there is one.
pub type Found = (Seq<char>, Option<Seq<char>>);

/// The values of paths and their files' texts.
pub open spec fn found_views(files: Seq<(String, Option<String>)>) -> Seq<Found> {
    Seq::new(files.len(), |i: int| (files[i].0@, text::opt_view(files[i].1)))
}

/// The tagged texts of the files among the first `n` that hold something.
pub open spec fn tagged_to(files: Seq<Found>, n: int) -> Seq<Seq<char>>
    decreases n,
{
    if n <= 0 {
        seq![]
    } else {
        match nonblank(files[n - 1].1) {
            Some(t) => tagged_to(files, n - 1).push(
                "<file path=\""@ + files[n - 1].0 + "\">\n"@ + t + "\n</file>"@,
            ),
            None => tagged_to(files, n - 1),
        }
    }
}

/// The inner body of a `<project_context>` block: each file that holds something, wrapped in a
/// `<file path="...">` tag, in the given order, so that the most specific (nearest to the working
/// directory) guidance appears last. None when nothing is found.
pub fn load_project_context(files: &Vec<(String, Option<String>)>) -> (r: Option<String>)
    ensures
        text::opt_view(r) == ({
            let parts = tagged_to(found_views(files@), files@.len() as int);
            if parts.len() == 0 {
                None
            } else {
                Some(text::joined(parts, "\n"@))
            }
        }),
{
    let ghost all = found_views(files@);
    let mut parts: Vec<String> = Vec::new();
    assert(text::views(parts@) =~= seq![]);
    let mut i: usize = 0;
    while i < files.len()
        invariant
            0 <= i <= files@.len(),
            all == found_views(files@),
            text::views(parts@) == tagged_to(all, i as int),
        decreases files@.len() - i,
    {
        assert(all[i as int] == (files@[i as int].0@, text::opt_view(files@[i as int].1)));
        if let Some(t) = nonblank_of(&files[i].1) {
            let mut part = "<file path=\"".to_string();
            part.append(files[i].0.as_str());
            part.append("\">\n");
            part.append(t);
            part.append("\n</file>");
            parts.push(part);
        }
        i += 1;
    }
    assert(text::views(parts@).len() == parts@.len());
    if parts.len() == 0 {
        None
    } else {
        Some(text::join(&parts, "\n"))
    }
}

// ---- overrides ------------------------------------------------------------------------------

/// A file of the project's own directory.
pub fn project_file(cwd: &str, name: &str) -> (r: String)
    ensures
        r@ == paths::joined_path(paths::joined_path(cwd@, ".cordy"@), name@),
{
    let dir = paths::join(cwd, ".cordy");
    paths::join(dir.as_str(), name)
}

/// The `SYSTEM.md` override: the project's wins, else the global one. `None` when neither holds
/// anything (the built-in default is then used).
pub fn load_system_override(project: Option<String>, global: Option<String>) -> (r: Option<String>)
    ensures
        text::opt_view(r) == (match nonblank(text::opt_view(project)) {
            Some(t) => Some(t),
            None => nonblank(text::opt_view(global)),
        }),
{
    match nonblank_of(&project) {
        Some(t) => Some(t.to_string()),
        None => match nonblank_of(&global) {
            Some(t) => Some(t.to_string()),
            None => None,
        },
    }
}

/// The texts of the two `APPEND_SYSTEM.md` files, the global one first.
pub open spec fn appended(global: Option<Seq<char>>, project: Option<Seq<char>>) -> Option<
    Seq<char>,
> {
    match (nonblank(global), nonblank(project)) {
        (Some(g), Some(p)) => Some(g + "\n\n"@ + p),
        (Some(g), None) => Some(g),
        (None, Some(p)) => Some(p),
        (None, None) => None,
    }
}

/// Concatenate `APPEND_SYSTEM.md` from the global dir then the project, so project guidance comes
/// last. `None` when neither holds anything.
pub fn load_system_append(project: Option<String>, global: Option<String>) -> (r: Option<String>)
    ensures
        text::opt_view(r) == appended(text::opt_view(global), text::opt_view(project)),
{
    match (nonblank_of(&global), nonblank_of(&project)) {
        (Some(g), Some(p)) => Some(text::concat3(g, "\n\n", p)),
        (Some(g), None) => Some(g.to_string()),
        (None, Some(p)) => Some(p.to_string()),
        (None, None) => None,
    }
}

// ---- what the prompt says -------------------------------------------------------------------

/// The prompt says everything that it is given, in this order: the instructions, the tools, the
/// directory and the system, the project's context, the capabilities, and last what is appended.
pub proof fn the_prompt_says_all_in_order(
    ctx: PromptContext<'_>,
    base: Seq<char>,
    context: Seq<char>,
    capabilities: Seq<char>,
    last: Seq<char>,
)
    requires
        nonblank(text::opt_view(ctx.custom_prompt)) == Some(base),
        ctx.tool_names@.len() > 0,
        nonblank(text::opt_view(ctx.project_context)) == Some(context),
        nonblank(text::opt_view(ctx.capabilities)) == Some(capabilities),
        nonblank(text::opt_view(ctx.append_prompt)) == Some(last),
    ensures
        exists|gaps: Seq<Seq<char>>|
            gaps.len() == 7 && prompt_of(ctx) == #[trigger] text_between(
                parts_said(ctx, base, context, capabilities, last),
                gaps,
            ),
{
    let parts = parts_said(ctx, base, context, capabilities, last);
    let gaps = seq![
        "\n\n## Tools\n"@,
        "\nOther tools may be available depending on the project (skills, MCP servers)."@
            + "\n\n## Environment\ncwd: "@,
        "\nos: "@,
        "\n"@ + "\n<project_context>\n"@,
        "\n</project_context>\n"@ + "\n"@,
        "\n"@ + "\n\n"@,
        "\n"@,
    ];
    reveal_with_fuel(text_between_to, 8);
    assert(text::views(ctx.tool_names@).len() > 0);
    assert(prompt_of(ctx) =~= text_between(parts, gaps));
}

/// What the prompt is given to say.
pub open spec fn parts_said(
    ctx: PromptContext<'_>,
    base: Seq<char>,
    context: Seq<char>,
    capabilities: Seq<char>,
    last: Seq<char>,
) -> Seq<Seq<char>> {
    seq![
        base,
        text::joined(text::views(ctx.tool_names@), ", "@),
        ctx.cwd@,
        ctx.os@,
        context,
        capabilities,
        last,
    ]
}

/// The parts one after the other, each with what stands behind it.
pub open spec fn text_between(parts: Seq<Seq<char>>, gaps: Seq<Seq<char>>) -> Seq<char> {
    text_between_to(parts, gaps, parts.len() as int)
}

/// The first `n` parts one after the other, each with what stands behind it.
pub open spec fn text_between_to(parts: Seq<Seq<char>>, gaps: Seq<Seq<char>>, n: int) -> Seq<char>
    decreases n,
{
    if n <= 0 {
        seq![]
    } else {
        text_between_to(parts, gaps, n - 1) + parts[n - 1] + gaps[n - 1]
    }
}

/// The directories that context is looked for in lead from the outermost down to the working directory,
/// each the parent of the next.
pub proof fn the_chain_leads_down_to_the_directory(dir: Seq<char>, i: int)
    ensures
        chain_of(dir).len() > 0,
        chain_of(dir).last() == dir,
        paths::parent_of(chain_of(dir)[0]) is None,
        0 <= i < chain_of(dir).len() - 1 ==> paths::parent_of(chain_of(dir)[i + 1]) == Some(
            chain_of(dir)[i],
        ),
    decreases dir.len(),
{
    lemma_parent_shorter(dir);
    if let Some(up) = paths::parent_of(dir) {
        the_chain_leads_down_to_the_directory(up, i);
        let above = chain_of(up);
        assert(chain_of(dir)[0] == above[0]);
        if 0 <= i < above.len() - 1 {
            assert(chain_of(dir)[i] == above[i] && chain_of(dir)[i + 1] == above[i + 1]);
        }
    }
}

/// Every file that holds something is in the project's context, in order, under its path.
pub proof fn every_context_file_is_told(files: Seq<Found>, n: int)
    requires
        0 <= n <= files.len(),
    ensures
        tagged_to(files, n) == files.take(n).filter(
            |f: Found| f.1 is Some && text::trimmed(f.1->0).len() > 0,
        ).map_values(
            |f: Found|
                "<file path=\""@ + f.0 + "\">\n"@ + text::trimmed(f.1->0) + "\n</file>"@,
        ),
    decreases n,
{
    reveal(Seq::filter);
    let keep = |f: Found| f.1 is Some && text::trimmed(f.1->0).len() > 0;
    let write = |f: Found|
        "<file path=\""@ + f.0 + "\">\n"@ + text::trimmed(f.1->0) + "\n</file>"@;
    let some = files.take(n);
    if n <= 0 {
        assert(some.filter(keep) =~= Seq::empty());
        assert(some.filter(keep).map_values(write) =~= Seq::empty());
    } else {
        every_context_file_is_told(files, n - 1);
        assert(some.drop_last() =~= files.take(n - 1));
        assert(some.last() == files[n - 1]);
        if keep(files[n - 1]) {
            assert(some.filter(keep).map_values(write) =~= files.take(n - 1).filter(
                keep,
            ).map_values(write).push(write(files[n - 1])));
        }
    }
}

/// What is appended is the user's text, then the project's; where one is blank it is the other.
pub proof fn the_projects_words_come_last(global: Seq<char>, project: Seq<char>)
    requires
        text::trimmed(global).len() > 0,
        text::trimmed(project).len() > 0,
    ensures
        appended(Some(global), None) == Some(text::trimmed(global)),
        appended(None, Some(project)) == Some(text::trimmed(project)),
        appended(Some(global), Some(project)) is Some,
        text::trimmed(global).is_prefix_of(appended(Some(global), Some(project))->0),
        text::trimmed(project).is_suffix_of(appended(Some(global), Some(project))->0),
{
    let g = text::trimmed(global);
    let p = text::trimmed(project);
    let all = appended(Some(global), Some(project))->0;
    assert(g =~= all.subrange(0, g.len() as int));
    assert(p =~= all.subrange(all.len() - p.len(), all.len() as int));
}

/// The prompt begins with the words that were given for it, or with the preamble that fits the model.
pub proof fn the_given_words_come_first(own: Seq<char>, lead: Seq<char>, trail: Seq<char>)
    requires
        own.len() > 0,
        !text::is_ws(own[0]) && !text::is_ws(own.last()),
        text_laws::blank(lead) && text_laws::blank(trail),
    ensures
        base_layer(Some(lead + own + trail), true) == own,
        base_layer(Some(lead + own + trail), false) == own,
        base_layer(None, true) == LEAN_PREAMBLE@,
        base_layer(None, false) == FULL_PREAMBLE@,
{
    text_laws::trimming_finds_the_text(lead, own, trail);
}

/// The prompt tells where the agent works and names each of its tools, in order.
pub proof fn the_surroundings_are_told(
    cwd: Seq<char>,
    os: Seq<char>,
    names: Seq<Seq<char>>,
    more: Seq<char>,
)
    ensures
        environment_layer(cwd, os) == "\n\n## Environment\ncwd: "@ + cwd + "\nos: "@ + os + "\n"@,
        tools_layer(seq![]) == Seq::<char>::empty(),
        tools_layer(names.push(more)) == "\n\n## Tools\n"@ + (if names.len() == 0 {
            more
        } else {
            text::joined(names, ", "@) + ", "@ + more
        }) + "\nOther tools may be available depending on the project (skills, MCP servers)."@,
{
    assert(names.push(more).drop_last() =~= names);
    assert(names.len() == 0 ==> text::joined(names.push(more), ", "@) == more);
}

} // verus!
