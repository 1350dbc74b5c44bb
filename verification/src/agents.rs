//! Sub-agent types and their registry.
//!
//! Agent definitions live in `.cordy/agents/*.md` as markdown with a frontmatter (`name`,
//! `description`, `tools`, `model`); the body is the sub-agent's system prompt.

use crate::engine::capability::CapabilitySource;
use crate::engine::types::{ToolSpec, ToolView};
use crate::frontmatter;
use crate::pairs;
use crate::paths;
use crate::text;
use vstd::prelude::*;
use vstd::string::*;

verus! {

broadcast use crate::text::views_push;

/// A sub-agent type.
#[derive(Debug, Clone, PartialEq)]
pub struct AgentDef {
    pub name: String,
    pub description: String,
    /// Restrict the sub-agent to these tool names; `None` means all base tools.
    pub tools: Option<Vec<String>>,
    /// Override model; `None` inherits the parent's.
    pub model: Option<String>,
    /// System prompt (the markdown body).
    pub system_prompt: String,
}

/// The mathematical value of an [`AgentDef`].
pub struct AgentView {
    pub name: Seq<char>,
    pub description: Seq<char>,
    pub tools: Option<Seq<Seq<char>>>,
    pub model: Option<Seq<char>>,
    pub system_prompt: Seq<char>,
}

/// The values of an optional list of texts.
pub open spec fn list_view(v: Option<Vec<String>>) -> Option<Seq<Seq<char>>> {
    match v {
        Some(l) => Some(text::views(l@)),
        None => None,
    }
}

impl View for AgentDef {
    type V = AgentView;

    open spec fn view(&self) -> AgentView {
        AgentView {
            name: self.name@,
            description: self.description@,
            tools: list_view(self.tools),
            model: text::opt_view(self.model),
            system_prompt: self.system_prompt@,
        }
    }
}

/// A text, or the given one where there is none.
pub open spec fn text_or(v: Option<Seq<char>>, default: Seq<char>) -> Seq<char> {
    match v {
        Some(t) => t,
        None => default,
    }
}

/// The first `n` pieces without white space around them, those that are then empty left out.
pub open spec fn names_to(pieces: Seq<Seq<char>>, n: int) -> Seq<Seq<char>>
    decreases n,
{
    if n <= 0 {
        seq![]
    } else {
        let name = text::trimmed(pieces[n - 1]);
        if name.len() > 0 {
            names_to(pieces, n - 1).push(name)
        } else {
            names_to(pieces, n - 1)
        }
    }
}

/// The names in a comma-separated list.
pub open spec fn names_in(list: Seq<char>) -> Seq<Seq<char>> {
    let pieces = text::split(list, ',');
    names_to(pieces, pieces.len() as int)
}

/// The agent that a markdown file defines.
pub open spec fn agent_in(content: Seq<char>, fallback_name: Seq<char>) -> AgentView {
    AgentView {
        name: text_or(frontmatter::field(content, "name"@), fallback_name),
        description: text_or(frontmatter::field(content, "description"@), seq![]),
        tools: match frontmatter::field(content, "tools"@) {
            Some(list) => Some(names_in(list)),
            None => None,
        },
        model: frontmatter::field(content, "model"@),
        system_prompt: frontmatter::body_of(content),
    }
}

fn names_of(list: &str) -> (r: Vec<String>)
    ensures
        text::views(r@) == names_in(list@),
{
    let pieces = text::split_char(list, ',');
    let ghost all = text::views(pieces@);
    let mut out: Vec<String> = Vec::new();
    assert(text::views(out@) =~= seq![]);
    let mut i: usize = 0;
    while i < pieces.len()
        invariant
            0 <= i <= pieces@.len(),
            all == text::views(pieces@),
            text::views(out@) == names_to(all, i as int),
        decreases pieces@.len() - i,
    {
        assert(all[i as int] == pieces@[i as int]@);
        let name = text::trim(pieces[i]);
        if name.unicode_len() > 0 {
            out.push(name.to_string());
        }
        i += 1;
    }
    out
}

/// Parse one agent markdown file (frontmatter + body). `fallback_name` is used when the frontmatter
/// omits `name` (typically the file stem).
pub fn parse_agent_md(content: &str, fallback_name: &str) -> (r: AgentDef)
    ensures
        r@ == agent_in(content@, fallback_name@),
{
    let (fields, system_prompt) = frontmatter::split_file(content);
    assert(pairs::pair_views(fields@).len() == fields@.len());
    let name = match pairs::last_of(&fields, "name") {
        Some(n) => n,
        None => fallback_name.to_string(),
    };
    let description = match pairs::last_of(&fields, "description") {
        Some(d) => d,
        None => {
            let none = String::new();
            assert(none@ =~= seq![]);
            none
        },
    };
    let tools = match pairs::last_of(&fields, "tools") {
        Some(list) => Some(names_of(list.as_str())),
        None => None,
    };
    let model = pairs::last_of(&fields, "model");
    AgentDef { name, description, tools, model, system_prompt }
}

/// The agents that the markdown files among the first `n` define, each under its file's name.
pub open spec fn agents_to(files: Seq<pairs::Pair>, n: int) -> Seq<AgentView>
    decreases n,
{
    if n <= 0 {
        seq![]
    } else {
        match paths::stem_of(files[n - 1].0, "md"@) {
            Some(stem) => agents_to(files, n - 1).push(agent_in(files[n - 1].1, stem)),
            None => agents_to(files, n - 1),
        }
    }
}

/// The agents of a directory, given its files' names and texts: every `*.md` is one.
pub fn load_agents(files: &Vec<(String, String)>) -> (r: Vec<AgentDef>)
    ensures
        text::views(r@) == agents_to(pairs::pair_views(files@), files@.len() as int),
{
    let ghost all = pairs::pair_views(files@);
    let mut out: Vec<AgentDef> = Vec::new();
    assert(text::views(out@) =~= seq![]);
    let mut i: usize = 0;
    while i < files.len()
        invariant
            0 <= i <= files@.len(),
            all == pairs::pair_views(files@),
            text::views(out@) == agents_to(all, i as int),
        decreases files@.len() - i,
    {
        assert(all[i as int] == (files@[i as int].0@, files@[i as int].1@));
        if let Some(stem) = paths::stem(files[i].0.as_str(), "md") {
            out.push(parse_agent_md(files[i].1.as_str(), stem));
        }
        i += 1;
    }
    out
}

/// The lines that describe the first `n` agents.
pub open spec fn agent_lines(defs: Seq<AgentView>, n: int) -> Seq<char>
    decreases n,
{
    if n <= 0 {
        seq![]
    } else {
        agent_lines(defs, n - 1) + ("- "@ + defs[n - 1].name + ": "@ + defs[n - 1].description
            + "\n"@)
    }
}

/// What the agent types add to the prompt: a list of them, where there are any.
pub open spec fn agents_fragment(defs: Seq<AgentView>) -> Option<Seq<char>> {
    if defs.len() == 0 {
        None
    } else {
        Some(
            "## Sub-agents (spawn via the `task` tool)\n"@ + agent_lines(defs, defs.len() as int),
        )
    }
}

/// Capability source exposing the `task` tool plus a prompt fragment listing agent types.
pub struct AgentRegistry {
    pub defs: Vec<AgentDef>,
    /// What the `task` tool is advertised as.
    pub task_tool: ToolSpec,
}

impl AgentRegistry {
    pub fn new(defs: Vec<AgentDef>, task_tool: ToolSpec) -> (r: AgentRegistry)
        ensures
            r.defs == defs,
            r.task_tool == task_tool,
    {
        AgentRegistry { defs, task_tool }
    }
}

impl CapabilitySource for AgentRegistry {
    open spec fn offered(&self) -> Seq<ToolView> {
        Seq::empty().push(self.task_tool@)
    }

    open spec fn fragment(&self) -> Option<Seq<char>> {
        agents_fragment(text::views(self.defs@))
    }

    fn tools(&self) -> (r: Vec<ToolSpec>) {
        let mut r: Vec<ToolSpec> = Vec::new();
        assert(text::views(r@) =~= Seq::empty());
        r.push(self.task_tool.copy());
        r
    }

    fn prompt_fragment(&self) -> (r: Option<String>) {
        if self.defs.len() == 0 {
            return None;
        }
        let ghost all = text::views(self.defs@);
        let ghost head = "## Sub-agents (spawn via the `task` tool)\n"@;
        let mut s = "## Sub-agents (spawn via the `task` tool)\n".to_string();
        assert(head + agent_lines(all, 0) =~= head);
        let mut i: usize = 0;
        while i < self.defs.len()
            invariant
                0 <= i <= self.defs@.len(),
                all == text::views(self.defs@),
                s@ == head + agent_lines(all, i as int),
            decreases self.defs@.len() - i,
        {
            assert(all[i as int] == self.defs@[i as int]@);
            s.append("- ");
            s.append(self.defs[i].name.as_str());
            s.append(": ");
            s.append(self.defs[i].description.as_str());
            s.append("\n");
            i += 1;
            assert(s@ =~= head + agent_lines(all, i as int));
        }
        Some(s)
    }
}

// ---- what holds of them ---------------------------------------------------------------------

proof fn lemma_names(pieces: Seq<Seq<char>>, names: Seq<Seq<char>>, n: int)
    requires
        0 <= n <= names.len(),
        pieces.len() == names.len(),
        forall|i: int|
            0 <= i < names.len() ==> text::trimmed(#[trigger] pieces[i]) == names[i]
                && names[i].len() > 0,
    ensures
        names_to(pieces, n) == names.take(n),
    decreases n,
{
    if n > 0 {
        lemma_names(pieces, names, n - 1);
        assert(text::trimmed(pieces[n - 1]) == names[n - 1]);
        assert(names.take(n) =~= names.take(n - 1).push(names[n - 1]));
    } else {
        assert(names.take(0) =~= seq![]);
    }
}

/// A list of names written with commas between them reads back, name by name, whatever space stands
/// around them.
pub proof fn a_written_list_reads_back(pieces: Seq<Seq<char>>, names: Seq<Seq<char>>)
    requires
        pieces.len() > 0,
        pieces.len() == names.len(),
        forall|i: int|
            0 <= i < names.len() ==> text::trimmed(#[trigger] pieces[i]) == names[i]
                && names[i].len() > 0,
        forall|i: int, k: int|
            0 <= i < pieces.len() && 0 <= k < pieces[i].len() ==> #[trigger] pieces[i][k] != ',',
    ensures
        names_in(text::joined(pieces, seq![','])) == names,
{
    text::joined_parts_split_again(pieces, ',');
    lemma_names(pieces, names, names.len() as int);
    assert(names.take(names.len() as int) =~= names);
}

/// The file of an agent defines it: the fields in front give its name, what it is for, the tools that
/// it may use and its model, and the body is its prompt. Without a name the file's own is taken;
/// without a list of tools it may use all, and without a model it takes its parent's.
pub proof fn an_agent_file_defines_the_agent(
    fields: Seq<pairs::Pair>,
    body: Seq<char>,
    stem: Seq<char>,
)
    requires
        frontmatter::writable(fields),
    ensures
        ({
            let agent = agent_in(frontmatter::written(fields, body), stem);
            let n = fields.len() as int;
            &&& agent.system_prompt == text::trimmed(body)
            &&& agent.name == text_or(pairs::last_value(fields, "name"@, n), stem)
            &&& agent.description == text_or(pairs::last_value(fields, "description"@, n), seq![])
            &&& agent.model == pairs::last_value(fields, "model"@, n)
            &&& pairs::last_value(fields, "tools"@, n) is None ==> agent.tools is None
            &&& pairs::last_value(fields, "tools"@, n) matches Some(list) ==> agent.tools == Some(
                names_in(list),
            )
        }),
{
    frontmatter::a_written_front_reads_back(fields, body);
}

/// Every markdown file of the directory defines an agent, in the order of the files; no other does.
pub proof fn every_markdown_file_is_an_agent(files: Seq<pairs::Pair>, n: int)
    requires
        0 <= n <= files.len(),
    ensures
        agents_to(files, n) == files.take(n).filter(
            |f: pairs::Pair| text::ends(f.0, seq!['.', 'm', 'd']) && f.0.len() > 3,
        ).map_values(|f: pairs::Pair| agent_in(f.1, f.0.subrange(0, f.0.len() - 3))),
    decreases n,
{
    reveal(Seq::filter);
    reveal_strlit(".");
    reveal_strlit("md");
    assert("."@ + "md"@ =~= seq!['.', 'm', 'd']);
    let keep = |f: pairs::Pair| text::ends(f.0, seq!['.', 'm', 'd']) && f.0.len() > 3;
    let read = |f: pairs::Pair| agent_in(f.1, f.0.subrange(0, f.0.len() - 3));
    let some = files.take(n);
    if n <= 0 {
        assert(some.filter(keep) =~= Seq::empty());
        assert(some.filter(keep).map_values(read) =~= Seq::empty());
    } else {
        every_markdown_file_is_an_agent(files, n - 1);
        assert(some.drop_last() =~= files.take(n - 1));
        assert(some.last() == files[n - 1]);
        if keep(files[n - 1]) {
            assert(some.filter(keep).map_values(read) =~= files.take(n - 1).filter(keep).map_values(
                read,
            ).push(read(files[n - 1])));
        }
    }
}

/// Each agent is described on a line of its own, in order, by its name and what it is for.
pub proof fn every_agent_is_listed(defs: Seq<AgentView>, n: int)
    requires
        0 <= n <= defs.len(),
    ensures
        agent_lines(defs, n) == defs.take(n).map_values(
            |d: AgentView| seq!['-', ' '] + d.name + seq![':', ' '] + d.description + seq!['\n'],
        ).flatten(),
    decreases n,
{
    let write = |d: AgentView|
        seq!['-', ' '] + d.name + seq![':', ' '] + d.description + seq!['\n'];
    reveal_strlit("- ");
    reveal_strlit(": ");
    reveal_strlit("\n");
    let some = defs.take(n).map_values(write);
    if n <= 0 {
        assert(some =~= Seq::empty());
    } else {
        every_agent_is_listed(defs, n - 1);
        let fewer = defs.take(n - 1).map_values(write);
        let last = write(defs[n - 1]);
        assert(some =~= fewer.push(last));
        fewer.lemma_flatten_push(last);
        assert("- "@ + defs[n - 1].name + ": "@ + defs[n - 1].description + "\n"@ =~= last);
    }
}

} // verus!
