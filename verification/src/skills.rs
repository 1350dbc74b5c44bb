//! Skills — reusable instruction packets with progressive disclosure.
//!
//! A skill lives at `.cordy/skills/<name>/SKILL.md` (or `.cordy/skills/<name>.md`) as markdown with
//! frontmatter (`name`, `description`, `when-to-use`). Only the name and the description are put in
//! the system prompt (cheap); the full body is loaded on demand by the `skill` tool.

use crate::agents;
use crate::engine::capability::CapabilitySource;
use crate::engine::types;
use crate::engine::types::{OutputView, ToolOutput, ToolSpec, ToolView};
use crate::frontmatter;
use crate::json;
use crate::json::{Json, JsonSpec};
use crate::pairs;
use crate::paths;
use crate::text;
use crate::tools;
use crate::tools::Risk;
use vstd::prelude::*;
use vstd::string::*;

verus! {

broadcast use crate::text::views_push;

/// A loaded skill.
#[derive(Debug, Clone, PartialEq)]
pub struct SkillDef {
    pub name: String,
    pub description: String,
    pub when_to_use: Option<String>,
    /// Full instruction body, disclosed on demand.
    pub body: String,
}

/// The mathematical value of a [`SkillDef`].
pub struct SkillView {
    pub name: Seq<char>,
    pub description: Seq<char>,
    pub when_to_use: Option<Seq<char>>,
    pub body: Seq<char>,
}

impl View for SkillDef {
    type V = SkillView;

    open spec fn view(&self) -> SkillView {
        SkillView {
            name: self.name@,
            description: self.description@,
            when_to_use: text::opt_view(self.when_to_use),
            body: self.body@,
        }
    }
}

/// When the first `n` fields say to use the skill. Both spellings of the key count.
pub open spec fn when_in(fields: Seq<pairs::Pair>, n: int) -> Option<Seq<char>>
    decreases n,
{
    if n <= 0 {
        None
    } else if fields[n - 1].0 == "when-to-use"@ || fields[n - 1].0 == "when_to_use"@ {
        Some(fields[n - 1].1)
    } else {
        when_in(fields, n - 1)
    }
}

/// The skill that a markdown file defines.
pub open spec fn skill_in(content: Seq<char>, fallback_name: Seq<char>) -> SkillView {
    let fields = frontmatter::fields_of(content);
    SkillView {
        name: agents::text_or(frontmatter::field(content, "name"@), fallback_name),
        description: agents::text_or(frontmatter::field(content, "description"@), seq![]),
        when_to_use: when_in(fields, fields.len() as int),
        body: frontmatter::body_of(content),
    }
}

fn when_of(fields: &Vec<(String, String)>) -> (r: Option<String>)
    ensures
        text::opt_view(r) == when_in(pairs::pair_views(fields@), fields@.len() as int),
{
    let ghost all = pairs::pair_views(fields@);
    let mut n: usize = fields.len();
    while n > 0
        invariant
            0 <= n <= fields@.len(),
            all == pairs::pair_views(fields@),
            when_in(all, all.len() as int) == when_in(all, n as int),
        decreases n,
    {
        n -= 1;
        assert(all[n as int] == (fields@[n as int].0@, fields@[n as int].1@));
        let key = fields[n].0.as_str();
        if text::same(key, "when-to-use") || text::same(key, "when_to_use") {
            return Some(fields[n].1.clone());
        }
    }
    None
}

/// Parse a `SKILL.md` (frontmatter + body).
pub fn parse_skill_md(content: &str, fallback_name: &str) -> (r: SkillDef)
    ensures
        r@ == skill_in(content@, fallback_name@),
{
    let (fields, body) = frontmatter::split_file(content);
    assert(pairs::pair_views(fields@).len() == fields@.len());
    let name = match pairs::last_of(&fields, "name") {
        Some(n) => n,
        None => fallback_name.to_string(),
    };
    let description = match pairs::last_of(&fields, "description") {
        Some(d) => d,
        None => {
            let none = String::new();
            assert(none@ =~= seq![]);
            none
        },
    };
    let when_to_use = when_of(&fields);
    SkillDef { name, description, when_to_use, body }
}

/// An entry of the skills directory: a file, or a directory that holds a `SKILL.md`.
pub struct SkillEntry {
    pub name: String,
    pub is_dir: bool,
    /// What the file, or the `SKILL.md` in the directory, holds; none where it cannot be read.
    pub text: Option<String>,
}

/// The mathematical value of a [`SkillEntry`].
pub struct EntryView {
    pub name: Seq<char>,
    pub is_dir: bool,
    pub text: Option<Seq<char>>,
}

impl View for SkillEntry {
    type V = EntryView;

    open spec fn view(&self) -> EntryView {
        EntryView { name: self.name@, is_dir: self.is_dir, text: text::opt_view(self.text) }
    }
}

/// The name that an entry's skill has where it gives none itself. Files other than markdown hold no
/// skill.
pub open spec fn entry_name(e: EntryView) -> Option<Seq<char>> {
    if e.is_dir {
        Some(e.name)
    } else {
        paths::stem_of(e.name, "md"@)
    }
}

/// The skills of the first `n` entries.
pub open spec fn skills_to(entries: Seq<EntryView>, n: int) -> Seq<SkillView>
    decreases n,
{
    if n <= 0 {
        seq![]
    } else {
        match (entry_name(entries[n - 1]), entries[n - 1].text) {
            (Some(name), Some(content)) => skills_to(entries, n - 1).push(skill_in(content, name)),
            _ => skills_to(entries, n - 1),
        }
    }
}

/// The skills of a directory, supporting both `<name>/SKILL.md` and `<name>.md` layouts.
pub fn load_skills(entries: &Vec<SkillEntry>) -> (r: Vec<SkillDef>)
    ensures
        text::views(r@) == skills_to(text::views(entries@), entries@.len() as int),
{
    let ghost all = text::views(entries@);
    let mut out: Vec<SkillDef> = Vec::new();
    assert(text::views(out@) =~= seq![]);
    let mut i: usize = 0;
    while i < entries.len()
        invariant
            0 <= i <= entries@.len(),
            all == text::views(entries@),
            text::views(out@) == skills_to(all, i as int),
        decreases entries@.len() - i,
    {
        let e = &entries[i];
        assert(all[i as int] == e@);
        let name = if e.is_dir {
            Some(e.name.as_str())
        } else {
            paths::stem(e.name.as_str(), "md")
        };
        if let Some(name) = name {
            if let Some(content) = &e.text {
                out.push(parse_skill_md(content.as_str(), name));
            }
        }
        i += 1;
    }
    out
}

/// The `skill` tool: load a skill's full body by name.
pub struct SkillTool {
    pub skills: Vec<SkillDef>,
}

/// The names of the first `n` skills.
pub open spec fn names_of(skills: Seq<SkillView>) -> Seq<Seq<char>> {
    skills.map_values(|s: SkillView| s.name)
}

/// The position at or after `i` of the skill called `name`, or the number of skills.
pub open spec fn position(skills: Seq<SkillView>, name: Seq<char>, i: int) -> int
    decreases skills.len() - i,
{
    if i < 0 || i >= skills.len() {
        skills.len() as int
    } else if skills[i].name == name {
        i
    } else {
        position(skills, name, i + 1)
    }
}

/// What the tool answers: the body of the skill that the input names.
pub open spec fn answer(skills: Seq<SkillView>, input: JsonSpec) -> OutputView {
    match json::string_field(input, "name"@) {
        None => types::output_error("skill: missing `name`"@),
        Some(name) => {
            let at = position(skills, name, 0);
            if at < skills.len() {
                types::output_ok(skills[at].body)
            } else {
                types::output_error("skill: unknown skill `"@ + name + "`"@)
            }
        },
    }
}

/// What the tool is advertised as.
pub open spec fn tool_spec(skills: Seq<SkillView>) -> ToolView {
    ToolView {
        name: "skill"@,
        description: "Load the full instructions for a named skill before doing a task it covers."@,
        input_schema: tools::object_spec(
            json::pairs1("name"@, tools::choice_spec(names_of(skills))),
            Seq::empty().push("name"@),
        ),
    }
}

impl SkillTool {
    pub fn spec(&self) -> (r: ToolSpec)
        ensures
            r@ == tool_spec(text::views(self.skills@)),
    {
        let ghost all = text::views(self.skills@);
        let mut names: Vec<String> = Vec::new();
        let mut i: usize = 0;
        while i < self.skills.len()
            invariant
                0 <= i <= self.skills@.len(),
                names@.len() == i,
                forall|k: int| 0 <= k < i ==> (#[trigger] names@[k])@ == self.skills@[k].name@,
            decreases self.skills@.len() - i,
        {
            names.push(self.skills[i].name.clone());
            i += 1;
        }
        assert(text::views(names@) =~= names_of(all));
        let mut properties = json::members();
        json::put(&mut properties, "name", tools::choice(&names));
        let mut required: Vec<&str> = Vec::new();
        required.push("name");
        assert(text::views(required@) =~= Seq::empty().push("name"@));
        tools::advertise(
            "skill",
            "Load the full instructions for a named skill before doing a task it covers.",
            tools::object_schema(properties, &required),
        )
    }

    pub fn risk(&self) -> (r: Risk)
        ensures
            r == Risk::ReadOnly,
    {
        Risk::ReadOnly
    }

    pub fn run(&self, input: &Json) -> (r: ToolOutput)
        ensures
            r@ == answer(text::views(self.skills@), input.model()),
    {
        let name = match input.str_field("name") {
            Some(n) => n,
            None => return ToolOutput::error("skill: missing `name`"),
        };
        let ghost all = text::views(self.skills@);
        let mut i: usize = 0;
        while i < self.skills.len()
            invariant
                0 <= i <= self.skills@.len(),
                all == text::views(self.skills@),
                position(all, name@, 0) == position(all, name@, i as int),
                json::string_field(input.model(), "name"@) == Some(name@),
            decreases self.skills@.len() - i,
        {
            assert(all[i as int] == self.skills@[i as int]@);
            if text::same(self.skills[i].name.as_str(), name) {
                return ToolOutput::ok(self.skills[i].body.as_str());
            }
            i += 1;
        }
        let msg = text::concat3("skill: unknown skill `", name, "`");
        ToolOutput::error(msg.as_str())
    }
}

/// Capability source: the `skill` tool plus a prompt fragment listing available skills.
pub struct SkillSet {
    skills: Vec<SkillDef>,
}

impl View for SkillSet {
    type V = Seq<SkillView>;

    closed spec fn view(&self) -> Seq<SkillView> {
        text::views(self.skills@)
    }
}

/// The line that describes a skill.
pub open spec fn skill_line(s: SkillView) -> Seq<char> {
    "- "@ + s.name + ": "@ + s.description + (match s.when_to_use {
        Some(w) => " — when: "@ + w,
        None => seq![],
    }) + "\n"@
}

/// The lines that describe the first `n` skills.
pub open spec fn skill_lines(skills: Seq<SkillView>, n: int) -> Seq<char>
    decreases n,
{
    if n <= 0 {
        seq![]
    } else {
        skill_lines(skills, n - 1) + skill_line(skills[n - 1])
    }
}

impl SkillDef {
    /// The skill again.
    pub fn copy(&self) -> (r: SkillDef)
        ensures
            r@ == self@,
    {
        SkillDef {
            name: self.name.clone(),
            description: self.description.clone(),
            when_to_use: match &self.when_to_use {
                Some(w) => Some(w.clone()),
                None => None,
            },
            body: self.body.clone(),
        }
    }
}

impl SkillSet {
    pub fn new(skills: Vec<SkillDef>) -> (r: SkillSet)
        ensures
            r@ == text::views(skills@),
    {
        SkillSet { skills }
    }

    /// The `skill` tool, where there is any skill.
    pub fn tool(&self) -> (r: Option<SkillTool>)
        ensures
            match r {
                Some(t) => self@.len() > 0 && text::views(t.skills@) == self@,
                None => self@.len() == 0,
            },
    {
        if self.skills.len() == 0 {
            return None;
        }
        let mut skills: Vec<SkillDef> = Vec::new();
        let mut i: usize = 0;
        while i < self.skills.len()
            invariant
                0 <= i <= self.skills@.len(),
                skills@.len() == i,
                forall|k: int| 0 <= k < i ==> (#[trigger] skills@[k])@ == self.skills@[k]@,
            decreases self.skills@.len() - i,
        {
            skills.push(self.skills[i].copy());
            i += 1;
        }
        assert(text::views(skills@) =~= self@);
        Some(SkillTool { skills })
    }
}

/// What the skills add to the prompt: a list of them, where there are any.
pub open spec fn skills_fragment(skills: Seq<SkillView>) -> Option<Seq<char>> {
    if skills.len() == 0 {
        None
    } else {
        Some(
            "## Skills (load full instructions via the `skill` tool)\n"@ + skill_lines(
                skills,
                skills.len() as int,
            ),
        )
    }
}

impl CapabilitySource for SkillSet {
    open spec fn offered(&self) -> Seq<ToolView> {
        if self@.len() == 0 {
            Seq::empty()
        } else {
            Seq::empty().push(tool_spec(self@))
        }
    }

    open spec fn fragment(&self) -> Option<Seq<char>> {
        skills_fragment(self@)
    }

    fn tools(&self) -> (r: Vec<ToolSpec>) {
        let mut r: Vec<ToolSpec> = Vec::new();
        assert(text::views(r@) =~= Seq::empty());
        if let Some(tool) = self.tool() {
            r.push(tool.spec());
        }
        r
    }

    fn prompt_fragment(&self) -> (r: Option<String>) {
        if self.skills.len() == 0 {
            return None;
        }
        let ghost all = self@;
        let ghost head = "## Skills (load full instructions via the `skill` tool)\n"@;
        let mut s = "## Skills (load full instructions via the `skill` tool)\n".to_string();
        assert(head + skill_lines(all, 0) =~= head);
        let mut i: usize = 0;
        while i < self.skills.len()
            invariant
                0 <= i <= self.skills@.len(),
                all == text::views(self.skills@),
                s@ == head + skill_lines(all, i as int),
            decreases self.skills@.len() - i,
        {
            let sk = &self.skills[i];
            assert(all[i as int] == sk@);
            s.append("- ");
            s.append(sk.name.as_str());
            s.append(": ");
            s.append(sk.description.as_str());
            let ghost so_far = s@;
            if let Some(w) = &sk.when_to_use {
                s.append(" — when: ");
                s.append(w.as_str());
                assert(s@ =~= so_far + (" — when: "@ + w@));
            } else {
                assert(s@ =~= so_far + Seq::<char>::empty());
            }
            s.append("\n");
            i += 1;
            assert(s@ =~= head + skill_lines(all, i as int));
        }
        Some(s)
    }
}

// ---- what holds of them ---------------------------------------------------------------------

proof fn lemma_position(skills: Seq<SkillView>, name: Seq<char>, at: int, i: int)
    requires
        0 <= i <= at <= skills.len(),
        at < skills.len() ==> skills[at].name == name,
        forall|k: int| 0 <= k < at ==> (#[trigger] skills[k]).name != name,
    ensures
        position(skills, name, i) == at,
    decreases at - i,
{
    if i < at {
        assert(skills[i].name != name);
        lemma_position(skills, name, at, i + 1);
    }
}

/// Asking for a skill gives its instructions in full: those of the first skill with that name.
pub proof fn a_named_skill_is_loaded(
    skills: Seq<SkillView>,
    input: JsonSpec,
    name: Seq<char>,
    at: int,
)
    requires
        json::string_field(input, "name"@) == Some(name),
        0 <= at < skills.len(),
        skills[at].name == name,
        forall|k: int| 0 <= k < at ==> (#[trigger] skills[k]).name != name,
    ensures
        answer(skills, input).text == skills[at].body,
        !answer(skills, input).is_error,
{
    lemma_position(skills, name, at, 0);
}

/// A name that no skill has is an error.
pub proof fn an_unknown_skill_is_an_error(skills: Seq<SkillView>, input: JsonSpec, name: Seq<char>)
    requires
        json::string_field(input, "name"@) == Some(name),
        forall|k: int| 0 <= k < skills.len() ==> (#[trigger] skills[k]).name != name,
    ensures
        answer(skills, input).is_error,
{
    lemma_position(skills, name, skills.len() as int, 0);
}

/// The file of a skill defines it: the fields in front give its name and what it is for, and the body
/// is its instructions. Without a name the file's own is taken.
pub proof fn a_skill_file_defines_the_skill(
    fields: Seq<pairs::Pair>,
    body: Seq<char>,
    stem: Seq<char>,
)
    requires
        frontmatter::writable(fields),
    ensures
        ({
            let skill = skill_in(frontmatter::written(fields, body), stem);
            let n = fields.len() as int;
            &&& skill.body == text::trimmed(body)
            &&& skill.name == agents::text_or(pairs::last_value(fields, "name"@, n), stem)
            &&& skill.description == agents::text_or(
                pairs::last_value(fields, "description"@, n),
                seq![],
            )
        }),
{
    frontmatter::a_written_front_reads_back(fields, body);
}

/// When to use a skill is what the last field of that name says, in either spelling.
pub proof fn the_last_word_on_when_counts(fields: Seq<pairs::Pair>, at: int, n: int)
    requires
        0 <= at < n <= fields.len(),
        fields[at].0 == "when-to-use"@ || fields[at].0 == "when_to_use"@,
        forall|k: int|
            at < k < n ==> (#[trigger] fields[k]).0 != "when-to-use"@ && fields[k].0
                != "when_to_use"@,
    ensures
        when_in(fields, n) == Some(fields[at].1),
    decreases n,
{
    if at < n - 1 {
        assert(fields[n - 1].0 != "when-to-use"@);
        the_last_word_on_when_counts(fields, at, n - 1);
    }
}

/// Every entry that can be read is a skill, in order: a directory under its name, a markdown file under
/// its name without the ending.
pub proof fn every_entry_is_a_skill(entries: Seq<EntryView>, n: int)
    requires
        0 <= n <= entries.len(),
        forall|i: int|
            0 <= i < entries.len() ==> (#[trigger] entries[i]).text is Some && (entries[i].is_dir
                || (text::ends(entries[i].name, seq!['.', 'm', 'd']) && entries[i].name.len() > 3)),
    ensures
        skills_to(entries, n) == entries.take(n).map_values(
            |e: EntryView|
                skill_in(
                    e.text->0,
                    if e.is_dir {
                        e.name
                    } else {
                        e.name.subrange(0, e.name.len() - 3)
                    },
                ),
        ),
    decreases n,
{
    reveal_strlit(".");
    reveal_strlit("md");
    assert("."@ + "md"@ =~= seq!['.', 'm', 'd']);
    let read = |e: EntryView|
        skill_in(
            e.text->0,
            if e.is_dir {
                e.name
            } else {
                e.name.subrange(0, e.name.len() - 3)
            },
        );
    if n > 0 {
        every_entry_is_a_skill(entries, n - 1);
        assert(entries[n - 1].text is Some);
        assert(entries.take(n).map_values(read) =~= entries.take(n - 1).map_values(read).push(
            read(entries[n - 1]),
        ));
    } else {
        assert(entries.take(n).map_values(read) =~= Seq::empty());
    }
}

/// Each skill is described once, in order, by its name, what it is for and when to use it.
pub proof fn every_skill_is_listed(skills: Seq<SkillView>, n: int)
    requires
        0 <= n <= skills.len(),
    ensures
        skill_lines(skills, n) == skills.take(n).map_values(
            |s: SkillView|
                seq!['-', ' '] + s.name + seq![':', ' '] + s.description + (if s.when_to_use is Some {
                    " — when: "@ + s.when_to_use->0
                } else {
                    seq![]
                }) + seq!['\n'],
        ).flatten(),
    decreases n,
{
    let write = |s: SkillView|
        seq!['-', ' '] + s.name + seq![':', ' '] + s.description + (if s.when_to_use is Some {
            " — when: "@ + s.when_to_use->0
        } else {
            seq![]
        }) + seq!['\n'];
    reveal_strlit("- ");
    reveal_strlit(": ");
    reveal_strlit("\n");
    let some = skills.take(n).map_values(write);
    if n <= 0 {
        assert(some =~= Seq::empty());
    } else {
        every_skill_is_listed(skills, n - 1);
        let fewer = skills.take(n - 1).map_values(write);
        let last = write(skills[n - 1]);
        assert(some =~= fewer.push(last));
        fewer.lemma_flatten_push(last);
        assert(skill_line(skills[n - 1]) =~= last);
    }
}

} // verus!
