//! The `task` tool: run a sub-agent in an isolated session.
//!
//! Context isolation: the child sees only its own prompt and returns just its final text, so the
//! parent's context stays small. The child's tools are the base tools, optionally narrowed to the
//! agent type's list. A child that has answered is kept under its handle, for a follow-up.

use crate::agents::{AgentDef, AgentView};
use crate::engine::agent::{AgentEvent, AgentEventView, Session, SessionView};
use crate::engine::types;
use crate::engine::types::{Message, MessageView, OutputView, Role, ToolOutput, ToolSpec, ToolView};
use crate::json;
use crate::json::{Json, JsonSpec};
use crate::table::Table;
use crate::text;
use crate::tools;
use crate::tools::Risk;
use vstd::prelude::*;
use vstd::string::*;

verus! {

broadcast use crate::text::views_push;

/// A child: its session and the names of the tools that it was given.
pub struct ChildState {
    pub session: Session,
    pub tools: Vec<String>,
}

/// The mathematical value of a [`ChildState`].
pub struct ChildView {
    pub session: SessionView,
    pub tools: Seq<Seq<char>>,
}

impl View for ChildState {
    type V = ChildView;

    open spec fn view(&self) -> ChildView {
        ChildView { session: self.session@, tools: text::views(self.tools@) }
    }
}

/// A child whose turn is to be run.
pub struct Running {
    pub child: ChildState,
    /// What the child's activity is shown under: its handle, or its agent type.
    pub label: String,
    /// The handle of a child that is continued; none of a fresh one.
    pub handle: Option<String>,
}

/// The mathematical value of a [`Running`].
pub struct RunningView {
    pub child: ChildView,
    pub label: Seq<char>,
    pub handle: Option<Seq<char>>,
}

impl View for Running {
    type V = RunningView;

    open spec fn view(&self) -> RunningView {
        RunningView { child: self.child@, label: self.label@, handle: text::opt_view(self.handle) }
    }
}

/// What the tool knows.
pub struct Office {
    /// The names of the base tools.
    pub base: Seq<Seq<char>>,
    /// The agent types.
    pub defs: Seq<AgentView>,
    pub default_model: Seq<char>,
    /// The children that can be continued, by their handles.
    pub children: Map<Seq<char>, ChildView>,
    /// The number of the next fresh child.
    pub next: u64,
}

/// The session with a message of the parent appended.
pub open spec fn prompted(child: ChildView, prompt: Seq<char>) -> ChildView {
    ChildView {
        session: SessionView {
            messages: child.session.messages.push(types::user_text(prompt)),
            ..child.session
        },
        ..child
    }
}

/// The tools among the first `n` that an agent type may use.
pub open spec fn kept_to(
    base: Seq<Seq<char>>,
    allow: Option<Seq<Seq<char>>>,
    n: int,
) -> Seq<Seq<char>>
    decreases n,
{
    if n <= 0 {
        seq![]
    } else {
        let before = kept_to(base, allow, n - 1);
        match allow {
            Some(list) => if list.contains(base[n - 1]) {
                before.push(base[n - 1])
            } else {
                before
            },
            None => before.push(base[n - 1]),
        }
    }
}

/// The base tools that an agent type may use.
pub open spec fn child_tools(base: Seq<Seq<char>>, allow: Option<Seq<Seq<char>>>) -> Seq<Seq<char>> {
    kept_to(base, allow, base.len() as int)
}

/// A child never gets a tool that its parent's base does not have, nor one outside its list.
pub proof fn an_allow_list_only_narrows(
    base: Seq<Seq<char>>,
    allow: Option<Seq<Seq<char>>>,
    name: Seq<char>,
)
    ensures
        child_tools(base, allow).contains(name) <==> base.contains(name) && (allow matches Some(
            list,
        ) ==> list.contains(name)),
{
    lemma_kept(base, allow, name, base.len() as int);
    assert(base.take(base.len() as int) =~= base);
}

proof fn lemma_kept(
    base: Seq<Seq<char>>,
    allow: Option<Seq<Seq<char>>>,
    name: Seq<char>,
    n: int,
)
    requires
        0 <= n <= base.len(),
    ensures
        kept_to(base, allow, n).contains(name) <==> base.take(n).contains(name) && (
        allow matches Some(list) ==> list.contains(name)),
    decreases n,
{
    if n > 0 {
        lemma_kept(base, allow, name, n - 1);
        let before = kept_to(base, allow, n - 1);
        let last = base[n - 1];
        assert(base.take(n) =~= base.take(n - 1).push(last));
        lemma_push_contains(base.take(n - 1), last, name);
        lemma_push_contains(before, last, name);
    }
}

proof fn lemma_push_contains(s: Seq<Seq<char>>, x: Seq<char>, name: Seq<char>)
    ensures
        s.push(x).contains(name) <==> s.contains(name) || x == name,
{
    let t = s.push(x);
    if s.contains(name) {
        let i = choose|i: int| 0 <= i < s.len() && s[i] == name;
        assert(t[i] == name);
    }
    assert(t[s.len() as int] == x);
    if t.contains(name) && x != name {
        let i = choose|i: int| 0 <= i < t.len() && t[i] == name;
        assert(s[i] == name);
    }
}

/// The position of the agent type called `name`, at or after `i`.
pub open spec fn def_from(defs: Seq<AgentView>, name: Seq<char>, i: int) -> Option<AgentView>
    decreases defs.len() - i,
{
    if i < 0 || i >= defs.len() {
        None
    } else if defs[i].name == name {
        Some(defs[i])
    } else {
        def_from(defs, name, i + 1)
    }
}

/// A fresh child of an agent type.
pub open spec fn fresh(o: Office, def: AgentView) -> ChildView {
    ChildView {
        session: SessionView {
            system: def.system_prompt,
            model: match def.model {
                Some(m) => m,
                None => o.default_model,
            },
            messages: seq![],
            total_usage: types::no_usage(),
        },
        tools: child_tools(o.base, def.tools),
    }
}

/// What a call starts: the tool's state after it, and the child to run or what the model is told.
pub open spec fn begun(o: Office, input: JsonSpec) -> (Office, Result<RunningView, OutputView>) {
    match json::string_field(input, "prompt"@) {
        None => (o, Err(types::output_error("task: requires `prompt`"@))),
        Some(prompt) => match json::string_field(input, "continue"@) {
            Some(handle) => if o.children.dom().contains(handle) {
                (
                    Office { children: o.children.remove(handle), ..o },
                    Ok(
                        RunningView {
                            child: prompted(o.children[handle], prompt),
                            label: handle,
                            handle: Some(handle),
                        },
                    ),
                )
            } else {
                (o, Err(types::output_error("task: unknown handle `"@ + handle + "`"@)))
            },
            None => match json::string_field(input, "agent_type"@) {
                None => (
                    o,
                    Err(
                        types::output_error("task: requires `agent_type` (or `continue`)"@),
                    ),
                ),
                Some(agent_type) => match def_from(o.defs, agent_type, 0) {
                    None => (
                        o,
                        Err(
                            types::output_error(
                                "task: unknown agent_type `"@ + agent_type + "`"@,
                            ),
                        ),
                    ),
                    Some(def) => (
                        o,
                        Ok(
                            RunningView {
                                child: prompted(fresh(o, def), prompt),
                                label: agent_type,
                                handle: None,
                            },
                        ),
                    ),
                },
            },
        },
    }
}

/// The handle of the `n`th fresh child.
pub open spec fn child_handle(n: u64) -> Seq<char> {
    "child"@ + text::decimal(n as nat)
}

/// What the end of a child's turn leads to: the tool's state after it, and what the model is told. A
/// child that failed is not kept.
pub open spec fn ended(
    o: Office,
    running: RunningView,
    failure: Option<Seq<char>>,
) -> (Office, OutputView) {
    match (failure, running.handle) {
        (Some(e), Some(_)) => (o, types::output_error("task: continuation failed: "@ + e)),
        (Some(e), None) => (o, types::output_error("task: sub-agent failed: "@ + e)),
        (None, Some(handle)) => (
            Office { children: o.children.insert(handle, running.child), ..o },
            answered(handle, running.child),
        ),
        (None, None) => (
            Office {
                children: o.children.insert(child_handle(o.next), running.child),
                next: if o.next == u64::MAX {
                    0
                } else {
                    (o.next + 1) as u64
                },
                ..o
            },
            answered(child_handle(o.next), running.child),
        ),
    }
}

/// What the model is told of a child's answer.
pub open spec fn answered(handle: Seq<char>, child: ChildView) -> OutputView {
    types::output_ok("handle: "@ + handle + "\n"@ + text_of(child.session.messages))
}

/// A fresh child is isolated: it starts from its agent type's prompt, and the one message that it sees
/// is the task that it was given.
pub proof fn a_fresh_child_sees_its_task_alone(o: Office, input: JsonSpec, running: RunningView)
    requires
        begun(o, input).1 == Ok::<RunningView, OutputView>(running),
        running.handle is None,
    ensures
        json::string_field(input, "prompt"@) matches Some(prompt) && running.child.session.messages
            == Seq::empty().push(types::user_text(prompt)),
        json::string_field(input, "agent_type"@) matches Some(agent_type) && def_from(
            o.defs,
            agent_type,
            0,
        ) matches Some(def) && running.child.session.system == def.system_prompt
            && running.child.tools == child_tools(o.base, def.tools),
{
}

/// A child that has answered takes a follow-up where it stopped, with the tools that it had.
pub proof fn a_child_continues_where_it_stopped(
    o: Office,
    running: RunningView,
    input: JsonSpec,
    prompt: Seq<char>,
)
    requires
        json::string_field(input, "prompt"@) == Some(prompt),
        json::string_field(input, "continue"@) == Some(
            match running.handle {
                Some(h) => h,
                None => child_handle(o.next),
            },
        ),
    ensures
        begun(ended(o, running, None).0, input).1 matches Ok(again) && again.child == prompted(
            running.child,
            prompt,
        ),
{
}

// ---- what a child said ----------------------------------------------------------------------

/// The text of the last of the first `n` messages that is the assistant's and has one.
pub open spec fn last_text(messages: Seq<MessageView>, n: int) -> Seq<char>
    decreases n,
{
    if n <= 0 {
        "(sub-agent produced no text)"@
    } else {
        let m = messages[n - 1];
        let said = types::texts_in(m.content, m.content.len() as int);
        if m.role == Role::Assistant && said.len() > 0 {
            said
        } else {
            last_text(messages, n - 1)
        }
    }
}

/// What a child answered.
pub open spec fn text_of(messages: Seq<MessageView>) -> Seq<char> {
    last_text(messages, messages.len() as int)
}

/// The last assistant message's text, joined.
pub fn final_text(messages: &Vec<Message>) -> (r: String)
    ensures
        r@ == text_of(text::views(messages@)),
{
    let ghost all = text::views(messages@);
    let mut n: usize = messages.len();
    while n > 0
        invariant
            0 <= n <= messages@.len(),
            all == text::views(messages@),
            last_text(all, all.len() as int) == last_text(all, n as int),
        decreases n,
    {
        n -= 1;
        assert(all[n as int] == messages@[n as int]@);
        if let Role::Assistant = messages[n].role {
            let said = types::joined_text(&messages[n].content);
            if said.as_str().unicode_len() > 0 {
                return said;
            }
        }
    }
    "(sub-agent produced no text)".to_string()
}

/// What is shown of a child's event, if anything.
pub open spec fn child_note(ev: AgentEventView) -> Option<Seq<char>> {
    match ev {
        AgentEventView::ToolStarted { name, .. } => Some("running "@ + name),
        AgentEventView::ToolFinished { name, .. } => Some(name + " done"@),
        AgentEventView::TurnComplete { .. } => Some("done"@),
        AgentEventView::Error(e) => Some("error: "@ + e),
        _ => None,
    }
}

/// Compact one-line summary of a child event for the parent's tree view (text deltas skipped).
pub fn summarize_child(ev: &AgentEvent) -> (r: Option<String>)
    ensures
        text::opt_view(r) == child_note(ev@),
{
    match ev {
        AgentEvent::ToolStarted { name, .. } => Some(text::concat2("running ", name.as_str())),
        AgentEvent::ToolFinished { name, .. } => Some(text::concat2(name.as_str(), " done")),
        AgentEvent::TurnComplete { .. } => Some("done".to_string()),
        AgentEvent::Error(e) => Some(text::concat2("error: ", e.as_str())),
        _ => None,
    }
}

// ---- the tool -------------------------------------------------------------------------------

pub const DESCRIPTION: &'static str =
    "Spawn a sub-agent (by `agent_type`) for a focused `prompt`; returns its final answer and a `handle`. Pass `continue` = that handle (instead of `agent_type`) to send a follow-up to the same live sub-agent.";

/// What the tool is advertised as.
pub open spec fn task_spec(defs: Seq<AgentView>) -> ToolView {
    ToolView {
        name: "task"@,
        description: DESCRIPTION@,
        input_schema: tools::object_spec(
            json::pairs3(
                "agent_type"@,
                tools::choice_spec(defs.map_values(|d: AgentView| d.name)),
                "prompt"@,
                tools::typed_spec("string"@),
                "continue"@,
                tools::described_spec("string"@, "Handle of a live sub-agent to continue."@),
            ),
            Seq::empty().push("prompt"@),
        ),
    }
}

pub struct SubAgentTool {
    base: Vec<String>,
    defs: Vec<AgentDef>,
    default_model: String,
    children: Table<ChildState>,
    next: u64,
}

impl View for SubAgentTool {
    type V = Office;

    closed spec fn view(&self) -> Office {
        Office {
            base: text::views(self.base@),
            defs: text::views(self.defs@),
            default_model: self.default_model@,
            children: children_of(self.children@),
            next: self.next,
        }
    }
}

/// Children by their values.
pub open spec fn children_of(children: Map<Seq<char>, ChildState>) -> Map<Seq<char>, ChildView> {
    children.map_values(|c: ChildState| c@)
}

impl SubAgentTool {
    /// `base` are the names of the tools that a child may get.
    pub fn new(base: Vec<String>, defs: Vec<AgentDef>, default_model: &str) -> (r: SubAgentTool)
        ensures
            r@ == (Office {
                base: text::views(base@),
                defs: text::views(defs@),
                default_model: default_model@,
                children: Map::empty(),
                next: 0,
            }),
    {
        let r = SubAgentTool {
            base,
            defs,
            default_model: default_model.to_string(),
            children: Table::new(),
            next: 0,
        };
        assert(r@.children =~= Map::empty());
        r
    }

    pub fn spec(&self) -> (r: ToolSpec)
        ensures
            r@ == task_spec(self@.defs),
    {
        let mut names: Vec<String> = Vec::new();
        let mut i: usize = 0;
        while i < self.defs.len()
            invariant
                0 <= i <= self.defs@.len(),
                names@.len() == i,
                forall|k: int| 0 <= k < i ==> (#[trigger] names@[k])@ == self.defs@[k]@.name,
            decreases self.defs@.len() - i,
        {
            names.push(self.defs[i].name.clone());
            i += 1;
        }
        assert(text::views(names@) =~= self@.defs.map_values(|d: AgentView| d.name));
        let mut p = json::members();
        json::put(&mut p, "agent_type", tools::choice(&names));
        json::put(&mut p, "prompt", tools::typed("string"));
        json::put(
            &mut p,
            "continue",
            tools::described("string", "Handle of a live sub-agent to continue."),
        );
        tools::advertise(
            "task",
            DESCRIPTION,
            tools::object_schema(p, &tools::one_name("prompt")),
        )
    }

    /// Orchestration only; the child's own tools gate their own writes and commands.
    pub fn risk(&self) -> (r: Risk)
        ensures
            r == Risk::ReadOnly,
    {
        Risk::ReadOnly
    }

    fn find_def(&self, name: &str) -> (r: Option<usize>)
        ensures
            match r {
                Some(i) => i < self.defs@.len() && def_from(self@.defs, name@, 0) == Some(
                    self.defs@[i as int]@,
                ),
                None => def_from(self@.defs, name@, 0) is None,
            },
    {
        let ghost all = self@.defs;
        let mut i: usize = 0;
        while i < self.defs.len()
            invariant
                0 <= i <= self.defs@.len(),
                all == text::views(self.defs@),
                def_from(all, name@, 0) == def_from(all, name@, i as int),
            decreases self.defs@.len() - i,
        {
            assert(all[i as int] == self.defs@[i as int]@);
            if text::same(self.defs[i].name.as_str(), name) {
                return Some(i);
            }
            i += 1;
        }
        None
    }

    /// The names of the base tools that an agent type may use.
    pub fn child_registry(&self, allow: &Option<Vec<String>>) -> (r: Vec<String>)
        ensures
            text::views(r@) == child_tools(self@.base, crate::agents::list_view(*allow)),
    {
        let ghost base = self@.base;
        let ghost list = crate::agents::list_view(*allow);
        let mut out: Vec<String> = Vec::new();
        assert(text::views(out@) =~= seq![]);
        let mut i: usize = 0;
        while i < self.base.len()
            invariant
                0 <= i <= self.base@.len(),
                base == text::views(self.base@),
                list == crate::agents::list_view(*allow),
                text::views(out@) == kept_to(base, list, i as int),
            decreases self.base@.len() - i,
        {
            assert(base[i as int] == self.base@[i as int]@);
            let keep = match allow {
                Some(names) => text::is_among(names, self.base[i].as_str()),
                None => true,
            };
            if keep {
                out.push(self.base[i].clone());
            }
            i += 1;
        }
        out
    }

    /// What a call starts: the child to run, or what the model is told where it cannot be.
    pub fn begin(&mut self, input: &Json) -> (r: Result<Running, ToolOutput>)
        ensures
            final(self)@ == begun(old(self)@, input.model()).0,
            match (begun(old(self)@, input.model()).1, r) {
                (Ok(want), Ok(got)) => want == got@,
                (Err(want), Err(got)) => want == got@,
                _ => false,
            },
    {
        let prompt = match input.str_field("prompt") {
            Some(prompt) => prompt,
            None => return Err(ToolOutput::error("task: requires `prompt`")),
        };
        if let Some(handle) = input.str_field("continue") {
            let ghost before = self.children@;
            match self.children.remove(handle) {
                Some(state) => {
                    assert(self@.children =~= children_of(before).remove(handle@));
                    let mut child = state;
                    child.session.push_user(prompt);
                    return Ok(
                        Running {
                            child,
                            label: handle.to_string(),
                            handle: Some(handle.to_string()),
                        },
                    );
                },
                None => {
                    assert(self@.children =~= children_of(before));
                    let msg = text::concat3("task: unknown handle `", handle, "`");
                    return Err(ToolOutput::error(msg.as_str()));
                },
            }
        }
        let agent_type = match input.str_field("agent_type") {
            Some(t) => t,
            None => {
                return Err(ToolOutput::error("task: requires `agent_type` (or `continue`)"));
            },
        };
        match self.find_def(agent_type) {
            None => {
                let msg = text::concat3("task: unknown agent_type `", agent_type, "`");
                Err(ToolOutput::error(msg.as_str()))
            },
            Some(i) => {
                let tools = self.child_registry(&self.defs[i].tools);
                let model = match &self.defs[i].model {
                    Some(m) => m.as_str(),
                    None => self.default_model.as_str(),
                };
                let mut session = Session::new(self.defs[i].system_prompt.as_str(), model);
                session.push_user(prompt);
                Ok(
                    Running {
                        child: ChildState { session, tools },
                        label: agent_type.to_string(),
                        handle: None,
                    },
                )
            },
        }
    }

    /// Takes a child back whose turn has ended, `failure` being why where it failed; gives what the
    /// model is told.
    pub fn finish(&mut self, running: Running, failure: Option<String>) -> (r: ToolOutput)
        ensures
            (final(self)@, r@) == ended(old(self)@, running@, text::opt_view(failure)),
    {
        let Running { child, label: _, handle } = running;
        match failure {
            Some(e) => {
                let told = match handle {
                    Some(_) => "task: continuation failed: ",
                    None => "task: sub-agent failed: ",
                };
                ToolOutput::error(text::concat2(told, e.as_str()).as_str())
            },
            None => {
                let said = final_text(&child.session.messages);
                let name = match handle {
                    Some(h) => h,
                    None => {
                        let n = self.next;
                        self.next = if n == u64::MAX {
                            0
                        } else {
                            n + 1
                        };
                        text::concat2("child", text::decimal_of(n).as_str())
                    },
                };
                let ghost before = self.children@;
                self.children.insert(name.as_str(), child);
                assert(self@.children =~= children_of(before).insert(name@, child@));
                let mut msg = text::concat3("handle: ", name.as_str(), "\n");
                msg.append(said.as_str());
                ToolOutput::ok(msg.as_str())
            },
        }
    }
}

// ---- what comes of a child ------------------------------------------------------------------

/// What a child is taken to answer is the text of its last message that has one.
pub proof fn the_last_words_count(messages: Seq<MessageView>, k: int, n: int)
    requires
        0 <= k < n <= messages.len(),
        messages[k].role is Assistant,
        types::texts_in(messages[k].content, messages[k].content.len() as int).len() > 0,
        forall|j: int|
            k < j < n ==> !((#[trigger] messages[j]).role is Assistant) || types::texts_in(
                messages[j].content,
                messages[j].content.len() as int,
            ).len() == 0,
    ensures
        last_text(messages, n) == types::texts_in(
            messages[k].content,
            messages[k].content.len() as int,
        ),
    decreases n,
{
    if k < n - 1 {
        let last = messages[n - 1];
        the_last_words_count(messages, k, n - 1);
    }
}

/// The parent is told what the child answered, behind the handle that takes up with it again. A child
/// that failed is told of as an error.
pub proof fn the_parent_is_told_the_answer(o: Office, running: RunningView, e: Seq<char>)
    ensures
        ({
            let (after, told) = ended(o, running, None);
            let handle = if running.handle is Some {
                running.handle->0
            } else {
                child_handle(o.next)
            };
            &&& !told.is_error
            &&& text_of(running.child.session.messages).is_suffix_of(told.text)
            &&& ("handle: "@ + handle).is_prefix_of(told.text)
            &&& after.children.dom().contains(handle) && after.children[handle] == running.child
        }),
        ended(o, running, Some(e)).1.is_error,
        e.is_suffix_of(ended(o, running, Some(e)).1.text),
        ended(o, running, Some(e)).0 == o,
{
    let told = ended(o, running, None).1;
    let said = text_of(running.child.session.messages);
    assert(said =~= told.text.subrange(told.text.len() - said.len(), told.text.len() as int));
    let handle = if running.handle is Some {
        running.handle->0
    } else {
        child_handle(o.next)
    };
    let head = "handle: "@ + handle;
    assert(head =~= told.text.subrange(0, head.len() as int));
    let failed = ended(o, running, Some(e)).1.text;
    assert(e =~= failed.subrange(failed.len() - e.len(), failed.len() as int));
}

/// A fresh child works with the model of its type, or with its parent's where the type has none.
pub proof fn a_fresh_child_has_its_model(o: Office, input: JsonSpec, at: int, prompt: Seq<char>)
    requires
        0 <= at < o.defs.len(),
        json::string_field(input, "prompt"@) == Some(prompt),
        json::string_field(input, "continue"@) is None,
        json::string_field(input, "agent_type"@) == Some(o.defs[at].name),
        forall|k: int| 0 <= k < at ==> (#[trigger] o.defs[k]).name != o.defs[at].name,
    ensures
        begun(o, input).0 == o,
        begun(o, input).1 matches Ok(running) && {
            &&& running.handle is None
            &&& running.label == o.defs[at].name
            &&& running.child.session.system == o.defs[at].system_prompt
            &&& o.defs[at].model matches Some(m) ==> running.child.session.model == m
            &&& o.defs[at].model is None ==> running.child.session.model == o.default_model
            &&& running.child.session.messages == seq![types::user_text(prompt)]
        },
{
    lemma_def_at(o.defs, at, 0);
    assert(Seq::<MessageView>::empty().push(types::user_text(prompt)) =~= seq![
        types::user_text(prompt),
    ]);
}

proof fn lemma_def_at(defs: Seq<AgentView>, at: int, i: int)
    requires
        0 <= i <= at < defs.len(),
        forall|k: int| 0 <= k < at ==> (#[trigger] defs[k]).name != defs[at].name,
    ensures
        def_from(defs, defs[at].name, i) == Some(defs[at]),
    decreases at - i,
{
    if i < at {
        assert(defs[i].name != defs[at].name);
        lemma_def_at(defs, at, i + 1);
    }
}

/// The tools of a child come in the order of the base tools.
pub proof fn a_child_keeps_the_order_of_its_tools(
    base: Seq<Seq<char>>,
    list: Seq<Seq<char>>,
    n: int,
)
    requires
        0 <= n <= base.len(),
    ensures
        kept_to(base, Some(list), n) == base.take(n).filter(|name: Seq<char>| list.contains(name)),
        kept_to(base, None, n) == base.take(n),
    decreases n,
{
    reveal(Seq::filter);
    if n > 0 {
        a_child_keeps_the_order_of_its_tools(base, list, n - 1);
        assert(base.take(n).drop_last() =~= base.take(n - 1));
        assert(base.take(n) =~= base.take(n - 1).push(base[n - 1]));
    } else {
        assert(base.take(0) =~= seq![]);
    }
}

/// The parent may ask for each of the agents by its name, and must give a prompt.
pub proof fn every_agent_can_be_asked(defs: Seq<AgentView>, k: int)
    requires
        0 <= k < defs.len(),
    ensures
        ({
            let schema = task_spec(defs).input_schema;
            let properties = json::field_or_null(schema, "properties"@);
            let asked = json::field_or_null(properties, "agent_type"@);
            &&& json::field(asked, "enum"@) matches Some(JsonSpec::Array(names))
            &&& names.len() == defs.len()
            &&& names[k] == JsonSpec::Str(defs[k].name)
        }),
{
    let names = defs.map_values(|d: AgentView| d.name);
    let properties = task_spec(defs).input_schema;
    reveal_strlit("type");
    reveal_strlit("enum");
    reveal_strlit("properties");
    assert("type"@[0] == 't' && "enum"@[0] == 'e');
    assert("type"@.len() == 4 && "properties"@.len() == 10);
    reveal_with_fuel(json::member_from, 4);
    tools::a_choice_tells_its_names(names, k);
    assert(json::field_or_null(
        json::field_or_null(properties, "properties"@),
        "agent_type"@,
    ) == tools::choice_spec(names));
}

/// What a child does is told by its tool, or by its error.
pub proof fn a_child_is_followed(id: Seq<char>, name: Seq<char>, input: JsonSpec, e: Seq<char>)
    ensures
        child_note(AgentEventView::ToolStarted { id, name, input }) == Some("running "@ + name),
        child_note(AgentEventView::Error(e)) == Some("error: "@ + e),
{
}

/// A fresh child is kept under a handle of its own, which the next fresh child does not get.
pub proof fn fresh_handles_differ(o: Office, first: RunningView, second: RunningView)
    requires
        first.handle is None,
        second.handle is None,
        o.next < u64::MAX,
    ensures
        ({
            let one = ended(o, first, None).0;
            let two = ended(one, second, None).0;
            &&& one.next == o.next + 1
            &&& child_handle(o.next) != child_handle(one.next)
            &&& one.children == o.children.insert(child_handle(o.next), first.child)
            &&& two.children.dom().contains(child_handle(o.next))
            &&& two.children[child_handle(o.next)] == first.child
            &&& two.children[child_handle(one.next)] == second.child
        }),
{
    text::lemma_decimal_differs(o.next as nat, (o.next + 1) as nat);
    let a = text::decimal(o.next as nat);
    let b = text::decimal((o.next + 1) as nat);
    if "child"@ + a == "child"@ + b {
        assert(a =~= ("child"@ + a).skip("child"@.len() as int));
        assert(b =~= ("child"@ + b).skip("child"@.len() as int));
    }
}

/// A child that fails leaves the others as they are, and the parent is told why.
pub proof fn a_failed_child_changes_nothing(o: Office, running: RunningView, e: Seq<char>)
    ensures
        ended(o, running, Some(e)).0 == o,
        ended(o, running, Some(e)).1.is_error,
        text::ends(ended(o, running, Some(e)).1.text, e),
{
    let told = ended(o, running, Some(e)).1.text;
    assert(told.subrange(told.len() - e.len(), told.len() as int) =~= e);
}

} // verus!
