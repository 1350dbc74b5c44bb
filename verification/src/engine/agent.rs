//! The agent loop: drive a turn to completion.
//!
//! A turn asks the model, assembles its streamed response into a canonical assistant [`Message`]
//! (forwarding live deltas to the UI), runs any requested tools, feeds the results back, and repeats
//! until the model stops calling tools. [`Turn`] decides each step; its caller performs them: it
//! sends the request, reads the stream into an [`Assembler`], and runs the tools.

use crate::engine::toolcall_text;
use crate::engine::types;
use crate::engine::types::{
    BlockView, ChatRequest, ContentBlock, EventView, Message, MessageView, OutputView, RequestView,
    Role, ToolOutput, ToolSpec, Usage, WireEvent,
};
use crate::json;
use crate::json::{Json, JsonSpec};
use crate::table::Table;
use crate::text;
use vstd::prelude::*;
use vstd::string::*;

verus! {

broadcast use crate::text::views_push;

// ---- assembling a response ------------------------------------------------------------------

/// Where a call stands: its block, and its arguments so far.
pub struct OpenCall {
    pub block: usize,
    pub args: String,
}

/// Folds a provider's events into an assistant message.
pub struct Assembler {
    blocks: Vec<ContentBlock>,
    text: String,
    think: String,
    usage: Usage,
    calls: Table<OpenCall>,
}

/// What an [`Assembler`] has gathered.
pub struct Gathered {
    pub blocks: Seq<BlockView>,
    pub text: Seq<char>,
    pub think: Seq<char>,
    pub usage: Usage,
    /// The block of each call and its arguments so far.
    pub calls: Map<Seq<char>, (int, Seq<char>)>,
}

impl View for Assembler {
    type V = Gathered;

    closed spec fn view(&self) -> Gathered {
        Gathered {
            blocks: text::views(self.blocks@),
            text: self.text@,
            think: self.think@,
            usage: self.usage,
            calls: self.calls@.map_values(|c: OpenCall| (c.block as int, c.args@)),
        }
    }
}

/// How a response goes on after an event.
#[derive(Debug, PartialEq)]
pub enum Progress {
    More,
    Done,
    Failed(String),
}

/// The mathematical value of a [`Progress`].
pub enum ProgressView {
    More,
    Done,
    Failed(Seq<char>),
}

impl View for Progress {
    type V = ProgressView;

    open spec fn view(&self) -> ProgressView {
        match self {
            Progress::More => ProgressView::More,
            Progress::Done => ProgressView::Done,
            Progress::Failed(e) => ProgressView::Failed(e@),
        }
    }
}

/// The blocks with the pending reasoning and then the pending text closed as blocks of their own.
pub open spec fn flushed(g: Gathered) -> Seq<BlockView> {
    let thought = if g.think.len() == 0 {
        g.blocks
    } else {
        g.blocks.push(BlockView::Thinking { text: g.think })
    };
    if g.text.len() == 0 {
        thought
    } else {
        thought.push(BlockView::Text { text: g.text })
    }
}

/// The input that the text of a call's arguments says. Blank or broken arguments say null.
pub open spec fn input_of(args: Seq<char>) -> JsonSpec {
    if text::trimmed(args).len() == 0 {
        JsonSpec::Null
    } else {
        match json::json_parsed(args) {
            Ok(v) => v,
            Err(_) => JsonSpec::Null,
        }
    }
}

/// The blocks with the input of the tool call at `at` set.
pub open spec fn with_input(blocks: Seq<BlockView>, at: int, input: JsonSpec) -> Seq<BlockView> {
    match blocks[at] {
        BlockView::ToolUse { id, name, .. } => blocks.update(
            at,
            BlockView::ToolUse { id, name, input },
        ),
        _ => blocks,
    }
}

/// What an event adds. Text and reasoning are closed as blocks the moment a tool call starts, so
/// that the call stands after the text that preceded it.
pub open spec fn gathered_after(g: Gathered, ev: EventView) -> Gathered {
    match ev {
        EventView::TextDelta(s) => Gathered { text: g.text + s, ..g },
        EventView::ThinkingDelta(s) => Gathered { think: g.think + s, ..g },
        EventView::ToolUseStart { id, name } => Gathered {
            blocks: flushed(g).push(BlockView::ToolUse { id, name, input: JsonSpec::Null }),
            text: seq![],
            think: seq![],
            calls: g.calls.insert(id, (flushed(g).len() as int, seq![])),
            ..g
        },
        EventView::ToolInputDelta { id, json } => if g.calls.dom().contains(id) {
            let (block, args) = g.calls[id];
            Gathered { calls: g.calls.insert(id, (block, args + json)), ..g }
        } else {
            g
        },
        EventView::ToolUseEnd { id } => if g.calls.dom().contains(id) {
            let (block, args) = g.calls[id];
            Gathered { blocks: with_input(g.blocks, block, input_of(args)), ..g }
        } else {
            g
        },
        EventView::Usage(u) => Gathered { usage: u, ..g },
        EventView::Done => g,
        EventView::Error(_) => g,
    }
}

/// How the response goes on after an event.
pub open spec fn progress_after(ev: EventView) -> ProgressView {
    match ev {
        EventView::Done => ProgressView::Done,
        EventView::Error(e) => ProgressView::Failed(e),
        _ => ProgressView::More,
    }
}

/// Every open call points at a block.
pub open spec fn calls_point_inside(g: Gathered) -> bool {
    forall|id: Seq<char>|
        g.calls.dom().contains(id) ==> 0 <= (#[trigger] g.calls[id]).0 < g.blocks.len()
}

pub open spec fn nothing_gathered() -> Gathered {
    Gathered {
        blocks: seq![],
        text: seq![],
        think: seq![],
        usage: types::no_usage(),
        calls: Map::empty(),
    }
}

impl Assembler {
    pub closed spec fn wf(&self) -> bool {
        calls_point_inside(self@)
    }

    pub fn new() -> (r: Assembler)
        ensures
            r@ == nothing_gathered(),
            r.wf(),
    {
        let r = Assembler {
            blocks: Vec::new(),
            text: String::new(),
            think: String::new(),
            usage: Usage { input_tokens: 0, output_tokens: 0, cache_read: 0, cache_write: 0 },
            calls: Table::new(),
        };
        proof {
            text::views_empty(r.blocks@);
            assert(r@.text =~= seq![]);
            assert(r@.think =~= seq![]);
            assert(r@.calls =~= Map::empty());
        }
        r
    }

    fn flush(&mut self)
        requires
            old(self).wf(),
        ensures
            final(self)@ == (Gathered {
                blocks: flushed(old(self)@),
                text: seq![],
                think: seq![],
                ..old(self)@
            }),
            final(self).wf(),
    {
        let ghost g = self@;
        if self.think.as_str().unicode_len() > 0 {
            let mut taken = String::new();
            std::mem::swap(&mut taken, &mut self.think);
            self.blocks.push(ContentBlock::Thinking { text: taken });
        }
        if self.text.as_str().unicode_len() > 0 {
            let mut taken = String::new();
            std::mem::swap(&mut taken, &mut self.text);
            self.blocks.push(ContentBlock::Text { text: taken });
        }
        proof {
            assert(self@.text =~= seq![]);
            assert(self@.think =~= seq![]);
            assert(self@.blocks == flushed(g));
            assert(self@.calls == g.calls);
        }
    }

    fn set_input(&mut self, at: usize, input: Json)
        requires
            old(self).wf(),
            at < old(self)@.blocks.len(),
        ensures
            final(self)@ == (Gathered {
                blocks: with_input(old(self)@.blocks, at as int, input.model()),
                ..old(self)@
            }),
            final(self).wf(),
    {
        let ghost g = self@;
        assert(g.blocks[at as int] == self.blocks@[at as int]@);
        let replaced = match &self.blocks[at] {
            ContentBlock::ToolUse { id, name, .. } => Some(
                ContentBlock::ToolUse { id: id.clone(), name: name.clone(), input },
            ),
            _ => None,
        };
        if let Some(block) = replaced {
            self.blocks.set(at, block);
            assert(text::views(self.blocks@) =~= g.blocks.update(at as int, block@));
        }
        assert(self@.calls == g.calls);
    }

    /// Takes one event in.
    pub fn push(&mut self, ev: WireEvent) -> (r: Progress)
        requires
            old(self).wf(),
        ensures
            final(self)@ == gathered_after(old(self)@, ev@),
            r@ == progress_after(ev@),
            final(self).wf(),
    {
        let ghost g = self@;
        match ev {
            WireEvent::TextDelta(s) => {
                self.text.append(s.as_str());
                assert(self@.calls == g.calls);
                Progress::More
            },
            WireEvent::ThinkingDelta(s) => {
                self.think.append(s.as_str());
                assert(self@.calls == g.calls);
                Progress::More
            },
            WireEvent::ToolUseStart { id, name } => {
                self.flush();
                let ghost h = self@;
                let block = self.blocks.len();
                self.blocks.push(
                    ContentBlock::ToolUse { id: id.clone(), name, input: Json::Null },
                );
                let args = String::new();
                assert(args@ =~= seq![]);
                self.calls.insert(id.as_str(), OpenCall { block, args });
                proof {
                    assert(self@.calls =~= g.calls.insert(
                        id@,
                        (flushed(g).len() as int, seq![]),
                    ));
                    assert(calls_point_inside(h));
                }
                Progress::More
            },
            WireEvent::ToolInputDelta { id, json } => {
                let grown = match self.calls.get(id.as_str()) {
                    Some(c) => Some(
                        OpenCall {
                            block: c.block,
                            args: text::concat2(c.args.as_str(), json.as_str()),
                        },
                    ),
                    None => None,
                };
                if let Some(c) = grown {
                    self.calls.insert(id.as_str(), c);
                    proof {
                        assert(self@.calls =~= g.calls.insert(
                            id@,
                            (g.calls[id@].0, g.calls[id@].1 + json@),
                        ));
                    }
                }
                Progress::More
            },
            WireEvent::ToolUseEnd { id } => {
                let ended = match self.calls.get(id.as_str()) {
                    Some(c) => {
                        assert(g.calls[id@] == (c.block as int, c.args@));
                        Some((c.block, parse_input(c.args.as_str())))
                    },
                    None => None,
                };
                if let Some((block, input)) = ended {
                    assert(g.calls.dom().contains(id@));
                    self.set_input(block, input);
                }
                Progress::More
            },
            WireEvent::Usage(u) => {
                self.usage = u;
                assert(self@.calls == g.calls);
                Progress::More
            },
            WireEvent::Done => Progress::Done,
            WireEvent::Error(e) => Progress::Failed(e),
        }
    }

    /// The message and the usage that the events gave.
    pub fn finish(self) -> (r: (Message, Usage))
        requires
            self.wf(),
        ensures
            r.0@ == (MessageView { role: Role::Assistant, content: flushed(self@) }),
            r.1 == self@.usage,
    {
        let mut done = self;
        done.flush();
        let usage = done.usage;
        (Message::assistant(done.blocks), usage)
    }
}

/// The input that the text of a call's arguments says.
fn parse_input(args: &str) -> (r: Json)
    ensures
        r.model() == input_of(args@),
{
    if text::trim(args).unicode_len() == 0 {
        Json::Null
    } else {
        match json::parse(args) {
            Ok(v) => v,
            Err(_) => Json::Null,
        }
    }
}

/// What the events from `i` on make of what was gathered: it ends at `Done`, at an error, or with
/// the events.
pub open spec fn assembled_from(g: Gathered, events: Seq<EventView>, i: int) -> Result<
    (MessageView, Usage),
    Seq<char>,
>
    decreases events.len() - i,
{
    if i < 0 || i >= events.len() {
        Ok((MessageView { role: Role::Assistant, content: flushed(g) }, g.usage))
    } else {
        match progress_after(events[i]) {
            ProgressView::More => assembled_from(gathered_after(g, events[i]), events, i + 1),
            ProgressView::Done => Ok(
                (MessageView { role: Role::Assistant, content: flushed(g) }, g.usage),
            ),
            ProgressView::Failed(e) => Err(e),
        }
    }
}

/// The reasoning among `blocks[..n]`, one after the other.
pub open spec fn thoughts_in(blocks: Seq<BlockView>, n: int) -> Seq<char>
    decreases n,
{
    if n <= 0 {
        seq![]
    } else {
        match blocks[n - 1] {
            BlockView::Thinking { text } => thoughts_in(blocks, n - 1) + text,
            _ => thoughts_in(blocks, n - 1),
        }
    }
}

/// The text of a message's blocks.
pub open spec fn written(blocks: Seq<BlockView>) -> Seq<char> {
    types::texts_in(blocks, blocks.len() as int)
}

/// The reasoning of a message's blocks.
pub open spec fn reasoned(blocks: Seq<BlockView>) -> Seq<char> {
    thoughts_in(blocks, blocks.len() as int)
}

/// The text that `events[..n]` bring.
pub open spec fn text_brought(events: Seq<EventView>, n: int) -> Seq<char>
    decreases n,
{
    if n <= 0 {
        seq![]
    } else {
        match events[n - 1] {
            EventView::TextDelta(s) => text_brought(events, n - 1) + s,
            _ => text_brought(events, n - 1),
        }
    }
}

/// The reasoning that `events[..n]` bring.
pub open spec fn thought_brought(events: Seq<EventView>, n: int) -> Seq<char>
    decreases n,
{
    if n <= 0 {
        seq![]
    } else {
        match events[n - 1] {
            EventView::ThinkingDelta(s) => thought_brought(events, n - 1) + s,
            _ => thought_brought(events, n - 1),
        }
    }
}

proof fn lemma_same_words(a: Seq<BlockView>, b: Seq<BlockView>, n: int)
    requires
        0 <= n <= a.len(),
        n <= b.len(),
        forall|k: int|
            0 <= k < n ==> a[k] == b[k] || ((#[trigger] a[k]) is ToolUse && b[k] is ToolUse),
    ensures
        types::texts_in(a, n) == types::texts_in(b, n),
        thoughts_in(a, n) == thoughts_in(b, n),
    decreases n,
{
    if n > 0 {
        lemma_same_words(a, b, n - 1);
    }
}

proof fn lemma_words_pushed(blocks: Seq<BlockView>, b: BlockView)
    ensures
        written(blocks.push(b)) == written(blocks) + (match b {
            BlockView::Text { text } => text,
            _ => seq![],
        }),
        reasoned(blocks.push(b)) == reasoned(blocks) + (match b {
            BlockView::Thinking { text } => text,
            _ => seq![],
        }),
{
    lemma_same_words(blocks.push(b), blocks, blocks.len() as int);
    assert(written(blocks) + Seq::<char>::empty() =~= written(blocks));
    assert(reasoned(blocks) + Seq::<char>::empty() =~= reasoned(blocks));
}

proof fn lemma_flushed_words(g: Gathered)
    ensures
        written(flushed(g)) == written(g.blocks) + g.text,
        reasoned(flushed(g)) == reasoned(g.blocks) + g.think,
{
    let thought = if g.think.len() == 0 {
        g.blocks
    } else {
        g.blocks.push(BlockView::Thinking { text: g.think })
    };
    lemma_words_pushed(g.blocks, BlockView::Thinking { text: g.think });
    lemma_words_pushed(thought, BlockView::Text { text: g.text });
    assert(written(flushed(g)) =~= written(g.blocks) + g.text);
    assert(reasoned(flushed(g)) =~= reasoned(g.blocks) + g.think);
}

/// An event adds its own words to the message and takes none away, wherever in the stream it comes.
pub proof fn an_event_adds_its_words(g: Gathered, ev: EventView)
    requires
        calls_point_inside(g),
    ensures
        calls_point_inside(gathered_after(g, ev)),
        written(flushed(gathered_after(g, ev))) == written(flushed(g)) + (match ev {
            EventView::TextDelta(s) => s,
            _ => seq![],
        }),
        reasoned(flushed(gathered_after(g, ev))) == reasoned(flushed(g)) + (match ev {
            EventView::ThinkingDelta(s) => s,
            _ => seq![],
        }),
{
    let after = gathered_after(g, ev);
    lemma_flushed_words(g);
    lemma_flushed_words(after);
    match ev {
        EventView::ToolUseStart { id, name } => {
            lemma_words_pushed(
                flushed(g),
                BlockView::ToolUse { id, name, input: JsonSpec::Null },
            );
        },
        EventView::ToolUseEnd { id } => {
            if g.calls.dom().contains(id) {
                lemma_same_words(after.blocks, g.blocks, g.blocks.len() as int);
            }
        },
        _ => {},
    }
    assert(written(flushed(after)) =~= written(flushed(g)) + (match ev {
        EventView::TextDelta(s) => s,
        _ => seq![],
    }));
    assert(reasoned(flushed(after)) =~= reasoned(flushed(g)) + (match ev {
        EventView::ThinkingDelta(s) => s,
        _ => seq![],
    }));
}

/// How many of the events from `i` on count: those before the end of the response.
pub open spec fn counted_from(events: Seq<EventView>, i: int) -> int
    decreases events.len() - i,
{
    if i < 0 || i >= events.len() || !(progress_after(events[i]) is More) {
        i
    } else {
        counted_from(events, i + 1)
    }
}

/// Assembling loses no word: the message holds all the text and all the reasoning that its events
/// brought up to the end of the response, in order.
pub proof fn assembling_keeps_every_word(events: Seq<EventView>)
    ensures
        assembled_from(nothing_gathered(), events, 0) matches Ok((m, _)) ==> {
            &&& written(m.content) == text_brought(events, counted_from(events, 0))
            &&& reasoned(m.content) == thought_brought(events, counted_from(events, 0))
        },
{
    lemma_flushed_words(nothing_gathered());
    lemma_words_kept(nothing_gathered(), events, 0);
}

proof fn lemma_words_kept(g: Gathered, events: Seq<EventView>, i: int)
    requires
        0 <= i <= events.len(),
        calls_point_inside(g),
        written(flushed(g)) == text_brought(events, i),
        reasoned(flushed(g)) == thought_brought(events, i),
    ensures
        assembled_from(g, events, i) matches Ok((m, _)) ==> {
            &&& written(m.content) == text_brought(events, counted_from(events, i))
            &&& reasoned(m.content) == thought_brought(events, counted_from(events, i))
        },
    decreases events.len() - i,
{
    if i < events.len() && progress_after(events[i]) is More {
        an_event_adds_its_words(g, events[i]);
        assert(text_brought(events, i) + Seq::<char>::empty() =~= text_brought(events, i));
        assert(thought_brought(events, i) + Seq::<char>::empty() =~= thought_brought(events, i));
        lemma_words_kept(gathered_after(g, events[i]), events, i + 1);
    }
}

/// Fold a provider's events into an assistant [`Message`] plus its [`Usage`].
pub fn assemble(events: Vec<WireEvent>) -> (r: Result<(Message, Usage), String>)
    ensures
        ({
            let meant = assembled_from(nothing_gathered(), text::views(events@), 0);
            match r {
                Ok((m, u)) => meant == Ok::<_, Seq<char>>((m@, u)),
                Err(e) => meant == Err::<(MessageView, Usage), _>(e@),
            }
        }),
{
    let ghost all = text::views(events@);
    let ghost meant = assembled_from(nothing_gathered(), all, 0);
    let mut folded = Assembler::new();
    let mut pending = events;
    let n = pending.len();
    let mut i: usize = 0;
    while pending.len() > 0
        invariant
            i + pending@.len() == n,
            n == all.len(),
            folded.wf(),
            forall|k: int| 0 <= k < pending@.len() ==> (#[trigger] pending@[k])@ == all[i + k],
            meant == assembled_from(folded@, all, i as int),
            meant == assembled_from(nothing_gathered(), text::views(events@), 0),
        decreases pending@.len(),
    {
        let ghost was = pending@;
        let ev = pending.remove(0);
        assert(ev@ == all[i as int]) by {
            assert(was[0]@ == all[i + 0]);
        }
        match folded.push(ev) {
            Progress::More => {},
            Progress::Done => {
                return Ok(folded.finish());
            },
            Progress::Failed(e) => {
                return Err(e);
            },
        }
        i += 1;
        proof {
            assert forall|k: int| 0 <= k < pending@.len() implies (#[trigger] pending@[k])@ == all[i
                + k] by {
                assert(pending@[k] == was[k + 1]);
                assert(was[k + 1]@ == all[(i - 1) + (k + 1)]);
            }
        }
    }
    Ok(folded.finish())
}

// ---- events for the UI ----------------------------------------------------------------------

/// A display event emitted to the UI as a turn progresses.
#[derive(Debug, PartialEq)]
pub enum AgentEvent {
    TextDelta(String),
    ThinkingDelta(String),
    ToolStarted { id: String, name: String, input: Json },
    ToolFinished { id: String, name: String, output: ToolOutput },
    TurnComplete { usage: Usage },
    /// Activity from a spawned sub-agent, surfaced to the parent UI as a tree line.
    SubAgent { agent: String, note: String },
    Error(String),
}

/// The mathematical value of an [`AgentEvent`].
pub enum AgentEventView {
    TextDelta(Seq<char>),
    ThinkingDelta(Seq<char>),
    ToolStarted { id: Seq<char>, name: Seq<char>, input: JsonSpec },
    ToolFinished { id: Seq<char>, name: Seq<char>, output: OutputView },
    TurnComplete { usage: Usage },
    SubAgent { agent: Seq<char>, note: Seq<char> },
    Error(Seq<char>),
}

impl View for AgentEvent {
    type V = AgentEventView;

    open spec fn view(&self) -> AgentEventView {
        match self {
            AgentEvent::TextDelta(t) => AgentEventView::TextDelta(t@),
            AgentEvent::ThinkingDelta(t) => AgentEventView::ThinkingDelta(t@),
            AgentEvent::ToolStarted { id, name, input } => AgentEventView::ToolStarted {
                id: id@,
                name: name@,
                input: input.model(),
            },
            AgentEvent::ToolFinished { id, name, output } => AgentEventView::ToolFinished {
                id: id@,
                name: name@,
                output: output@,
            },
            AgentEvent::TurnComplete { usage } => AgentEventView::TurnComplete { usage: *usage },
            AgentEvent::SubAgent { agent, note } => AgentEventView::SubAgent {
                agent: agent@,
                note: note@,
            },
            AgentEvent::Error(e) => AgentEventView::Error(e@),
        }
    }
}

/// The live delta that a wire event shows. Tool starts are shown when the tool begins to run, with
/// its full arguments, rather than mid-stream.
pub open spec fn delta_shown(ev: EventView) -> Option<AgentEventView> {
    match ev {
        EventView::TextDelta(s) => Some(AgentEventView::TextDelta(s)),
        EventView::ThinkingDelta(s) => Some(AgentEventView::ThinkingDelta(s)),
        _ => None,
    }
}

/// The live delta that a wire event shows.
pub fn delta_event(ev: &WireEvent) -> (r: Option<AgentEvent>)
    ensures
        match r {
            Some(e) => delta_shown(ev@) == Some(e@),
            None => delta_shown(ev@) is None,
        },
{
    match ev {
        WireEvent::TextDelta(s) => Some(AgentEvent::TextDelta(s.clone())),
        WireEvent::ThinkingDelta(s) => Some(AgentEvent::ThinkingDelta(s.clone())),
        _ => None,
    }
}

// ---- the conversation -----------------------------------------------------------------------

/// A conversation: the system prompt, the model in use, and the running message history.
pub struct Session {
    pub system: String,
    pub model: String,
    pub messages: Vec<Message>,
    pub total_usage: Usage,
}

/// The mathematical value of a [`Session`].
pub struct SessionView {
    pub system: Seq<char>,
    pub model: Seq<char>,
    pub messages: Seq<MessageView>,
    pub total_usage: Usage,
}

impl View for Session {
    type V = SessionView;

    open spec fn view(&self) -> SessionView {
        SessionView {
            system: self.system@,
            model: self.model@,
            messages: text::views(self.messages@),
            total_usage: self.total_usage,
        }
    }
}

impl Session {
    pub fn new(system: &str, model: &str) -> (r: Session)
        ensures
            r@ == (SessionView {
                system: system@,
                model: model@,
                messages: seq![],
                total_usage: types::no_usage(),
            }),
    {
        let r = Session {
            system: system.to_string(),
            model: model.to_string(),
            messages: Vec::new(),
            total_usage: Usage { input_tokens: 0, output_tokens: 0, cache_read: 0, cache_write: 0 },
        };
        proof {
            text::views_empty(r.messages@);
        }
        r
    }

    pub fn push_user(&mut self, text: &str)
        ensures
            final(self)@ == (SessionView {
                messages: old(self)@.messages.push(types::user_text(text@)),
                ..old(self)@
            }),
    {
        self.messages.push(Message::user(text));
    }

    /// Push a user message built from arbitrary content blocks (e.g. text + images).
    pub fn push_user_content(&mut self, content: Vec<ContentBlock>)
        ensures
            final(self)@ == (SessionView {
                messages: old(self)@.messages.push(
                    MessageView { role: Role::User, content: text::views(content@) },
                ),
                ..old(self)@
            }),
    {
        self.messages.push(Message { role: Role::User, content });
    }
}

/// The sums fit.
pub open spec fn usage_fits(a: Usage, b: Usage) -> bool {
    &&& a.input_tokens + b.input_tokens <= u64::MAX
    &&& a.output_tokens + b.output_tokens <= u64::MAX
    &&& a.cache_read + b.cache_read <= u64::MAX
    &&& a.cache_write + b.cache_write <= u64::MAX
}

pub open spec fn usage_sum(a: Usage, b: Usage) -> Usage {
    Usage {
        input_tokens: (a.input_tokens + b.input_tokens) as u64,
        output_tokens: (a.output_tokens + b.output_tokens) as u64,
        cache_read: (a.cache_read + b.cache_read) as u64,
        cache_write: (a.cache_write + b.cache_write) as u64,
    }
}

pub fn add_usage(a: Usage, b: Usage) -> (r: Usage)
    requires
        usage_fits(a, b),
    ensures
        r == usage_sum(a, b),
{
    Usage {
        input_tokens: a.input_tokens + b.input_tokens,
        output_tokens: a.output_tokens + b.output_tokens,
        cache_read: a.cache_read + b.cache_read,
        cache_write: a.cache_write + b.cache_write,
    }
}

/// Whether [`add_usage`] can take the two.
pub fn can_add_usage(a: Usage, b: Usage) -> (r: bool)
    ensures
        r == usage_fits(a, b),
{
    a.input_tokens <= u64::MAX - b.input_tokens && a.output_tokens <= u64::MAX - b.output_tokens
        && a.cache_read <= u64::MAX - b.cache_read && a.cache_write <= u64::MAX - b.cache_write
}

// ---- a turn ---------------------------------------------------------------------------------

/// A tool call that the model asked for.
#[derive(Debug, PartialEq)]
pub struct ToolCall {
    pub id: String,
    pub name: String,
    pub input: Json,
}

/// The mathematical value of a [`ToolCall`].
pub struct CallView {
    pub id: Seq<char>,
    pub name: Seq<char>,
    pub input: JsonSpec,
}

impl View for ToolCall {
    type V = CallView;

    open spec fn view(&self) -> CallView {
        CallView { id: self.id@, name: self.name@, input: self.input.model() }
    }
}

/// What became of a tool call.
#[derive(Debug, PartialEq)]
pub enum Outcome {
    Output(ToolOutput),
    /// There is no tool of this name.
    Unknown,
    /// The user cancelled the turn while the tool ran.
    Interrupted,
}

/// The mathematical value of an [`Outcome`].
pub enum OutcomeView {
    Output(OutputView),
    Unknown,
    Interrupted,
}

impl View for Outcome {
    type V = OutcomeView;

    open spec fn view(&self) -> OutcomeView {
        match self {
            Outcome::Output(o) => OutcomeView::Output(o@),
            Outcome::Unknown => OutcomeView::Unknown,
            Outcome::Interrupted => OutcomeView::Interrupted,
        }
    }
}

/// What a turn waits for.
#[derive(Clone, Copy, PartialEq, Eq, Structural, Debug)]
pub enum Phase {
    /// The model's response.
    Asking,
    /// The outcome of a tool call.
    Running,
    /// Nothing: the turn is over.
    Over,
}

/// One user turn, driven to completion: ask, assemble, run tools, feed back, repeat until the model
/// stops requesting tools.
pub struct Turn {
    phase: Phase,
    calls: Vec<ToolCall>,
    results: Vec<ContentBlock>,
}

/// The mathematical value of a [`Turn`].
pub struct TurnView {
    pub phase: Phase,
    /// The calls of the round of tools that runs.
    pub calls: Seq<CallView>,
    /// The results of the first of them.
    pub results: Seq<BlockView>,
}

impl View for Turn {
    type V = TurnView;

    closed spec fn view(&self) -> TurnView {
        TurnView {
            phase: self.phase,
            calls: text::views(self.calls@),
            results: text::views(self.results@),
        }
    }
}

/// The tool calls among `content[..n]`.
pub open spec fn calls_in(content: Seq<BlockView>, n: int) -> Seq<CallView>
    decreases n,
{
    if n <= 0 {
        seq![]
    } else {
        match content[n - 1] {
            BlockView::ToolUse { id, name, input } => calls_in(content, n - 1).push(
                CallView { id, name, input },
            ),
            _ => calls_in(content, n - 1),
        }
    }
}

/// All the tool calls of a message.
pub open spec fn all_calls(content: Seq<BlockView>) -> Seq<CallView> {
    calls_in(content, content.len() as int)
}

/// The response as it counts: calls written as text are recovered, but only when the provider
/// produced no structured call.
pub open spec fn response_counted(m: MessageView) -> MessageView {
    if all_calls(m.content).len() > 0 {
        m
    } else {
        MessageView {
            role: m.role,
            content: toolcall_text::recovered(m.content, m.content.len() as int),
        }
    }
}

pub open spec fn has_text(content: Seq<BlockView>) -> bool {
    exists|i: int|
        0 <= i < content.len() && ((#[trigger] content[i]) matches BlockView::Text { text }
            && text.len() > 0)
}

/// The events that close a turn whose last response asked for no tool. A response without any text
/// is noted.
pub open spec fn closing_events(content: Seq<BlockView>, usage: Usage) -> Seq<AgentEventView> {
    let done = AgentEventView::TurnComplete { usage };
    if has_text(content) {
        seq![done]
    } else {
        Seq::empty().push(
            AgentEventView::Error("empty response — check the model name and endpoint"@),
        ).push(done)
    }
}

/// The output that an outcome stands for.
pub open spec fn outcome_output(name: Seq<char>, o: OutcomeView) -> OutputView {
    match o {
        OutcomeView::Output(out) => out,
        OutcomeView::Unknown => types::output_error("unknown tool: "@ + name),
        OutcomeView::Interrupted => types::output_error("interrupted"@),
    }
}

pub open spec fn result_block(id: Seq<char>, out: OutputView) -> BlockView {
    BlockView::ToolResult { id, out }
}

/// The results of the calls `calls[..n]`, where those that have none yet were interrupted.
pub open spec fn results_filled(results: Seq<BlockView>, calls: Seq<CallView>, n: int) -> Seq<
    BlockView,
>
    decreases n,
{
    if n <= results.len() {
        results
    } else {
        results_filled(results, calls, n - 1).push(
            result_block(calls[n - 1].id, types::output_error("interrupted"@)),
        )
    }
}

/// What a response does to the turn.
pub open spec fn turn_after_response(m: MessageView) -> TurnView {
    let calls = all_calls(response_counted(m).content);
    if calls.len() == 0 {
        TurnView { phase: Phase::Over, calls: seq![], results: seq![] }
    } else {
        TurnView { phase: Phase::Running, calls, results: seq![] }
    }
}

/// The results once the next call of the round has this outcome. Once interrupted, every remaining
/// call still gets a result, so that the tool message stays valid.
pub open spec fn results_after(t: TurnView, o: OutcomeView) -> Seq<BlockView> {
    let call = t.calls[t.results.len() as int];
    let results = t.results.push(result_block(call.id, outcome_output(call.name, o)));
    if o is Interrupted {
        results_filled(results, t.calls, t.calls.len() as int)
    } else {
        results
    }
}

/// What an outcome does to the turn.
pub open spec fn turn_after_outcome(t: TurnView, o: OutcomeView) -> TurnView {
    let results = results_after(t, o);
    if o is Interrupted {
        TurnView { phase: Phase::Over, calls: seq![], results: seq![] }
    } else if results.len() == t.calls.len() {
        TurnView { phase: Phase::Asking, calls: seq![], results: seq![] }
    } else {
        TurnView { results, ..t }
    }
}

/// The events of an outcome: the tool is finished, and an interrupted turn is complete.
pub open spec fn outcome_events(t: TurnView, o: OutcomeView) -> Seq<AgentEventView> {
    let call = t.calls[t.results.len() as int];
    let finished = AgentEventView::ToolFinished {
        id: call.id,
        name: call.name,
        output: outcome_output(call.name, o),
    };
    if o is Interrupted {
        Seq::empty().push(finished).push(
            AgentEventView::TurnComplete { usage: types::no_usage() },
        )
    } else {
        seq![finished]
    }
}

/// The history after an outcome: the results of a round are said once it is over.
pub open spec fn messages_after_outcome(
    messages: Seq<MessageView>,
    t: TurnView,
    o: OutcomeView,
) -> Seq<MessageView> {
    let results = results_after(t, o);
    if results.len() == t.calls.len() {
        messages.push(MessageView { role: Role::Tool, content: results })
    } else {
        messages
    }
}

/// A round of tools runs exactly while some of its calls have no result, and the results so far
/// answer the first calls, in order.
pub open spec fn turn_valid(t: TurnView) -> bool {
    &&& t.phase == Phase::Running ==> t.results.len() < t.calls.len()
    &&& t.phase != Phase::Running ==> t.calls.len() == 0 && t.results.len() == 0
    &&& forall|i: int|
        0 <= i < t.results.len() ==> ((#[trigger] t.results[i]) matches BlockView::ToolResult {
            id,
            ..
        } && id == t.calls[i].id)
}

proof fn lemma_results_filled(results: Seq<BlockView>, calls: Seq<CallView>, n: int)
    requires
        results.len() <= n <= calls.len(),
        forall|i: int|
            0 <= i < results.len() ==> ((#[trigger] results[i]) matches BlockView::ToolResult {
                id,
                ..
            } && id == calls[i].id),
    ensures
        results_filled(results, calls, n).len() == n,
        forall|i: int|
            0 <= i < n ==> ((#[trigger] results_filled(results, calls, n)[i]) matches
                BlockView::ToolResult { id, .. } && id == calls[i].id),
    decreases n,
{
    if n > results.len() {
        lemma_results_filled(results, calls, n - 1);
    }
}

/// No call goes unanswered: whatever becomes of the tools, the message that closes a round holds
/// exactly one result for each of its calls, in order, under the call's id. (Providers reject a
/// call without a matching result.)
pub proof fn every_call_is_answered(messages: Seq<MessageView>, t: TurnView, o: OutcomeView)
    requires
        t.phase == Phase::Running,
        turn_valid(t),
        turn_after_outcome(t, o).phase != Phase::Running,
    ensures
        ({
            let after = messages_after_outcome(messages, t, o);
            &&& after.len() == messages.len() + 1
            &&& after.last().role == Role::Tool
            &&& after.last().content.len() == t.calls.len()
            &&& forall|i: int|
                0 <= i < t.calls.len() ==> ((#[trigger] after.last().content[i]) matches
                    BlockView::ToolResult { id, .. } && id == t.calls[i].id)
        }),
{
    lemma_outcome(t, o);
}

proof fn lemma_outcome(t: TurnView, o: OutcomeView)
    requires
        t.phase == Phase::Running,
        turn_valid(t),
    ensures
        turn_valid(turn_after_outcome(t, o)),
        results_after(t, o).len() <= t.calls.len(),
        o is Interrupted ==> results_after(t, o).len() == t.calls.len(),
        forall|i: int|
            0 <= i < results_after(t, o).len() ==> ((#[trigger] results_after(t, o)[i]) matches
                BlockView::ToolResult { id, .. } && id == t.calls[i].id),
{
    let call = t.calls[t.results.len() as int];
    let results = t.results.push(result_block(call.id, outcome_output(call.name, o)));
    lemma_results_filled(results, t.calls, t.calls.len() as int);
}

/// The events that announce a call: the tool is shown with its arguments the moment it starts.
pub fn started_event(call: &ToolCall) -> (r: AgentEvent)
    ensures
        r@ == (AgentEventView::ToolStarted {
            id: call@.id,
            name: call@.name,
            input: call@.input,
        }),
{
    AgentEvent::ToolStarted {
        id: call.id.clone(),
        name: call.name.clone(),
        input: call.input.copy(),
    }
}

fn collect_calls(content: &Vec<ContentBlock>) -> (r: Vec<ToolCall>)
    ensures
        text::views(r@) == all_calls(text::views(content@)),
{
    let ghost cv = text::views(content@);
    let mut out: Vec<ToolCall> = Vec::new();
    proof {
        text::views_empty(out@);
    }
    let mut i: usize = 0;
    while i < content.len()
        invariant
            0 <= i <= content@.len(),
            cv == text::views(content@),
            text::views(out@) == calls_in(cv, i as int),
        decreases content@.len() - i,
    {
        assert(cv[i as int] == content@[i as int]@);
        if let ContentBlock::ToolUse { id, name, input } = &content[i] {
            out.push(ToolCall { id: id.clone(), name: name.clone(), input: input.copy() });
        }
        i += 1;
    }
    out
}

fn any_text(content: &Vec<ContentBlock>) -> (r: bool)
    ensures
        r == has_text(text::views(content@)),
{
    let ghost cv = text::views(content@);
    let mut i: usize = 0;
    while i < content.len()
        invariant
            0 <= i <= content@.len(),
            cv == text::views(content@),
            forall|k: int|
                0 <= k < i ==> !((#[trigger] cv[k]) matches BlockView::Text { text } && text.len()
                    > 0),
        decreases content@.len() - i,
    {
        assert(cv[i as int] == content@[i as int]@);
        if let ContentBlock::Text { text } = &content[i] {
            if text.as_str().unicode_len() > 0 {
                assert(cv[i as int] matches BlockView::Text { text } && text.len() > 0);
                return true;
            }
        }
        i += 1;
    }
    false
}

impl Turn {
    pub closed spec fn wf(&self) -> bool {
        turn_valid(self@)
    }

    /// A turn that waits for the model's first response.
    pub fn begin() -> (r: Turn)
        ensures
            r.wf(),
            r@ == (TurnView { phase: Phase::Asking, calls: seq![], results: seq![] }),
    {
        let r = Turn { phase: Phase::Asking, calls: Vec::new(), results: Vec::new() };
        proof {
            text::views_empty(r.calls@);
            text::views_empty(r.results@);
        }
        r
    }

    pub fn phase(&self) -> (r: Phase)
        ensures
            r == self@.phase,
    {
        self.phase
    }

    fn reset(&mut self, phase: Phase)
        requires
            phase != Phase::Running,
        ensures
            final(self)@ == (TurnView { phase, calls: seq![], results: seq![] }),
            final(self).wf(),
    {
        self.phase = phase;
        self.calls = Vec::new();
        self.results = Vec::new();
        proof {
            text::views_empty(self.calls@);
            text::views_empty(self.results@);
        }
    }

    /// The request to send.
    pub fn request(session: &Session, tools: Vec<ToolSpec>, max_tokens: Option<u32>) -> (r:
        ChatRequest)
        ensures
            r@ == (RequestView {
                model: session@.model,
                system: session@.system,
                messages: session@.messages,
                tools: text::views(tools@),
                max_tokens,
                temperature: None,
            }),
    {
        let messages = types::copy_messages(&session.messages, 0, session.messages.len());
        proof {
            assert(session@.messages.subrange(0, session@.messages.len() as int)
                =~= session@.messages);
        }
        ChatRequest {
            model: session.model.clone(),
            system: session.system.clone(),
            messages,
            tools,
            max_tokens,
            temperature: None,
        }
    }

    /// The user cancelled while the model was asked: the turn is complete.
    pub fn cancel(&mut self) -> (r: Vec<AgentEvent>)
        ensures
            final(self)@.phase == Phase::Over,
            final(self).wf(),
            text::views(r@) == seq![AgentEventView::TurnComplete { usage: types::no_usage() }],
    {
        self.reset(Phase::Over);
        let mut out: Vec<AgentEvent> = Vec::new();
        proof {
            text::views_empty(out@);
        }
        out.push(
            AgentEvent::TurnComplete {
                usage: Usage { input_tokens: 0, output_tokens: 0, cache_read: 0, cache_write: 0 },
            },
        );
        out
    }

    /// The model has responded. The response joins the history; it starts a round of tools, or ends
    /// the turn.
    pub fn response(&mut self, session: &mut Session, assistant: Message, usage: Usage) -> (r: Vec<
        AgentEvent,
    >)
        requires
            old(self)@.phase == Phase::Asking,
            usage_fits(old(session)@.total_usage, usage),
        ensures
            final(self).wf(),
            final(self)@ == turn_after_response(assistant@),
            final(session)@ == (SessionView {
                messages: old(session)@.messages.push(response_counted(assistant@)),
                total_usage: usage_sum(old(session)@.total_usage, usage),
                ..old(session)@
            }),
            text::views(r@) == (if final(self)@.phase == Phase::Over {
                closing_events(response_counted(assistant@).content, usage)
            } else {
                seq![]
            }),
    {
        let mut assistant = assistant;
        session.total_usage = add_usage(session.total_usage, usage);
        // Some models (Gemma, Qwen/Hermes-style, and endpoints that render tool calls as text)
        // don't populate the structured `tool_calls` field: recover any text-encoded calls so they
        // execute normally.
        let structured = collect_calls(&assistant.content);
        assert(text::views(structured@).len() == structured@.len());
        let calls = if structured.len() > 0 {
            structured
        } else {
            toolcall_text::recover_text_tool_calls(&mut assistant);
            collect_calls(&assistant.content)
        };
        assert(text::views(calls@).len() == calls@.len());
        let has_text = any_text(&assistant.content);
        session.messages.push(assistant);
        let mut out: Vec<AgentEvent> = Vec::new();
        proof {
            text::views_empty(out@);
        }
        if calls.len() == 0 {
            self.reset(Phase::Over);
            if !has_text {
                // Surface a note when the model returned nothing (e.g. bad model / endpoint).
                out.push(
                    AgentEvent::Error(
                        "empty response — check the model name and endpoint".to_string(),
                    ),
                );
            }
            out.push(AgentEvent::TurnComplete { usage });
        } else {
            self.reset(Phase::Over);
            self.calls = calls;
            self.phase = Phase::Running;
        }
        out
    }

    /// The call to run next.
    pub fn next_call(&self) -> (r: Option<&ToolCall>)
        requires
            self.wf(),
        ensures
            match r {
                Some(c) => self@.phase == Phase::Running && c@
                    == self@.calls[self@.results.len() as int],
                None => self@.phase != Phase::Running,
            },
    {
        proof {
            assert(self@.calls.len() == self.calls@.len());
            assert(self@.results.len() == self.results@.len());
        }
        if self.phase == Phase::Running {
            Some(&self.calls[self.results.len()])
        } else {
            None
        }
    }

    /// The call that ran has this outcome. The results of a finished round join the history.
    pub fn outcome(&mut self, session: &mut Session, outcome: Outcome) -> (r: Vec<AgentEvent>)
        requires
            old(self).wf(),
            old(self)@.phase == Phase::Running,
        ensures
            final(self).wf(),
            final(self)@ == turn_after_outcome(old(self)@, outcome@),
            final(session)@ == (SessionView {
                messages: messages_after_outcome(old(session)@.messages, old(self)@, outcome@),
                ..old(session)@
            }),
            text::views(r@) == outcome_events(old(self)@, outcome@),
    {
        let ghost t = self@;
        proof {
            assert(t.calls.len() == self.calls@.len());
            assert(t.results.len() == self.results@.len());
            lemma_outcome(t, outcome@);
        }
        let k = self.results.len();
        assert(t.calls[k as int] == self.calls@[k as int]@);
        let id = self.calls[k].id.clone();
        let name = self.calls[k].name.clone();
        let interrupted = match &outcome {
            Outcome::Interrupted => true,
            _ => false,
        };
        let output = match outcome {
            Outcome::Output(o) => o,
            Outcome::Unknown => ToolOutput::error(
                text::concat2("unknown tool: ", name.as_str()).as_str(),
            ),
            Outcome::Interrupted => ToolOutput::error("interrupted"),
        };
        let mut out: Vec<AgentEvent> = Vec::new();
        proof {
            text::views_empty(out@);
        }
        out.push(AgentEvent::ToolFinished { id: id.clone(), name, output: output.copy() });
        self.results.push(ContentBlock::ToolResult { id, out: output });
        let ghost first = text::views(self.results@);
        let n = self.calls.len();
        if interrupted {
            while self.results.len() < n
                invariant
                    n == self.calls@.len(),
                    text::views(self.calls@) == t.calls,
                    first.len() <= self.results@.len() <= n,
                    text::views(self.results@) == results_filled(
                        first,
                        t.calls,
                        self.results@.len() as int,
                    ),
                decreases n - self.results@.len(),
            {
                let i = self.results.len();
                assert(t.calls[i as int] == self.calls@[i as int]@);
                let id = self.calls[i].id.clone();
                self.results.push(
                    ContentBlock::ToolResult { id, out: ToolOutput::error("interrupted") },
                );
            }
            out.push(
                AgentEvent::TurnComplete {
                    usage: Usage {
                        input_tokens: 0,
                        output_tokens: 0,
                        cache_read: 0,
                        cache_write: 0,
                    },
                },
            );
        }
        assert(text::views(self.results@) == results_after(t, outcome@));
        assert(self.results@.len() == results_after(t, outcome@).len());
        if self.results.len() == n {
            let mut content: Vec<ContentBlock> = Vec::new();
            std::mem::swap(&mut content, &mut self.results);
            session.messages.push(Message { role: Role::Tool, content });
            if interrupted {
                self.reset(Phase::Over);
            } else {
                self.reset(Phase::Asking);
            }
        }
        out
    }
}

/// What a session used is the sum of what its answers used, each kind of token by itself.
pub proof fn usage_adds_up(a: Usage, b: Usage)
    requires
        usage_fits(a, b),
    ensures
        usage_sum(a, b).input_tokens == a.input_tokens + b.input_tokens,
        usage_sum(a, b).output_tokens == a.output_tokens + b.output_tokens,
        usage_sum(a, b).cache_read == a.cache_read + b.cache_read,
        usage_sum(a, b).cache_write == a.cache_write + b.cache_write,
{
}

/// Text and thoughts are shown as they come, and nothing else of a stream is.
pub proof fn deltas_are_shown_as_they_come(s: Seq<char>, ev: EventView)
    ensures
        delta_shown(EventView::TextDelta(s)) == Some(AgentEventView::TextDelta(s)),
        delta_shown(EventView::ThinkingDelta(s)) == Some(AgentEventView::ThinkingDelta(s)),
        !(ev is TextDelta) && !(ev is ThinkingDelta) ==> delta_shown(ev) is None,
{
}

} // verus!
