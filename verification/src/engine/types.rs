//! The canonical model: the single representation every layer speaks.
//!
//! Provider wire formats (OpenAI Chat / OpenAI Responses / Anthropic Messages) are translated to and
//! from these types inside their adapters and never leak past them. The agent loop and the tools
//! only ever touch what is defined here.

use crate::json::{Json, JsonSpec, Number, NumberSpec};
use crate::text;
use vstd::prelude::*;
use vstd::string::*;

verus! {

/// Who authored a [`Message`].
#[derive(Debug, Clone, Copy, PartialEq, Eq, Structural)]
pub enum Role {
    System,
    User,
    Assistant,
    Tool,
}

/// One piece of a message. A message is a sequence of these, allowing interleaved text, reasoning,
/// tool calls, tool results, and images.
#[derive(Debug, PartialEq)]
pub enum ContentBlock {
    Text { text: String },
    Thinking { text: String },
    ToolUse { id: String, name: String, input: Json },
    ToolResult { id: String, out: ToolOutput },
    Image { media_type: String, data: String },
}

/// The result of running a tool. `saved` records tokens the native optimizer removed from `text`
/// (0 when optimization was off or not applicable).
#[derive(Debug, PartialEq)]
pub struct ToolOutput {
    pub text: String,
    pub is_error: bool,
    pub saved: u64,
}

/// A full turn's message in the canonical model.
#[derive(Debug, PartialEq)]
pub struct Message {
    pub role: Role,
    pub content: Vec<ContentBlock>,
}

/// The normalized streaming event every provider adapter emits.
#[derive(Debug, Clone, PartialEq)]
pub enum WireEvent {
    TextDelta(String),
    ThinkingDelta(String),
    ToolUseStart { id: String, name: String },
    /// A fragment of the tool call's argument JSON (streamed incrementally).
    ToolInputDelta { id: String, json: String },
    ToolUseEnd { id: String },
    Usage(Usage),
    Done,
    Error(String),
}

/// Token accounting for a turn.
#[derive(Debug, Clone, Copy, PartialEq, Eq, Structural)]
pub struct Usage {
    pub input_tokens: u64,
    pub output_tokens: u64,
    pub cache_read: u64,
    pub cache_write: u64,
}

/// What a provider/model can do. Drives adapter behavior and UI affordances.
#[derive(Debug, Clone, Copy, PartialEq, Eq, Structural)]
pub struct Caps {
    pub thinking: bool,
    pub tools: bool,
    pub images: bool,
    pub prompt_cache: bool,
    /// Provider offers server-side context management (Anthropic context editing / OpenAI
    /// Responses compaction). When false, the client-side compactor is mandatory.
    pub native_context_mgmt: bool,
}

/// A tool advertised to the model, in canonical form. Adapters render this into each provider's
/// tool-spec shape.
#[derive(Debug, PartialEq)]
pub struct ToolSpec {
    pub name: String,
    pub description: String,
    pub input_schema: Json,
}

/// A request to a provider, canonical. Adapters translate this into their wire body.
#[derive(Debug, PartialEq)]
pub struct ChatRequest {
    pub model: String,
    pub system: String,
    pub messages: Vec<Message>,
    pub tools: Vec<ToolSpec>,
    pub max_tokens: Option<u32>,
    pub temperature: Option<Number>,
}

// ---- mathematical values --------------------------------------------------------------------

/// The mathematical value of a [`ToolOutput`].
pub struct OutputView {
    pub text: Seq<char>,
    pub is_error: bool,
    pub saved: u64,
}

/// The mathematical value of a [`ContentBlock`].
pub enum BlockView {
    Text { text: Seq<char> },
    Thinking { text: Seq<char> },
    ToolUse { id: Seq<char>, name: Seq<char>, input: JsonSpec },
    ToolResult { id: Seq<char>, out: OutputView },
    Image { media_type: Seq<char>, data: Seq<char> },
}

/// The mathematical value of a [`Message`].
pub struct MessageView {
    pub role: Role,
    pub content: Seq<BlockView>,
}

/// The mathematical value of a [`WireEvent`].
pub enum EventView {
    TextDelta(Seq<char>),
    ThinkingDelta(Seq<char>),
    ToolUseStart { id: Seq<char>, name: Seq<char> },
    ToolInputDelta { id: Seq<char>, json: Seq<char> },
    ToolUseEnd { id: Seq<char> },
    Usage(Usage),
    Done,
    Error(Seq<char>),
}

/// The mathematical value of a [`ToolSpec`].
pub struct ToolView {
    pub name: Seq<char>,
    pub description: Seq<char>,
    pub input_schema: JsonSpec,
}

/// The mathematical value of a [`ChatRequest`].
pub struct RequestView {
    pub model: Seq<char>,
    pub system: Seq<char>,
    pub messages: Seq<MessageView>,
    pub tools: Seq<ToolView>,
    pub max_tokens: Option<u32>,
    pub temperature: Option<NumberSpec>,
}

impl View for ToolOutput {
    type V = OutputView;

    open spec fn view(&self) -> OutputView {
        OutputView { text: self.text@, is_error: self.is_error, saved: self.saved }
    }
}

impl View for ContentBlock {
    type V = BlockView;

    open spec fn view(&self) -> BlockView {
        match self {
            ContentBlock::Text { text } => BlockView::Text { text: text@ },
            ContentBlock::Thinking { text } => BlockView::Thinking { text: text@ },
            ContentBlock::ToolUse { id, name, input } => BlockView::ToolUse {
                id: id@,
                name: name@,
                input: input.model(),
            },
            ContentBlock::ToolResult { id, out } => BlockView::ToolResult { id: id@, out: out@ },
            ContentBlock::Image { media_type, data } => BlockView::Image {
                media_type: media_type@,
                data: data@,
            },
        }
    }
}

impl View for Message {
    type V = MessageView;

    open spec fn view(&self) -> MessageView {
        MessageView { role: self.role, content: text::views(self.content@) }
    }
}

impl View for WireEvent {
    type V = EventView;

    open spec fn view(&self) -> EventView {
        match self {
            WireEvent::TextDelta(t) => EventView::TextDelta(t@),
            WireEvent::ThinkingDelta(t) => EventView::ThinkingDelta(t@),
            WireEvent::ToolUseStart { id, name } => EventView::ToolUseStart {
                id: id@,
                name: name@,
            },
            WireEvent::ToolInputDelta { id, json } => EventView::ToolInputDelta {
                id: id@,
                json: json@,
            },
            WireEvent::ToolUseEnd { id } => EventView::ToolUseEnd { id: id@ },
            WireEvent::Usage(u) => EventView::Usage(*u),
            WireEvent::Done => EventView::Done,
            WireEvent::Error(m) => EventView::Error(m@),
        }
    }
}

impl View for ToolSpec {
    type V = ToolView;

    open spec fn view(&self) -> ToolView {
        ToolView {
            name: self.name@,
            description: self.description@,
            input_schema: self.input_schema.model(),
        }
    }
}

impl View for ChatRequest {
    type V = RequestView;

    open spec fn view(&self) -> RequestView {
        RequestView {
            model: self.model@,
            system: self.system@,
            messages: text::views(self.messages@),
            tools: text::views(self.tools@),
            max_tokens: self.max_tokens,
            temperature: match self.temperature {
                Some(n) => Some(n@),
                None => None,
            },
        }
    }
}

/// The texts among `content[..n]`, one after the other.
pub open spec fn texts_in(content: Seq<BlockView>, n: int) -> Seq<char>
    decreases n,
{
    if n <= 0 {
        seq![]
    } else {
        match content[n - 1] {
            BlockView::Text { text } => texts_in(content, n - 1) + text,
            _ => texts_in(content, n - 1),
        }
    }
}

/// The texts of a message's blocks, one after the other.
pub fn joined_text(content: &Vec<ContentBlock>) -> (r: String)
    ensures
        r@ == texts_in(text::views(content@), content@.len() as int),
{
    let ghost all = text::views(content@);
    let mut out = String::new();
    assert(out@ =~= seq![]);
    let mut i: usize = 0;
    while i < content.len()
        invariant
            0 <= i <= content@.len(),
            all == text::views(content@),
            out@ == texts_in(all, i as int),
        decreases content@.len() - i,
    {
        assert(all[i as int] == content@[i as int]@);
        if let ContentBlock::Text { text } = &content[i] {
            out.append(text.as_str());
        }
        i += 1;
    }
    out
}

// ---- building and copying -------------------------------------------------------------------

impl Default for Usage {
    fn default() -> (r: Usage)
        ensures
            r == no_usage(),
    {
        Usage { input_tokens: 0, output_tokens: 0, cache_read: 0, cache_write: 0 }
    }
}

/// No tokens at all.
pub open spec fn no_usage() -> Usage {
    Usage { input_tokens: 0, output_tokens: 0, cache_read: 0, cache_write: 0 }
}

impl Default for Caps {
    fn default() -> (r: Caps)
        ensures
            !r.thinking && !r.tools && !r.images && !r.prompt_cache && !r.native_context_mgmt,
    {
        Caps {
            thinking: false,
            tools: false,
            images: false,
            prompt_cache: false,
            native_context_mgmt: false,
        }
    }
}

impl ContentBlock {
    /// A block of text.
    pub fn text(s: &str) -> (r: ContentBlock)
        ensures
            r@ == (BlockView::Text { text: s@ }),
    {
        ContentBlock::Text { text: s.to_string() }
    }

    /// The block again.
    pub fn copy(&self) -> (r: ContentBlock)
        ensures
            r@ == self@,
    {
        match self {
            ContentBlock::Text { text } => ContentBlock::Text { text: text.clone() },
            ContentBlock::Thinking { text } => ContentBlock::Thinking { text: text.clone() },
            ContentBlock::ToolUse { id, name, input } => ContentBlock::ToolUse {
                id: id.clone(),
                name: name.clone(),
                input: input.copy(),
            },
            ContentBlock::ToolResult { id, out } => ContentBlock::ToolResult {
                id: id.clone(),
                out: out.copy(),
            },
            ContentBlock::Image { media_type, data } => ContentBlock::Image {
                media_type: media_type.clone(),
                data: data.clone(),
            },
        }
    }
}

/// The value of a successful output.
pub open spec fn output_ok(text: Seq<char>) -> OutputView {
    OutputView { text, is_error: false, saved: 0 }
}

/// The value of a failed output.
pub open spec fn output_error(text: Seq<char>) -> OutputView {
    OutputView { text, is_error: true, saved: 0 }
}

impl ToolOutput {
    pub fn ok(text: &str) -> (r: ToolOutput)
        ensures
            r@ == output_ok(text@),
    {
        ToolOutput { text: text.to_string(), is_error: false, saved: 0 }
    }

    pub fn error(text: &str) -> (r: ToolOutput)
        ensures
            r@ == output_error(text@),
    {
        ToolOutput { text: text.to_string(), is_error: true, saved: 0 }
    }

    /// The output again.
    pub fn copy(&self) -> (r: ToolOutput)
        ensures
            r@ == self@,
    {
        ToolOutput { text: self.text.clone(), is_error: self.is_error, saved: self.saved }
    }
}

impl Message {
    /// A user message of one text block.
    pub fn user(text: &str) -> (r: Message)
        ensures
            r@ == user_text(text@),
    {
        let mut content: Vec<ContentBlock> = Vec::new();
        content.push(ContentBlock::text(text));
        let m = Message { role: Role::User, content };
        assert(m@.content =~= user_text(text@).content);
        m
    }

    pub fn assistant(content: Vec<ContentBlock>) -> (r: Message)
        ensures
            r@ == (MessageView { role: Role::Assistant, content: text::views(content@) }),
    {
        Message { role: Role::Assistant, content }
    }

    /// The message again.
    pub fn copy(&self) -> (r: Message)
        ensures
            r@ == self@,
    {
        let mut content: Vec<ContentBlock> = Vec::new();
        let mut i: usize = 0;
        while i < self.content.len()
            invariant
                0 <= i <= self.content@.len(),
                content@.len() == i,
                forall|k: int| 0 <= k < i ==> (#[trigger] content@[k])@ == self.content@[k]@,
            decreases self.content@.len() - i,
        {
            content.push(self.content[i].copy());
            i += 1;
        }
        assert(text::views(content@) =~= text::views(self.content@));
        Message { role: self.role, content }
    }
}

/// A user message of one text block.
pub open spec fn user_text(text: Seq<char>) -> MessageView {
    MessageView { role: Role::User, content: seq![BlockView::Text { text }] }
}

/// The messages `from[i..]` again.
pub fn copy_messages(from: &Vec<Message>, start: usize, end: usize) -> (r: Vec<Message>)
    requires
        start <= end <= from@.len(),
    ensures
        text::views(r@) == text::views(from@).subrange(start as int, end as int),
        r@.len() == end - start,
{
    let mut out: Vec<Message> = Vec::new();
    let mut i: usize = start;
    while i < end
        invariant
            start <= i <= end <= from@.len(),
            out@.len() == i - start,
            forall|k: int| 0 <= k < i - start ==> (#[trigger] out@[k])@ == from@[start + k]@,
        decreases end - i,
    {
        out.push(from[i].copy());
        i += 1;
    }
    assert(text::views(out@) =~= text::views(from@).subrange(start as int, end as int));
    out
}

impl ToolSpec {
    /// The tool's description again.
    pub fn copy(&self) -> (r: ToolSpec)
        ensures
            r@ == self@,
    {
        ToolSpec {
            name: self.name.clone(),
            description: self.description.clone(),
            input_schema: self.input_schema.copy(),
        }
    }
}

// ---- what holds of them ---------------------------------------------------------------------

/// The text of a message is that of its text blocks, all of them and in order; other blocks add
/// nothing.
pub proof fn the_text_is_that_of_the_text_blocks(content: Seq<BlockView>, n: int)
    requires
        0 <= n <= content.len(),
    ensures
        texts_in(content, n) == content.take(n).map_values(
            |b: BlockView|
                if b is Text {
                    b->Text_text
                } else {
                    Seq::<char>::empty()
                },
        ).flatten(),
    decreases n,
{
    let read = |b: BlockView|
        if b is Text {
            b->Text_text
        } else {
            Seq::<char>::empty()
        };
    let some = content.take(n).map_values(read);
    if n <= 0 {
        assert(some =~= Seq::empty());
    } else {
        the_text_is_that_of_the_text_blocks(content, n - 1);
        let fewer = content.take(n - 1).map_values(read);
        assert(some =~= fewer.push(read(content[n - 1])));
        fewer.lemma_flatten_push(read(content[n - 1]));
        assert(texts_in(content, n) =~= fewer.flatten() + read(content[n - 1]));
    }
}

/// What a user says is one message of theirs whose text is what they said.
pub proof fn a_user_message_says_the_text(text: Seq<char>)
    ensures
        user_text(text).role is User,
        user_text(text).content.len() == 1,
        texts_in(user_text(text).content, 1) == text,
        !output_ok(text).is_error && output_ok(text).text == text,
        output_error(text).is_error && output_error(text).text == text,
{
    reveal_with_fuel(texts_in, 2);
    assert(Seq::<char>::empty() + text =~= text);
}

} // verus!
