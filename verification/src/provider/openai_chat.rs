//! OpenAI Chat Completions adapter.
//!
//! Two halves:
//! - [`ChatStreamParser`], a stateful mapper from streamed `data:` payloads to canonical
//!   [`WireEvent`]s. Tool calls arrive as fragments keyed by array `index`; the parser stitches
//!   them (id+name on first sight, argument JSON in pieces, close on `finish_reason`).
//! - [`OpenAiChat`], which renders a canonical request to the wire body.

use crate::engine::types;
use crate::engine::types::{
    BlockView, Caps, ChatRequest, ContentBlock, EventView, Message, MessageView, RequestView, Role,
    ToolSpec, ToolView, Usage, WireEvent,
};
use crate::json;
use crate::json::{Json, JsonSpec, NumberSpec};
use crate::text;
use std::collections::HashMap;
use vstd::prelude::*;
use vstd::string::*;

verus! {

broadcast use {vstd::std_specs::hash::group_hash_axioms, crate::text::views_push};

// ---- wire response shapes (only the fields we consume) --------------------------------------

pub struct FnDelta {
    pub name: Option<String>,
    pub arguments: Option<String>,
}

pub struct ToolCallDelta {
    pub index: u64,
    pub id: Option<String>,
    pub function: Option<FnDelta>,
}

pub struct Choice {
    pub content: Option<String>,
    pub tool_calls: Vec<ToolCallDelta>,
    pub finish_reason: Option<String>,
}

pub struct ChatChunk {
    pub choices: Vec<Choice>,
    pub usage: Option<(u64, u64)>,
}

/// The mathematical value of an [`FnDelta`].
pub struct FnDeltaView {
    pub name: Option<Seq<char>>,
    pub arguments: Option<Seq<char>>,
}

/// The mathematical value of a [`ToolCallDelta`].
pub struct CallView {
    pub index: u64,
    pub id: Option<Seq<char>>,
    pub function: Option<FnDeltaView>,
}

/// The mathematical value of a [`Choice`].
pub struct ChoiceView {
    pub content: Option<Seq<char>>,
    pub tool_calls: Seq<CallView>,
    pub finish_reason: Option<Seq<char>>,
}

/// The mathematical value of a [`ChatChunk`]. The usage is prompt and completion tokens.
pub struct ChunkView {
    pub choices: Seq<ChoiceView>,
    pub usage: Option<(u64, u64)>,
}

impl View for FnDelta {
    type V = FnDeltaView;

    open spec fn view(&self) -> FnDeltaView {
        FnDeltaView { name: text::opt_view(self.name), arguments: text::opt_view(self.arguments) }
    }
}

impl View for ToolCallDelta {
    type V = CallView;

    open spec fn view(&self) -> CallView {
        CallView {
            index: self.index,
            id: text::opt_view(self.id),
            function: match self.function {
                Some(f) => Some(f@),
                None => None,
            },
        }
    }
}

impl View for Choice {
    type V = ChoiceView;

    open spec fn view(&self) -> ChoiceView {
        ChoiceView {
            content: text::opt_view(self.content),
            tool_calls: text::views(self.tool_calls@),
            finish_reason: text::opt_view(self.finish_reason),
        }
    }
}

impl View for ChatChunk {
    type V = ChunkView;

    open spec fn view(&self) -> ChunkView {
        ChunkView { choices: text::views(self.choices@), usage: self.usage }
    }
}

/// The function part of a tool call fragment.
pub open spec fn fn_delta_in(j: JsonSpec) -> Option<FnDeltaView> {
    let name = json::optional_string(json::slot(j, "name"@, 0));
    let arguments = json::optional_string(json::slot(j, "arguments"@, 1));
    if json::is_record(j, 2) && name is Some && arguments is Some {
        Some(FnDeltaView { name: name->0, arguments: arguments->0 })
    } else {
        None
    }
}

/// A tool call fragment. Its index is required.
pub open spec fn call_in(j: JsonSpec) -> Option<CallView> {
    let index = match json::slot(j, "index"@, 0) {
        Some(v) => json::u64_in(v),
        None => None,
    };
    let id = json::optional_string(json::slot(j, "id"@, 1));
    let function: Option<Option<FnDeltaView>> = match json::slot(j, "function"@, 2) {
        None => Some(None),
        Some(JsonSpec::Null) => Some(None),
        Some(v) => match fn_delta_in(v) {
            Some(f) => Some(Some(f)),
            None => None,
        },
    };
    if json::is_record(j, 3) && index is Some && id is Some && function is Some {
        Some(CallView { index: index->0, id: id->0, function: function->0 })
    } else {
        None
    }
}

/// The tool call fragments `items[i..]`, when every one of them fits.
pub open spec fn calls_from(items: Seq<JsonSpec>, i: int) -> Option<Seq<CallView>>
    decreases items.len() - i,
{
    if i < 0 || i >= items.len() {
        Some(seq![])
    } else {
        match (call_in(items[i]), calls_from(items, i + 1)) {
            (Some(c), Some(rest)) => Some(seq![c] + rest),
            _ => None,
        }
    }
}

/// A list in a field, where absent and null stand for the empty list.
pub open spec fn items_or_none(v: Option<JsonSpec>) -> Option<Seq<JsonSpec>> {
    match v {
        None => Some(seq![]),
        Some(JsonSpec::Null) => Some(seq![]),
        Some(JsonSpec::Array(items)) => Some(items),
        _ => None,
    }
}

/// The content and the tool calls of a delta.
pub open spec fn delta_in(j: JsonSpec) -> Option<(Option<Seq<char>>, Seq<CallView>)> {
    let content = json::optional_string(json::slot(j, "content"@, 0));
    let items = items_or_none(json::slot(j, "tool_calls"@, 1));
    if json::is_record(j, 2) && content is Some && items is Some && calls_from(items->0, 0) is Some {
        Some((content->0, calls_from(items->0, 0)->0))
    } else {
        None
    }
}

/// One choice. A missing delta is an empty one.
pub open spec fn choice_in(j: JsonSpec) -> Option<ChoiceView> {
    let delta = match json::slot(j, "delta"@, 0) {
        Some(v) => delta_in(v),
        None => Some((None, seq![])),
    };
    let finish_reason = json::optional_string(json::slot(j, "finish_reason"@, 1));
    if json::is_record(j, 2) && delta is Some && finish_reason is Some {
        Some(
            ChoiceView {
                content: (delta->0).0,
                tool_calls: (delta->0).1,
                finish_reason: finish_reason->0,
            },
        )
    } else {
        None
    }
}

/// The choices `items[i..]`, when every one of them fits.
pub open spec fn choices_from(items: Seq<JsonSpec>, i: int) -> Option<Seq<ChoiceView>>
    decreases items.len() - i,
{
    if i < 0 || i >= items.len() {
        Some(seq![])
    } else {
        match (choice_in(items[i]), choices_from(items, i + 1)) {
            (Some(c), Some(rest)) => Some(seq![c] + rest),
            _ => None,
        }
    }
}

/// The token counts: both are required.
pub open spec fn counts_in(j: JsonSpec) -> Option<(u64, u64)> {
    match (json::slot(j, "prompt_tokens"@, 0), json::slot(j, "completion_tokens"@, 1)) {
        (Some(p), Some(c)) => match (json::u64_in(p), json::u64_in(c)) {
            (Some(a), Some(b)) => if json::is_record(j, 2) {
                Some((a, b))
            } else {
                None
            },
            _ => None,
        },
        _ => None,
    }
}

/// A chunk of the stream, when the value has its shape throughout.
pub open spec fn chunk_in(j: JsonSpec) -> Option<ChunkView> {
    let items = items_or_none(json::slot(j, "choices"@, 0));
    let usage: Option<Option<(u64, u64)>> = match json::slot(j, "usage"@, 1) {
        None => Some(None),
        Some(JsonSpec::Null) => Some(None),
        Some(v) => match counts_in(v) {
            Some(u) => Some(Some(u)),
            None => None,
        },
    };
    if json::is_record(j, 2) && items is Some && usage is Some && choices_from(items->0, 0)
        is Some {
        Some(ChunkView { choices: choices_from(items->0, 0)->0, usage: usage->0 })
    } else {
        None
    }
}

/// The chunk that a value says: nothing at all when it has another shape.
pub open spec fn chunk_of(j: JsonSpec) -> ChunkView {
    match chunk_in(j) {
        Some(c) => c,
        None => ChunkView { choices: seq![], usage: None },
    }
}

fn fn_delta(j: &Json) -> (r: Result<FnDelta, ()>)
    ensures
        match r {
            Ok(f) => fn_delta_in(j.model()) == Some(f@),
            Err(_) => fn_delta_in(j.model()) is None,
        },
{
    if !j.is_record(2) {
        return Err(());
    }
    let name = match j.optional_string("name", 0) {
        Ok(s) => s,
        Err(_) => {
            return Err(());
        },
    };
    let arguments = match j.optional_string("arguments", 1) {
        Ok(s) => s,
        Err(_) => {
            return Err(());
        },
    };
    Ok(FnDelta { name, arguments })
}

fn call(j: &Json) -> (r: Result<ToolCallDelta, ()>)
    ensures
        match r {
            Ok(c) => call_in(j.model()) == Some(c@),
            Err(_) => call_in(j.model()) is None,
        },
{
    if !j.is_record(3) {
        return Err(());
    }
    let index: u64 = match j.slot("index", 0) {
        Some(v) => match v.as_u64() {
            Some(n) => n,
            None => {
                return Err(());
            },
        },
        None => {
            return Err(());
        },
    };
    let id = match j.optional_string("id", 1) {
        Ok(s) => s,
        Err(_) => {
            return Err(());
        },
    };
    let function = match j.slot("function", 2) {
        None => None,
        Some(v) => if v.is_null() {
            None
        } else {
            match fn_delta(v) {
                Ok(f) => Some(f),
                Err(_) => {
                    return Err(());
                },
            }
        },
    };
    Ok(ToolCallDelta { index, id, function })
}

fn calls(items: &Vec<Json>) -> (r: Result<Vec<ToolCallDelta>, ()>)
    ensures
        match r {
            Ok(v) => calls_from(json::items_model(items@), 0) == Some(text::views(v@)),
            Err(_) => calls_from(json::items_model(items@), 0) is None,
        },
{
    let ghost all = json::items_model(items@);
    let ghost meant = calls_from(all, 0);
    let mut out: Vec<ToolCallDelta> = Vec::new();
    let mut i: usize = 0;
    proof {
        if meant is Some {
            assert(text::views(out@) + meant->0 =~= meant->0);
        }
    }
    while i < items.len()
        invariant
            0 <= i <= items@.len(),
            all == json::items_model(items@),
            meant == calls_from(all, 0),
            meant == (match calls_from(all, i as int) {
                Some(rest) => Some(text::views(out@) + rest),
                None => None,
            }),
        decreases items@.len() - i,
    {
        let ghost before = text::views(out@);
        assert(all[i as int] == items@[i as int].model());
        match call(&items[i]) {
            Ok(c) => {
                out.push(c);
                proof {
                    let rest = calls_from(all, i + 1);
                    if rest is Some {
                        assert(before + (seq![c@] + rest->0) =~= text::views(out@) + rest->0);
                    }
                }
            },
            Err(_) => {
                return Err(());
            },
        }
        i += 1;
    }
    assert(text::views(out@) + Seq::<CallView>::empty() =~= text::views(out@));
    Ok(out)
}

fn delta(j: &Json) -> (r: Result<(Option<String>, Vec<ToolCallDelta>), ()>)
    ensures
        match r {
            Ok((content, v)) => delta_in(j.model()) == Some(
                (text::opt_view(content), text::views(v@)),
            ),
            Err(_) => delta_in(j.model()) is None,
        },
{
    if !j.is_record(2) {
        return Err(());
    }
    let content = match j.optional_string("content", 0) {
        Ok(s) => s,
        Err(_) => {
            return Err(());
        },
    };
    let tool_calls = match j.slot("tool_calls", 1) {
        None => {
            let v: Vec<ToolCallDelta> = Vec::new();
            assert(text::views(v@) =~= seq![]);
            v
        },
        Some(v) => if v.is_null() {
            let v: Vec<ToolCallDelta> = Vec::new();
            assert(text::views(v@) =~= seq![]);
            v
        } else {
            match v.as_array() {
                Some(items) => match calls(items) {
                    Ok(c) => c,
                    Err(_) => {
                        return Err(());
                    },
                },
                None => {
                    return Err(());
                },
            }
        },
    };
    Ok((content, tool_calls))
}

fn choice(j: &Json) -> (r: Result<Choice, ()>)
    ensures
        match r {
            Ok(c) => choice_in(j.model()) == Some(c@),
            Err(_) => choice_in(j.model()) is None,
        },
{
    if !j.is_record(2) {
        return Err(());
    }
    let (content, tool_calls) = match j.slot("delta", 0) {
        Some(v) => match delta(v) {
            Ok(d) => d,
            Err(_) => {
                return Err(());
            },
        },
        None => {
            let v: Vec<ToolCallDelta> = Vec::new();
            assert(text::views(v@) =~= seq![]);
            (None, v)
        },
    };
    let finish_reason = match j.optional_string("finish_reason", 1) {
        Ok(s) => s,
        Err(_) => {
            return Err(());
        },
    };
    Ok(Choice { content, tool_calls, finish_reason })
}

fn choices(items: &Vec<Json>) -> (r: Result<Vec<Choice>, ()>)
    ensures
        match r {
            Ok(v) => choices_from(json::items_model(items@), 0) == Some(text::views(v@)),
            Err(_) => choices_from(json::items_model(items@), 0) is None,
        },
{
    let ghost all = json::items_model(items@);
    let ghost meant = choices_from(all, 0);
    let mut out: Vec<Choice> = Vec::new();
    let mut i: usize = 0;
    proof {
        if meant is Some {
            assert(text::views(out@) + meant->0 =~= meant->0);
        }
    }
    while i < items.len()
        invariant
            0 <= i <= items@.len(),
            all == json::items_model(items@),
            meant == choices_from(all, 0),
            meant == (match choices_from(all, i as int) {
                Some(rest) => Some(text::views(out@) + rest),
                None => None,
            }),
        decreases items@.len() - i,
    {
        let ghost before = text::views(out@);
        assert(all[i as int] == items@[i as int].model());
        match choice(&items[i]) {
            Ok(c) => {
                out.push(c);
                proof {
                    let rest = choices_from(all, i + 1);
                    if rest is Some {
                        assert(before + (seq![c@] + rest->0) =~= text::views(out@) + rest->0);
                    }
                }
            },
            Err(_) => {
                return Err(());
            },
        }
        i += 1;
    }
    assert(text::views(out@) + Seq::<ChoiceView>::empty() =~= text::views(out@));
    Ok(out)
}

fn counts(j: &Json) -> (r: Option<(u64, u64)>)
    ensures
        r == counts_in(j.model()),
{
    if !j.is_record(2) {
        return None;
    }
    match (j.slot("prompt_tokens", 0), j.slot("completion_tokens", 1)) {
        (Some(p), Some(c)) => match (p.as_u64(), c.as_u64()) {
            (Some(a), Some(b)) => Some((a, b)),
            _ => None,
        },
        _ => None,
    }
}

fn whole_chunk(j: &Json) -> (r: Result<ChatChunk, ()>)
    ensures
        match r {
            Ok(c) => chunk_in(j.model()) == Some(c@),
            Err(_) => chunk_in(j.model()) is None,
        },
{
    if !j.is_record(2) {
        return Err(());
    }
    let all = match j.slot("choices", 0) {
        None => {
            let v: Vec<Choice> = Vec::new();
            assert(text::views(v@) =~= seq![]);
            v
        },
        Some(v) => if v.is_null() {
            let v: Vec<Choice> = Vec::new();
            assert(text::views(v@) =~= seq![]);
            v
        } else {
            match v.as_array() {
                Some(items) => match choices(items) {
                    Ok(c) => c,
                    Err(_) => {
                        return Err(());
                    },
                },
                None => {
                    return Err(());
                },
            }
        },
    };
    let usage: Option<(u64, u64)> = match j.slot("usage", 1) {
        None => None,
        Some(v) => if v.is_null() {
            None
        } else {
            match counts(v) {
                Some(u) => Some(u),
                None => {
                    return Err(());
                },
            }
        },
    };
    Ok(ChatChunk { choices: all, usage })
}

/// The chunk that a value says: nothing at all when it has another shape.
pub fn chunk(j: &Json) -> (r: ChatChunk)
    ensures
        r@ == chunk_of(j.model()),
{
    match whole_chunk(j) {
        Ok(c) => c,
        Err(_) => {
            let r = ChatChunk { choices: Vec::new(), usage: None };
            assert(r@.choices =~= seq![]);
            r
        },
    }
}

// ---- streaming parser -----------------------------------------------------------------------

/// Folds streamed `data:` payloads into canonical [`WireEvent`]s. Feed each payload (already
/// stripped of the `data: ` prefix) to [`push`](Self::push); it returns the events that payload
/// produced. Stateful across calls: tool-call `index` -> id mapping and call order are retained so
/// fragmented arguments and the closing `finish_reason` resolve to the right call.
pub struct ChatStreamParser {
    ids: HashMap<u64, String>,
    order: Vec<u64>,
}

/// What a [`ChatStreamParser`] remembers.
pub struct ChatState {
    pub ids: Map<u64, Seq<char>>,
    pub order: Seq<u64>,
}

impl View for ChatStreamParser {
    type V = ChatState;

    closed spec fn view(&self) -> ChatState {
        ChatState { ids: self.ids@.map_values(|s: String| s@), order: self.order@ }
    }
}

/// What one tool call fragment does: a fragment with an id opens the call, one with arguments
/// carries them to the call that its index belongs to.
pub open spec fn after_call(st: ChatState, c: CallView) -> (ChatState, Seq<EventView>) {
    let name = match c.function {
        Some(f) => match f.name {
            Some(n) => n,
            None => seq![],
        },
        None => seq![],
    };
    let next = match c.id {
        Some(id) => ChatState {
            ids: st.ids.insert(c.index, id),
            order: st.order.push(c.index),
        },
        None => st,
    };
    let opened = match c.id {
        Some(id) => seq![EventView::ToolUseStart { id, name }],
        None => seq![],
    };
    let carried = match c.function {
        Some(f) => match f.arguments {
            Some(args) => if args.len() > 0 && next.ids.dom().contains(c.index) {
                seq![EventView::ToolInputDelta { id: next.ids[c.index], json: args }]
            } else {
                seq![]
            },
            None => seq![],
        },
        None => seq![],
    };
    (next, opened + carried)
}

/// What the tool call fragments `calls[..n]` do, one after the other.
pub open spec fn after_calls(st: ChatState, calls: Seq<CallView>, n: int) -> (
    ChatState,
    Seq<EventView>,
)
    decreases n,
{
    if n <= 0 {
        (st, seq![])
    } else {
        let (mid, events) = after_calls(st, calls, n - 1);
        let (next, more) = after_call(mid, calls[n - 1]);
        (next, events + more)
    }
}

/// The closing events of the calls `order[..n]` that have an id.
pub open spec fn closing(ids: Map<u64, Seq<char>>, order: Seq<u64>, n: int) -> Seq<EventView>
    decreases n,
{
    if n <= 0 {
        seq![]
    } else if ids.dom().contains(order[n - 1]) {
        closing(ids, order, n - 1).push(EventView::ToolUseEnd { id: ids[order[n - 1]] })
    } else {
        closing(ids, order, n - 1)
    }
}

/// What one choice does: its text, its tool calls, and the end of every call when the model stops
/// to have them run.
pub open spec fn after_choice(st: ChatState, c: ChoiceView) -> (ChatState, Seq<EventView>) {
    let said = match c.content {
        Some(t) => if t.len() > 0 {
            seq![EventView::TextDelta(t)]
        } else {
            seq![]
        },
        None => seq![],
    };
    let (next, called) = after_calls(st, c.tool_calls, c.tool_calls.len() as int);
    let closed = if c.finish_reason == Some("tool_calls"@) {
        closing(next.ids, next.order, next.order.len() as int)
    } else {
        seq![]
    };
    (next, said + called + closed)
}

/// What the choices `choices[..n]` do.
pub open spec fn after_choices(st: ChatState, choices: Seq<ChoiceView>, n: int) -> (
    ChatState,
    Seq<EventView>,
)
    decreases n,
{
    if n <= 0 {
        (st, seq![])
    } else {
        let (mid, events) = after_choices(st, choices, n - 1);
        let (next, more) = after_choice(mid, choices[n - 1]);
        (next, events + more)
    }
}

/// What a chunk does.
pub open spec fn after_chunk(st: ChatState, c: ChunkView) -> (ChatState, Seq<EventView>) {
    let (next, events) = after_choices(st, c.choices, c.choices.len() as int);
    let counted = match c.usage {
        Some((p, o)) => seq![
            EventView::Usage(
                Usage { input_tokens: p, output_tokens: o, cache_read: 0, cache_write: 0 },
            ),
        ],
        None => seq![],
    };
    (next, events + counted)
}

/// What a JSON payload does. Some OpenAI-compatible servers stream errors as `{"error": {...}}`
/// with a 200 status.
pub open spec fn after_value(st: ChatState, v: JsonSpec) -> (ChatState, Seq<EventView>) {
    match json::field(v, "error"@) {
        Some(err) => (
            st,
            seq![
                EventView::Error(
                    match json::string_field(err, "message"@) {
                        Some(m) => m,
                        None => "provider error"@,
                    },
                ),
            ],
        ),
        None => after_chunk(st, chunk_of(v)),
    }
}

/// What a payload does. Keep-alives and unparseable lines do nothing.
pub open spec fn after_payload(st: ChatState, data: Seq<char>) -> (ChatState, Seq<EventView>) {
    let t = text::trimmed(data);
    if t == "[DONE]"@ {
        (st, seq![EventView::Done])
    } else {
        match json::json_parsed(t) {
            Ok(v) => after_value(st, v),
            Err(_) => (st, seq![]),
        }
    }
}

impl Default for ChatStreamParser {
    fn default() -> (r: ChatStreamParser)
        ensures
            r@.ids == Map::<u64, Seq<char>>::empty(),
            r@.order == Seq::<u64>::empty(),
    {
        let r = ChatStreamParser { ids: HashMap::new(), order: Vec::new() };
        assert(r@.ids =~= Map::empty());
        assert(r@.order =~= Seq::empty());
        r
    }
}

impl ChatStreamParser {
    fn push_call(&mut self, c: ToolCallDelta, out: &mut Vec<WireEvent>)
        ensures
            ({
                let (next, events) = after_call(old(self)@, c@);
                final(self)@ == next && text::views(final(out)@) == text::views(old(out)@) + events
            }),
    {
        let ghost st = self@;
        let ghost before = text::views(out@);
        let index = c.index;
        if let Some(id) = c.id {
            let name = match &c.function {
                Some(f) => match &f.name {
                    Some(n) => n.clone(),
                    None => String::new(),
                },
                None => String::new(),
            };
            proof {
                assert(name@ =~= (match c@.function {
                    Some(f) => match f.name {
                        Some(n) => n,
                        None => seq![],
                    },
                    None => seq![],
                }));
            }
            self.ids.insert(index, id.clone());
            self.order.push(index);
            assert(self@.ids =~= st.ids.insert(index, id@));
            out.push(WireEvent::ToolUseStart { id, name });
        }
        let ghost next = self@;
        proof {
            assert(next == after_call(st, c@).0);
        }
        if let Some(f) = c.function {
            if let Some(args) = f.arguments {
                if args.as_str().unicode_len() > 0 {
                    if let Some(id) = self.ids.get(&index) {
                        assert(next.ids.dom().contains(index));
                        assert(next.ids[index] == id@);
                        out.push(WireEvent::ToolInputDelta { id: id.clone(), json: args });
                    } else {
                        assert(!next.ids.dom().contains(index));
                    }
                }
            }
        }
        proof {
            assert(text::views(out@) =~= before + after_call(st, c@).1);
        }
    }

    fn push_choice(&mut self, c: Choice, out: &mut Vec<WireEvent>)
        ensures
            ({
                let (next, events) = after_choice(old(self)@, c@);
                final(self)@ == next && text::views(final(out)@) == text::views(old(out)@) + events
            }),
    {
        let ghost st = self@;
        let ghost before = text::views(out@);
        let ghost meant = after_choice(st, c@);
        if let Some(content) = c.content {
            if content.as_str().unicode_len() > 0 {
                out.push(WireEvent::TextDelta(content));
            }
        }
        let ghost spoken = text::views(out@);
        let ghost cv = c@;
        let ghost all = text::views(c.tool_calls@);
        let mut pending = c.tool_calls;
        let n = pending.len();
        let mut i: usize = 0;
        proof {
            assert(spoken + after_calls(st, all, 0).1 =~= spoken);
        }
        while pending.len() > 0
            invariant
                i + pending@.len() == n,
                n == all.len(),
                forall|k: int|
                    0 <= k < pending@.len() ==> (#[trigger] pending@[k])@ == all[i + k],
                self@ == after_calls(st, all, i as int).0,
                text::views(out@) == spoken + after_calls(st, all, i as int).1,
            decreases pending@.len(),
        {
            let ghost was = pending@;
            let tc = pending.remove(0);
            assert(tc@ == all[i as int]) by {
                assert(was[0]@ == all[i + 0]);
            }
            let ghost evs = after_calls(st, all, i as int).1;
            self.push_call(tc, out);
            i += 1;
            proof {
                assert forall|k: int| 0 <= k < pending@.len() implies (#[trigger] pending@[k])@
                    == all[i + k] by {
                    assert(pending@[k] == was[k + 1]);
                    assert(was[k + 1]@ == all[(i - 1) + (k + 1)]);
                }
                assert(spoken + evs + after_call(after_calls(st, all, i - 1).0, all[i - 1]).1
                    =~= spoken + after_calls(st, all, i as int).1);
            }
        }
        let ghost called = text::views(out@);
        let ghost next = self@;
        let stopped = match &c.finish_reason {
            Some(reason) => text::same(reason.as_str(), "tool_calls"),
            None => false,
        };
        if stopped {
            let mut k: usize = 0;
            assert(called + closing(next.ids, next.order, 0) =~= called);
            while k < self.order.len()
                invariant
                    0 <= k <= self.order@.len(),
                    self@ == next,
                    text::views(out@) == called + closing(next.ids, next.order, k as int),
                decreases self.order@.len() - k,
            {
                let idx = self.order[k];
                let ghost sofar = closing(next.ids, next.order, k as int);
                if let Some(id) = self.ids.get(&idx) {
                    assert(next.ids.dom().contains(idx));
                    assert(next.ids[idx] == id@);
                    out.push(WireEvent::ToolUseEnd { id: id.clone() });
                    assert(text::views(out@) =~= called + sofar.push(
                        EventView::ToolUseEnd { id: id@ },
                    ));
                } else {
                    assert(!next.ids.dom().contains(idx));
                }
                k += 1;
            }
        }
        proof {
            assert(cv.finish_reason == Some("tool_calls"@) <==> stopped);
            assert(text::views(out@) =~= before + meant.1);
        }
    }

    /// What a JSON payload produces.
    pub fn push_value(&mut self, value: &Json) -> (r: Vec<WireEvent>)
        ensures
            ({
                let (next, events) = after_value(old(self)@, value.model());
                final(self)@ == next && text::views(r@) == events
            }),
    {
        let ghost st = self@;
        let mut out: Vec<WireEvent> = Vec::new();
        assert(text::views(out@) =~= seq![]);
        if let Some(err) = value.get("error") {
            let message = match err.str_field("message") {
                Some(m) => m.to_string(),
                None => "provider error".to_string(),
            };
            out.push(WireEvent::Error(message));
            assert(text::views(out@) =~= after_value(st, value.model()).1);
            return out;
        }
        let chunk = chunk(value);
        let ghost cv = chunk@;
        let ghost all = text::views(chunk.choices@);
        let mut pending = chunk.choices;
        let n = pending.len();
        let mut i: usize = 0;
        while pending.len() > 0
            invariant
                i + pending@.len() == n,
                n == all.len(),
                forall|k: int|
                    0 <= k < pending@.len() ==> (#[trigger] pending@[k])@ == all[i + k],
                self@ == after_choices(st, all, i as int).0,
                text::views(out@) == after_choices(st, all, i as int).1,
            decreases pending@.len(),
        {
            let ghost was = pending@;
            let c = pending.remove(0);
            assert(c@ == all[i as int]) by {
                assert(was[0]@ == all[i + 0]);
            }
            self.push_choice(c, &mut out);
            i += 1;
            proof {
                assert forall|k: int| 0 <= k < pending@.len() implies (#[trigger] pending@[k])@
                    == all[i + k] by {
                    assert(pending@[k] == was[k + 1]);
                    assert(was[k + 1]@ == all[(i - 1) + (k + 1)]);
                }
            }
        }
        let ghost events = text::views(out@);
        if let Some((prompt_tokens, completion_tokens)) = chunk.usage {
            out.push(
                WireEvent::Usage(
                    Usage {
                        input_tokens: prompt_tokens,
                        output_tokens: completion_tokens,
                        cache_read: 0,
                        cache_write: 0,
                    },
                ),
            );
        }
        proof {
            assert(text::views(out@) =~= after_chunk(st, cv).1);
        }
        out
    }

    /// The events that a payload produces.
    pub fn push(&mut self, data: &str) -> (r: Vec<WireEvent>)
        ensures
            ({
                let (next, events) = after_payload(old(self)@, data@);
                final(self)@ == next && text::views(r@) == events
            }),
    {
        let data = text::trim(data);
        let mut out: Vec<WireEvent> = Vec::new();
        assert(text::views(out@) =~= seq![]);
        if text::same(data, "[DONE]") {
            out.push(WireEvent::Done);
            return out;
        }
        match json::parse(data) {
            Ok(value) => self.push_value(&value),
            Err(_) => out,  // ignore keep-alives / unparseable lines
        }
    }
}

// ---- requests -------------------------------------------------------------------------------

/// Capabilities of a stock OpenAI Chat Completions endpoint: long prefixes are cached
/// automatically, and there is no server-side compaction.
pub open spec fn default_caps() -> Caps {
    Caps {
        thinking: false,
        tools: true,
        images: true,
        prompt_cache: true,
        native_context_mgmt: false,
    }
}

fn openai_default_caps() -> (r: Caps)
    ensures
        r == default_caps(),
{
    Caps {
        thinking: false,
        tools: true,
        images: true,
        prompt_cache: true,
        native_context_mgmt: false,
    }
}

/// OpenAI Chat Completions settings. `base_url` + `caps` overrides let the same adapter serve any
/// OpenAI-compatible endpoint (ollama, vllm, openrouter, groq, ...).
pub struct OpenAiChat {
    pub base_url: String,
    pub api_key: String,
    pub model: String,
    pub caps: Caps,
}

/// All the text of a message.
pub open spec fn all_text(content: Seq<BlockView>) -> Seq<char> {
    types::texts_in(content, content.len() as int)
}

pub open spec fn has_image(content: Seq<BlockView>) -> bool {
    exists|i: int| 0 <= i < content.len() && (#[trigger] content[i]) is Image
}

/// An image as a `data:` URL.
pub open spec fn data_url(media_type: Seq<char>, data: Seq<char>) -> Seq<char> {
    "data:"@ + media_type + ";base64,"@ + data
}

/// The text and image parts of `content[..n]`.
pub open spec fn user_parts(content: Seq<BlockView>, n: int) -> Seq<JsonSpec>
    decreases n,
{
    if n <= 0 {
        seq![]
    } else {
        match content[n - 1] {
            BlockView::Text { text } => user_parts(content, n - 1).push(
                JsonSpec::Object(
                    json::pairs2("type"@, JsonSpec::Str("text"@), "text"@, JsonSpec::Str(text)),
                ),
            ),
            BlockView::Image { media_type, data } => user_parts(content, n - 1).push(
                JsonSpec::Object(
                    json::pairs2(
                        "type"@,
                        JsonSpec::Str("image_url"@),
                        "image_url"@,
                        JsonSpec::Object(
                            json::pairs1("url"@, JsonSpec::Str(data_url(media_type, data))),
                        ),
                    ),
                ),
            ),
            _ => user_parts(content, n - 1),
        }
    }
}

/// What a user says: plain text, or parts when there is an image among it.
pub open spec fn user_body(content: Seq<BlockView>) -> JsonSpec {
    if has_image(content) {
        JsonSpec::Array(user_parts(content, content.len() as int))
    } else {
        JsonSpec::Str(all_text(content))
    }
}

/// The tool calls among `content[..n]`. The arguments are sent as JSON text.
pub open spec fn tool_calls_in(content: Seq<BlockView>, n: int) -> Seq<JsonSpec>
    decreases n,
{
    if n <= 0 {
        seq![]
    } else {
        match content[n - 1] {
            BlockView::ToolUse { id, name, input } => tool_calls_in(content, n - 1).push(
                JsonSpec::Object(
                    json::pairs3(
                        "id"@,
                        JsonSpec::Str(id),
                        "type"@,
                        JsonSpec::Str("function"@),
                        "function"@,
                        JsonSpec::Object(
                            json::pairs2(
                                "name"@,
                                JsonSpec::Str(name),
                                "arguments"@,
                                JsonSpec::Str(json::json_printed(input)),
                            ),
                        ),
                    ),
                ),
            ),
            _ => tool_calls_in(content, n - 1),
        }
    }
}

/// The tool results among `content[..n]`, a message each.
pub open spec fn tool_results_in(content: Seq<BlockView>, n: int) -> Seq<JsonSpec>
    decreases n,
{
    if n <= 0 {
        seq![]
    } else {
        match content[n - 1] {
            BlockView::ToolResult { id, out } => tool_results_in(content, n - 1).push(
                JsonSpec::Object(
                    json::pairs3(
                        "role"@,
                        JsonSpec::Str("tool"@),
                        "tool_call_id"@,
                        JsonSpec::Str(id),
                        "content"@,
                        JsonSpec::Str(out.text),
                    ),
                ),
            ),
            _ => tool_results_in(content, n - 1),
        }
    }
}

/// What the assistant said: null content stands for no text, and the calls are left out when there
/// are none.
pub open spec fn assistant_message(content: Seq<BlockView>) -> JsonSpec {
    let text = all_text(content);
    let calls = tool_calls_in(content, content.len() as int);
    let said = json::pairs2(
        "role"@,
        JsonSpec::Str("assistant"@),
        "content"@,
        if text.len() == 0 {
            JsonSpec::Null
        } else {
            JsonSpec::Str(text)
        },
    );
    JsonSpec::Object(
        if calls.len() == 0 {
            said
        } else {
            said.push(("tool_calls"@, JsonSpec::Array(calls)))
        },
    )
}

/// The wire messages that one canonical message becomes.
pub open spec fn rendered(m: MessageView) -> Seq<JsonSpec> {
    match m.role {
        Role::System => seq![
            JsonSpec::Object(
                json::pairs2(
                    "role"@,
                    JsonSpec::Str("system"@),
                    "content"@,
                    JsonSpec::Str(all_text(m.content)),
                ),
            ),
        ],
        Role::User => seq![
            JsonSpec::Object(
                json::pairs2("role"@, JsonSpec::Str("user"@), "content"@, user_body(m.content)),
            ),
        ],
        Role::Assistant => seq![assistant_message(m.content)],
        Role::Tool => tool_results_in(m.content, m.content.len() as int),
    }
}

/// The wire messages of `messages[..n]`.
pub open spec fn rendered_all(messages: Seq<MessageView>, n: int) -> Seq<JsonSpec>
    decreases n,
{
    if n <= 0 {
        seq![]
    } else {
        rendered_all(messages, n - 1) + rendered(messages[n - 1])
    }
}

/// A tool as the endpoint wants it described.
pub open spec fn rendered_tool(t: ToolView) -> JsonSpec {
    JsonSpec::Object(
        json::pairs2(
            "type"@,
            JsonSpec::Str("function"@),
            "function"@,
            JsonSpec::Object(
                json::pairs3(
                    "name"@,
                    JsonSpec::Str(t.name),
                    "description"@,
                    JsonSpec::Str(t.description),
                    "parameters"@,
                    t.input_schema,
                ),
            ),
        ),
    )
}

pub open spec fn rendered_tools(tools: Seq<ToolView>) -> JsonSpec {
    JsonSpec::Array(Seq::new(tools.len(), |i: int| rendered_tool(tools[i])))
}

/// The model that a request asks for, or else the one that the provider is set to.
pub open spec fn chosen_model(own: Seq<char>, asked: Seq<char>) -> Seq<char> {
    if asked.len() == 0 {
        own
    } else {
        asked
    }
}

/// A member that is only sent when there is a value for it.
pub open spec fn with_member(
    members: Seq<(Seq<char>, JsonSpec)>,
    key: Seq<char>,
    value: Option<JsonSpec>,
) -> Seq<(Seq<char>, JsonSpec)> {
    match value {
        Some(v) => members.push((key, v)),
        None => members,
    }
}

pub open spec fn tools_member(tools: Seq<ToolView>) -> Option<JsonSpec> {
    if tools.len() == 0 {
        None
    } else {
        Some(rendered_tools(tools))
    }
}

pub open spec fn count_member(n: Option<u32>) -> Option<JsonSpec> {
    match n {
        Some(k) => Some(JsonSpec::Number(NumberSpec::PosInt(k as u64))),
        None => None,
    }
}

pub open spec fn number_member(n: Option<NumberSpec>) -> Option<JsonSpec> {
    match n {
        Some(k) => Some(JsonSpec::Number(k)),
        None => None,
    }
}

/// The Chat Completions body of a request.
pub open spec fn wire_body(model: Seq<char>, req: RequestView) -> JsonSpec {
    let system = if req.system.len() == 0 {
        seq![]
    } else {
        seq![
            JsonSpec::Object(
                json::pairs2(
                    "role"@,
                    JsonSpec::Str("system"@),
                    "content"@,
                    JsonSpec::Str(req.system),
                ),
            ),
        ]
    };
    let base = json::pairs4(
        "model"@,
        JsonSpec::Str(chosen_model(model, req.model)),
        "stream"@,
        JsonSpec::Bool(true),
        "stream_options"@,
        JsonSpec::Object(json::pairs1("include_usage"@, JsonSpec::Bool(true))),
        "messages"@,
        JsonSpec::Array(system + rendered_all(req.messages, req.messages.len() as int)),
    );
    let with_tools = with_member(base, "tools"@, tools_member(req.tools));
    let with_max = with_member(with_tools, "max_tokens"@, count_member(req.max_tokens));
    JsonSpec::Object(with_member(with_max, "temperature"@, number_member(req.temperature)))
}

/// All the text of a message.
pub fn join_text(content: &Vec<ContentBlock>) -> (r: String)
    ensures
        r@ == all_text(text::views(content@)),
{
    types::joined_text(content)
}

/// An image as a `data:` URL.
pub fn image_url(media_type: &str, data: &str) -> (r: String)
    ensures
        r@ == data_url(media_type@, data@),
{
    let mut out = text::concat3("data:", media_type, ";base64,");
    out.append(data);
    out
}

fn text_part(text: &str) -> (r: Json)
    ensures
        r.model() == JsonSpec::Object(
            json::pairs2("type"@, JsonSpec::Str("text"@), "text"@, JsonSpec::Str(text@)),
        ),
{
    let mut m = json::members();
    json::put(&mut m, "type", json::string("text"));
    json::put(&mut m, "text", json::string(text));
    json::object(m)
}

fn user_content(content: &Vec<ContentBlock>) -> (r: Json)
    ensures
        r.model() == user_body(text::views(content@)),
{
    let ghost cv = text::views(content@);
    let mut parts = json::items();
    let mut image = false;
    let mut i: usize = 0;
    while i < content.len()
        invariant
            0 <= i <= content@.len(),
            cv == text::views(content@),
            json::items_model(parts@) == user_parts(cv, i as int),
            image == exists|k: int| 0 <= k < i && (#[trigger] cv[k]) is Image,
        decreases content@.len() - i,
    {
        assert(cv[i as int] == content@[i as int]@);
        match &content[i] {
            ContentBlock::Text { text } => {
                json::add_item(&mut parts, text_part(text.as_str()));
            },
            ContentBlock::Image { media_type, data } => {
                image = true;
                let mut url = json::members();
                json::put(
                    &mut url,
                    "url",
                    json::string(image_url(media_type.as_str(), data.as_str()).as_str()),
                );
                let mut m = json::members();
                json::put(&mut m, "type", json::string("image_url"));
                json::put(&mut m, "image_url", json::object(url));
                json::add_item(&mut parts, json::object(m));
                assert(cv[i as int] is Image);
            },
            _ => {},
        }
        i += 1;
    }
    if image {
        json::array(parts)
    } else {
        json::string(join_text(content).as_str())
    }
}

fn assistant_content(content: &Vec<ContentBlock>) -> (r: Json)
    ensures
        r.model() == assistant_message(text::views(content@)),
{
    let ghost cv = text::views(content@);
    let mut calls = json::items();
    let mut i: usize = 0;
    while i < content.len()
        invariant
            0 <= i <= content@.len(),
            cv == text::views(content@),
            json::items_model(calls@) == tool_calls_in(cv, i as int),
        decreases content@.len() - i,
    {
        assert(cv[i as int] == content@[i as int]@);
        if let ContentBlock::ToolUse { id, name, input } = &content[i] {
            let mut function = json::members();
            json::put(&mut function, "name", json::string(name.as_str()));
            json::put(&mut function, "arguments", json::string(json::print(input).as_str()));
            let mut m = json::members();
            json::put(&mut m, "id", json::string(id.as_str()));
            json::put(&mut m, "type", json::string("function"));
            json::put(&mut m, "function", json::object(function));
            json::add_item(&mut calls, json::object(m));
        }
        i += 1;
    }
    let text = join_text(content);
    let mut msg = json::members();
    json::put(&mut msg, "role", json::string("assistant"));
    if text.as_str().unicode_len() == 0 {
        json::put(&mut msg, "content", Json::Null);
    } else {
        json::put(&mut msg, "content", json::string(text.as_str()));
    }
    assert(json::items_model(calls@).len() == calls@.len());
    if calls.len() > 0 {
        json::put(&mut msg, "tool_calls", json::array(calls));
    }
    json::object(msg)
}

/// The wire messages that one canonical message becomes.
fn render_message(m: &Message, out: &mut Vec<Json>)
    ensures
        json::items_model(final(out)@) == json::items_model(old(out)@) + rendered(m@),
{
    let ghost before = json::items_model(out@);
    match m.role {
        Role::System => {
            let mut msg = json::members();
            json::put(&mut msg, "role", json::string("system"));
            json::put(&mut msg, "content", json::string(join_text(&m.content).as_str()));
            json::add_item(out, json::object(msg));
        },
        Role::User => {
            let mut msg = json::members();
            json::put(&mut msg, "role", json::string("user"));
            json::put(&mut msg, "content", user_content(&m.content));
            json::add_item(out, json::object(msg));
        },
        Role::Assistant => {
            json::add_item(out, assistant_content(&m.content));
        },
        Role::Tool => {
            let ghost cv = m@.content;
            let mut i: usize = 0;
            assert(before + tool_results_in(cv, 0) =~= before);
            while i < m.content.len()
                invariant
                    0 <= i <= m.content@.len(),
                    cv == text::views(m.content@),
                    json::items_model(out@) == before + tool_results_in(cv, i as int),
                decreases m.content@.len() - i,
            {
                assert(cv[i as int] == m.content@[i as int]@);
                let ghost sofar = tool_results_in(cv, i as int);
                if let ContentBlock::ToolResult { id, out: result } = &m.content[i] {
                    let mut msg = json::members();
                    json::put(&mut msg, "role", json::string("tool"));
                    json::put(&mut msg, "tool_call_id", json::string(id.as_str()));
                    json::put(&mut msg, "content", json::string(result.text.as_str()));
                    let item = json::object(msg);
                    json::add_item(out, item);
                    assert((before + sofar).push(item.model()) =~= before + sofar.push(
                        item.model(),
                    ));
                }
                i += 1;
            }
        },
    }
    assert(json::items_model(out@) =~= before + rendered(m@));
}

fn render_tools(tools: &Vec<ToolSpec>) -> (r: Json)
    ensures
        r.model() == rendered_tools(text::views(tools@)),
{
    let ghost tv = text::views(tools@);
    let mut out = json::items();
    let mut i: usize = 0;
    while i < tools.len()
        invariant
            0 <= i <= tools@.len(),
            tv == text::views(tools@),
            json::items_model(out@) == rendered_tools(tv)->Array_0.take(i as int),
        decreases tools@.len() - i,
    {
        let t = &tools[i];
        assert(tv[i as int] == t@);
        let mut function = json::members();
        json::put(&mut function, "name", json::string(t.name.as_str()));
        json::put(&mut function, "description", json::string(t.description.as_str()));
        json::put(&mut function, "parameters", t.input_schema.copy());
        let mut m = json::members();
        json::put(&mut m, "type", json::string("function"));
        json::put(&mut m, "function", json::object(function));
        json::add_item(&mut out, json::object(m));
        i += 1;
        proof {
            let all = rendered_tools(tv)->Array_0;
            assert(all.take(i as int) =~= all.take(i - 1).push(all[i - 1]));
        }
    }
    proof {
        let all = rendered_tools(tv)->Array_0;
        assert(all.take(i as int) =~= all);
    }
    json::array(out)
}

impl OpenAiChat {
    pub fn new(api_key: &str, model: &str) -> (r: OpenAiChat)
        ensures
            r.base_url@ == "https://api.openai.com/v1"@,
            r.api_key@ == api_key@,
            r.model@ == model@,
            r.caps == default_caps(),
    {
        OpenAiChat {
            base_url: "https://api.openai.com/v1".to_string(),
            api_key: api_key.to_string(),
            model: model.to_string(),
            caps: openai_default_caps(),
        }
    }

    pub fn with_base_url(self, base_url: &str) -> (r: OpenAiChat)
        ensures
            r.base_url@ == base_url@,
            r.api_key == self.api_key,
            r.model == self.model,
            r.caps == self.caps,
    {
        OpenAiChat {
            base_url: base_url.to_string(),
            api_key: self.api_key,
            model: self.model,
            caps: self.caps,
        }
    }

    /// Override advertised capabilities (e.g. a local model without image support).
    pub fn with_caps(self, caps: Caps) -> (r: OpenAiChat)
        ensures
            r.base_url == self.base_url,
            r.api_key == self.api_key,
            r.model == self.model,
            r.caps == caps,
    {
        OpenAiChat { base_url: self.base_url, api_key: self.api_key, model: self.model, caps }
    }

    pub fn caps(&self) -> (r: Caps)
        ensures
            r == self.caps,
    {
        self.caps
    }

    /// Where requests are sent.
    pub fn endpoint(&self) -> (r: String)
        ensures
            r@ == self.base_url@ + "/chat/completions"@,
    {
        text::concat2(self.base_url.as_str(), "/chat/completions")
    }

    /// Render a canonical request into the Chat Completions JSON body.
    pub fn to_wire(&self, req: &ChatRequest) -> (r: Json)
        ensures
            r.model() == wire_body(self.model@, req@),
    {
        let ghost rv = req@;
        let mut messages = json::items();
        if req.system.as_str().unicode_len() > 0 {
            let mut msg = json::members();
            json::put(&mut msg, "role", json::string("system"));
            json::put(&mut msg, "content", json::string(req.system.as_str()));
            json::add_item(&mut messages, json::object(msg));
        }
        let ghost system = json::items_model(messages@);
        let mut i: usize = 0;
        assert(system + rendered_all(rv.messages, 0) =~= system);
        while i < req.messages.len()
            invariant
                0 <= i <= req.messages@.len(),
                rv == req@,
                json::items_model(messages@) == system + rendered_all(rv.messages, i as int),
            decreases req.messages@.len() - i,
        {
            assert(rv.messages[i as int] == req.messages@[i as int]@);
            render_message(&req.messages[i], &mut messages);
            i += 1;
            assert(system + rendered_all(rv.messages, i - 1) + rendered(rv.messages[i - 1])
                =~= system + rendered_all(rv.messages, i as int));
        }
        let model = if req.model.as_str().unicode_len() == 0 {
            self.model.as_str()
        } else {
            req.model.as_str()
        };
        let mut options = json::members();
        json::put(&mut options, "include_usage", json::boolean(true));
        let mut body = json::members();
        json::put(&mut body, "model", json::string(model));
        json::put(&mut body, "stream", json::boolean(true));
        json::put(&mut body, "stream_options", json::object(options));
        json::put(&mut body, "messages", json::array(messages));
        if req.tools.len() > 0 {
            json::put(&mut body, "tools", render_tools(&req.tools));
        }
        if let Some(n) = req.max_tokens {
            json::put(&mut body, "max_tokens", json::uint(n as u64));
        }
        if let Some(t) = &req.temperature {
            json::put(&mut body, "temperature", Json::Number(t.copy()));
        }
        json::object(body)
    }
}

// ---- errors ---------------------------------------------------------------------------------

/// The most characters of a reason that are shown.
pub const MAX_REASON: usize = 400;

/// A text that is there and not empty.
pub open spec fn some_text(v: JsonSpec) -> Option<Seq<char>> {
    match json::string_in(v) {
        Some(s) => if s.len() > 0 {
            Some(s)
        } else {
            None
        },
        None => None,
    }
}

/// The reason that an error value gives: OpenAI-style `error.message`, a bare `message`, or `error`
/// as a text.
pub open spec fn reason_in(v: JsonSpec) -> Option<Seq<char>> {
    let error = json::field_or_null(v, "error"@);
    if some_text(json::field_or_null(error, "message"@)) is Some {
        some_text(json::field_or_null(error, "message"@))
    } else if some_text(json::field_or_null(v, "message"@)) is Some {
        some_text(json::field_or_null(v, "message"@))
    } else {
        some_text(error)
    }
}

/// The reason that an error response gives, or else the start of its body.
pub open spec fn reason_of(parsed: Option<JsonSpec>, body: Seq<char>) -> Seq<char> {
    let given = match parsed {
        Some(v) => reason_in(v),
        None => None,
    };
    match given {
        Some(m) => text::first_chars(m, MAX_REASON as int),
        None => if text::trimmed(body).len() == 0 {
            "(no response body)"@
        } else {
            text::first_chars(text::trimmed(body), MAX_REASON as int)
        },
    }
}

fn non_empty(v: Option<&Json>) -> (r: Option<String>)
    ensures
        text::opt_view(r) == (match v {
            Some(j) => some_text(j.model()),
            None => None,
        }),
{
    match v {
        Some(j) => match j.as_str() {
            Some(s) => if s.unicode_len() > 0 {
                Some(s.to_string())
            } else {
                None
            },
            None => None,
        },
        None => None,
    }
}

/// The reason that an error response gives, where `parsed` is its body read as JSON.
pub fn error_reason(parsed: Option<&Json>, body: &str) -> (r: String)
    ensures
        r@ == reason_of(
            match parsed {
                Some(v) => Some(v.model()),
                None => None,
            },
            body@,
        ),
{
    if let Some(v) = parsed {
        let error = v.get("error");
        let nested = match error {
            Some(e) => non_empty(e.get("message")),
            None => None,
        };
        if let Some(m) = nested {
            return text::take_chars(m.as_str(), MAX_REASON).to_string();
        }
        if let Some(m) = non_empty(v.get("message")) {
            return text::take_chars(m.as_str(), MAX_REASON).to_string();
        }
        if let Some(m) = non_empty(error) {
            return text::take_chars(m.as_str(), MAX_REASON).to_string();
        }
    }
    let s = text::trim(body);
    if s.unicode_len() == 0 {
        "(no response body)".to_string()
    } else {
        text::take_chars(s, MAX_REASON).to_string()
    }
}

/// Pull the human-readable reason out of an error response body: OpenAI-style `error.message`, a
/// bare `message`, else a trimmed snippet of the raw body.
pub fn extract_error_message(body: &str) -> (r: String)
    ensures
        r@ == reason_of(
            match json::json_parsed(body@) {
                Ok(v) => Some(v),
                Err(_) => None,
            },
            body@,
        ),
{
    match json::parse(body) {
        Ok(v) => error_reason(Some(&v), body),
        Err(_) => error_reason(None, body),
    }
}

/// The error for an HTTP status that is no success. Its wording lets a retry tell 4xx (permanent)
/// from 5xx (transient). `status` is the code with its name.
pub fn http_error(code: u16, status: &str, body: &str) -> (r: String)
    ensures
        r@ == "HTTP "@ + (if 400 <= code < 500 {
            "client error"@
        } else {
            "server error"@
        }) + " "@ + status@ + ": "@ + reason_of(
            match json::json_parsed(body@) {
                Ok(v) => Some(v),
                Err(_) => None,
            },
            body@,
        ),
{
    let mut out = "HTTP ".to_string();
    if 400 <= code && code < 500 {
        out.append("client error");
    } else {
        out.append("server error");
    }
    out.append(" ");
    out.append(status);
    out.append(": ");
    out.append(extract_error_message(body).as_str());
    out
}

} // verus!
