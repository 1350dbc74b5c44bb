//! Anthropic Messages adapter.
//!
//! Anthropic's wire format differs from OpenAI's: typed SSE events (`message_start`,
//! `content_block_start/delta/stop`, `message_delta`, `message_stop`) carry content blocks by
//! `index`, and tool arguments stream as `input_json_delta` fragments. [`AnthropicStreamParser`]
//! normalizes all of it to the same canonical [`WireEvent`]s the loop already understands. Requests
//! render into Anthropic's block-structured body.

use crate::engine::types::{
    BlockView, Caps, ChatRequest, ContentBlock, EventView, Message, MessageView, RequestView, Role,
    ToolSpec, ToolView, Usage, WireEvent,
};
use crate::json;
use crate::json::{Json, JsonSpec, NumberSpec};
use crate::provider::openai_chat;
use crate::text;
use std::collections::HashMap;
use vstd::prelude::*;
use vstd::string::*;

verus! {

broadcast use {vstd::std_specs::hash::group_hash_axioms, crate::text::views_push};

pub const API_VERSION: &'static str = "2023-06-01";

// ---- streaming parser -----------------------------------------------------------------------

/// Normalizes Anthropic SSE payloads (the JSON after `data:`) to canonical events. Stateful: tracks
/// block `index` -> tool id and accumulates usage across `message_start`/`message_delta`.
pub struct AnthropicStreamParser {
    tool_ids: HashMap<u64, String>,
    input_tokens: u64,
    output_tokens: u64,
}

/// What an [`AnthropicStreamParser`] remembers.
pub struct AnthropicState {
    pub tool_ids: Map<u64, Seq<char>>,
    pub input_tokens: u64,
    pub output_tokens: u64,
}

impl View for AnthropicStreamParser {
    type V = AnthropicState;

    closed spec fn view(&self) -> AnthropicState {
        AnthropicState {
            tool_ids: self.tool_ids@.map_values(|s: String| s@),
            input_tokens: self.input_tokens,
            output_tokens: self.output_tokens,
        }
    }
}

/// The text of a string, or no text.
pub open spec fn text_or_empty(v: JsonSpec) -> Seq<char> {
    match json::string_in(v) {
        Some(s) => s,
        None => seq![],
    }
}

/// The text of the string member called `key`, or no text.
pub open spec fn text_at(v: JsonSpec, key: Seq<char>) -> Seq<char> {
    text_or_empty(json::field_or_null(v, key))
}

/// The number member called `key`, or zero.
pub open spec fn number_at(v: JsonSpec, key: Seq<char>) -> u64 {
    match json::u64_in(json::field_or_null(v, key)) {
        Some(n) => n,
        None => 0,
    }
}

/// What the start of a content block does: a tool call opens.
pub open spec fn block_started(st: AnthropicState, v: JsonSpec) -> (
    AnthropicState,
    Seq<EventView>,
) {
    let block = json::field_or_null(v, "content_block"@);
    if json::string_field(block, "type"@) == Some("tool_use"@) {
        let id = text_at(block, "id"@);
        (
            AnthropicState {
                tool_ids: st.tool_ids.insert(number_at(v, "index"@), id),
                ..st
            },
            seq![EventView::ToolUseStart { id, name: text_at(block, "name"@) }],
        )
    } else {
        (st, seq![])
    }
}

/// The events of a piece of a content block.
pub open spec fn block_delta(st: AnthropicState, v: JsonSpec) -> Seq<EventView> {
    let delta = json::field_or_null(v, "delta"@);
    let kind = text_at(delta, "type"@);
    let index = number_at(v, "index"@);
    if kind == "text_delta"@ {
        seq![EventView::TextDelta(text_at(delta, "text"@))]
    } else if kind == "thinking_delta"@ {
        seq![EventView::ThinkingDelta(text_at(delta, "thinking"@))]
    } else if kind == "input_json_delta"@ && st.tool_ids.dom().contains(index) {
        seq![
            EventView::ToolInputDelta {
                id: st.tool_ids[index],
                json: text_at(delta, "partial_json"@),
            },
        ]
    } else {
        seq![]
    }
}

/// What a JSON payload does. Pings and unknown events do nothing.
pub open spec fn after_value(st: AnthropicState, v: JsonSpec) -> (AnthropicState, Seq<EventView>) {
    let kind = text_at(v, "type"@);
    if kind == "message_start"@ {
        let usage = json::field_or_null(json::field_or_null(v, "message"@), "usage"@);
        (
            AnthropicState {
                input_tokens: match json::u64_in(json::field_or_null(usage, "input_tokens"@)) {
                    Some(n) => n,
                    None => st.input_tokens,
                },
                ..st
            },
            seq![],
        )
    } else if kind == "content_block_start"@ {
        block_started(st, v)
    } else if kind == "content_block_delta"@ {
        (st, block_delta(st, v))
    } else if kind == "content_block_stop"@ {
        let index = number_at(v, "index"@);
        (
            st,
            if st.tool_ids.dom().contains(index) {
                seq![EventView::ToolUseEnd { id: st.tool_ids[index] }]
            } else {
                seq![]
            },
        )
    } else if kind == "message_delta"@ {
        let usage = json::field_or_null(v, "usage"@);
        (
            AnthropicState {
                output_tokens: match json::u64_in(json::field_or_null(usage, "output_tokens"@)) {
                    Some(n) => n,
                    None => st.output_tokens,
                },
                ..st
            },
            seq![],
        )
    } else if kind == "message_stop"@ {
        (
            st,
            Seq::empty().push(
                EventView::Usage(
                    Usage {
                        input_tokens: st.input_tokens,
                        output_tokens: st.output_tokens,
                        cache_read: 0,
                        cache_write: 0,
                    },
                ),
            ).push(EventView::Done),
        )
    } else {
        (st, seq![])
    }
}

/// What a payload does. One that is no JSON does nothing.
pub open spec fn after_payload(st: AnthropicState, data: Seq<char>) -> (
    AnthropicState,
    Seq<EventView>,
) {
    match json::json_parsed(data) {
        Ok(v) => after_value(st, v),
        Err(_) => (st, seq![]),
    }
}

/// The text of the string member called `key`, or no text.
pub fn text_field(v: Option<&Json>, key: &str) -> (r: String)
    ensures
        r@ == text_at(
            match v {
                Some(j) => j.model(),
                None => JsonSpec::Null,
            },
            key@,
        ),
{
    match v {
        Some(j) => match j.str_field(key) {
            Some(s) => s.to_string(),
            None => {
                let r = String::new();
                assert(r@ =~= seq![]);
                r
            },
        },
        None => {
            let r = String::new();
            assert(r@ =~= seq![]);
            r
        },
    }
}

/// The number member called `key`, or zero.
pub fn number_field(v: &Json, key: &str) -> (r: u64)
    ensures
        r == number_at(v.model(), key@),
{
    match v.u64_field(key) {
        Some(n) => n,
        None => 0,
    }
}

impl Default for AnthropicStreamParser {
    fn default() -> (r: AnthropicStreamParser)
        ensures
            r@.tool_ids == Map::<u64, Seq<char>>::empty(),
            r@.input_tokens == 0,
            r@.output_tokens == 0,
    {
        let r = AnthropicStreamParser {
            tool_ids: HashMap::new(),
            input_tokens: 0,
            output_tokens: 0,
        };
        assert(r@.tool_ids =~= Map::empty());
        r
    }
}

impl AnthropicStreamParser {
    fn start_block(&mut self, v: &Json, out: &mut Vec<WireEvent>)
        requires
            old(out)@.len() == 0,
        ensures
            ({
                let (next, events) = block_started(old(self)@, v.model());
                final(self)@ == next && text::views(final(out)@) == events
            }),
    {
        let ghost st = self@;
        proof {
            text::views_empty(out@);
        }
        let block = v.get("content_block");
        let is_tool = match block {
            Some(b) => match b.str_field("type") {
                Some(t) => text::same(t, "tool_use"),
                None => false,
            },
            None => false,
        };
        if is_tool {
            let index = number_field(v, "index");
            let id = text_field(block, "id");
            let name = text_field(block, "name");
            self.tool_ids.insert(index, id.clone());
            assert(self@.tool_ids =~= st.tool_ids.insert(index, id@));
            out.push(WireEvent::ToolUseStart { id, name });
        }
    }

    fn extend_block(&self, v: &Json, out: &mut Vec<WireEvent>)
        requires
            old(out)@.len() == 0,
        ensures
            text::views(final(out)@) == block_delta(self@, v.model()),
    {
        proof {
            text::views_empty(out@);
        }
        let index = number_field(v, "index");
        let delta = v.get("delta");
        let kind = text_field(delta, "type");
        if text::same(kind.as_str(), "text_delta") {
            out.push(WireEvent::TextDelta(text_field(delta, "text")));
        } else if text::same(kind.as_str(), "thinking_delta") {
            out.push(WireEvent::ThinkingDelta(text_field(delta, "thinking")));
        } else if text::same(kind.as_str(), "input_json_delta") {
            if let Some(id) = self.tool_ids.get(&index) {
                assert(self@.tool_ids.dom().contains(index));
                assert(self@.tool_ids[index] == id@);
                out.push(
                    WireEvent::ToolInputDelta {
                        id: id.clone(),
                        json: text_field(delta, "partial_json"),
                    },
                );
            } else {
                assert(!self@.tool_ids.dom().contains(index));
            }
        }
    }

    /// What a JSON payload produces.
    pub fn push_value(&mut self, v: &Json) -> (r: Vec<WireEvent>)
        ensures
            ({
                let (next, events) = after_value(old(self)@, v.model());
                final(self)@ == next && text::views(r@) == events
            }),
    {
        let mut out: Vec<WireEvent> = Vec::new();
        proof {
            text::views_empty(out@);
        }
        let kind = text_field(Some(v), "type");
        let kind = kind.as_str();
        if text::same(kind, "message_start") {
            let usage = match v.get("message") {
                Some(m) => m.get("usage"),
                None => None,
            };
            if let Some(u) = usage {
                if let Some(n) = u.u64_field("input_tokens") {
                    self.input_tokens = n;
                }
            }
        } else if text::same(kind, "content_block_start") {
            self.start_block(v, &mut out);
        } else if text::same(kind, "content_block_delta") {
            self.extend_block(v, &mut out);
        } else if text::same(kind, "content_block_stop") {
            let index = number_field(v, "index");
            if let Some(id) = self.tool_ids.get(&index) {
                assert(self@.tool_ids.dom().contains(index));
                assert(self@.tool_ids[index] == id@);
                out.push(WireEvent::ToolUseEnd { id: id.clone() });
            } else {
                assert(!self@.tool_ids.dom().contains(index));
            }
        } else if text::same(kind, "message_delta") {
            if let Some(u) = v.get("usage") {
                if let Some(n) = u.u64_field("output_tokens") {
                    self.output_tokens = n;
                }
            }
        } else if text::same(kind, "message_stop") {
            out.push(
                WireEvent::Usage(
                    Usage {
                        input_tokens: self.input_tokens,
                        output_tokens: self.output_tokens,
                        cache_read: 0,
                        cache_write: 0,
                    },
                ),
            );
            out.push(WireEvent::Done);
        }
        out
    }

    /// The events that a payload produces.
    pub fn push(&mut self, data: &str) -> (r: Vec<WireEvent>)
        ensures
            ({
                let (next, events) = after_payload(old(self)@, data@);
                final(self)@ == next && text::views(r@) == events
            }),
    {
        match json::parse(data) {
            Ok(v) => self.push_value(&v),
            Err(_) => {
                let out: Vec<WireEvent> = Vec::new();
                proof {
                    text::views_empty(out@);
                }
                out
            },
        }
    }
}


// ---- requests -------------------------------------------------------------------------------

/// A wire message before it becomes JSON.
pub struct WireMessage {
    /// Whether it is the assistant's; otherwise it is the user's.
    pub from_assistant: bool,
    pub content: Vec<Json>,
}

/// The mathematical value of a [`WireMessage`].
pub struct WireView {
    pub from_assistant: bool,
    pub content: Seq<JsonSpec>,
}

impl View for WireMessage {
    type V = WireView;

    open spec fn view(&self) -> WireView {
        WireView {
            from_assistant: self.from_assistant,
            content: json::items_model(self.content@),
        }
    }
}

pub open spec fn text_block(text: Seq<char>) -> JsonSpec {
    JsonSpec::Object(json::pairs2("type"@, JsonSpec::Str("text"@), "text"@, JsonSpec::Str(text)))
}

/// The wire block of a block that `role` may send. Blocks of other kinds are left out.
pub open spec fn wire_block(role: Role, b: BlockView) -> Option<JsonSpec> {
    match (role, b) {
        (Role::User, BlockView::Text { text }) => Some(text_block(text)),
        (Role::User, BlockView::Image { media_type, data }) => Some(
            JsonSpec::Object(
                json::pairs2(
                    "type"@,
                    JsonSpec::Str("image"@),
                    "source"@,
                    JsonSpec::Object(
                        json::pairs3(
                            "type"@,
                            JsonSpec::Str("base64"@),
                            "media_type"@,
                            JsonSpec::Str(media_type),
                            "data"@,
                            JsonSpec::Str(data),
                        ),
                    ),
                ),
            ),
        ),
        (Role::Assistant, BlockView::Text { text }) => Some(text_block(text)),
        (Role::Assistant, BlockView::ToolUse { id, name, input }) => Some(
            JsonSpec::Object(
                json::pairs4(
                    "type"@,
                    JsonSpec::Str("tool_use"@),
                    "id"@,
                    JsonSpec::Str(id),
                    "name"@,
                    JsonSpec::Str(name),
                    "input"@,
                    input,
                ),
            ),
        ),
        (Role::Tool, BlockView::ToolResult { id, out }) => Some(
            JsonSpec::Object(
                json::pairs4(
                    "type"@,
                    JsonSpec::Str("tool_result"@),
                    "tool_use_id"@,
                    JsonSpec::Str(id),
                    "content"@,
                    JsonSpec::Str(out.text),
                    "is_error"@,
                    JsonSpec::Bool(out.is_error),
                ),
            ),
        ),
        _ => None,
    }
}

/// The wire blocks of `content[..n]`.
pub open spec fn wire_blocks(role: Role, content: Seq<BlockView>, n: int) -> Seq<JsonSpec>
    decreases n,
{
    if n <= 0 {
        seq![]
    } else {
        match wire_block(role, content[n - 1]) {
            Some(b) => wire_blocks(role, content, n - 1).push(b),
            None => wire_blocks(role, content, n - 1),
        }
    }
}

/// The wire message of a canonical one. The system prompt is a field of its own, and tool results
/// come from the user.
pub open spec fn rendered(m: MessageView) -> Option<WireView> {
    if m.role == Role::System {
        None
    } else {
        Some(
            WireView {
                from_assistant: m.role == Role::Assistant,
                content: wire_blocks(m.role, m.content, m.content.len() as int),
            },
        )
    }
}

/// `msg` appended, or merged into the last message when they share a role.
pub open spec fn appended(out: Seq<WireView>, msg: WireView) -> Seq<WireView> {
    if out.len() > 0 && out.last().from_assistant == msg.from_assistant {
        out.drop_last().push(
            WireView {
                from_assistant: msg.from_assistant,
                content: out.last().content + msg.content,
            },
        )
    } else {
        out.push(msg)
    }
}

/// The wire messages of `messages[..n]`, with neighbours of the same role merged.
pub open spec fn coalesced(messages: Seq<MessageView>, n: int) -> Seq<WireView>
    decreases n,
{
    if n <= 0 {
        seq![]
    } else {
        match rendered(messages[n - 1]) {
            Some(m) => appended(coalesced(messages, n - 1), m),
            None => coalesced(messages, n - 1),
        }
    }
}

/// The Messages API wants strictly alternating roles: no two neighbours share one, whatever the
/// history holds.
pub proof fn coalesced_roles_alternate(messages: Seq<MessageView>, n: int, i: int)
    requires
        0 <= i,
        i + 1 < coalesced(messages, n).len(),
    ensures
        coalesced(messages, n)[i].from_assistant != coalesced(messages, n)[i + 1].from_assistant,
    decreases n,
{
    if n > 0 {
        let before = coalesced(messages, n - 1);
        if i + 1 < before.len() {
            coalesced_roles_alternate(messages, n - 1, i);
        }
    }
}

/// The blocks of the messages `out[..n]`, one after the other.
pub open spec fn blocks_of(out: Seq<WireView>, n: int) -> Seq<JsonSpec>
    decreases n,
{
    if n <= 0 {
        seq![]
    } else {
        blocks_of(out, n - 1) + out[n - 1].content
    }
}

/// The blocks of the rendered messages among `messages[..n]`, one after the other.
pub open spec fn blocks_said(messages: Seq<MessageView>, n: int) -> Seq<JsonSpec>
    decreases n,
{
    if n <= 0 {
        seq![]
    } else {
        match rendered(messages[n - 1]) {
            Some(m) => blocks_said(messages, n - 1) + m.content,
            None => blocks_said(messages, n - 1),
        }
    }
}

proof fn lemma_blocks_of_prefix(a: Seq<WireView>, b: Seq<WireView>, n: int)
    requires
        0 <= n <= a.len(),
        n <= b.len(),
        a.take(n) == b.take(n),
    ensures
        blocks_of(a, n) == blocks_of(b, n),
    decreases n,
{
    if n > 0 {
        assert(a.take(n)[n - 1] == a[n - 1]);
        assert(b.take(n)[n - 1] == b[n - 1]);
        assert(a.take(n - 1) =~= a.take(n).take(n - 1));
        assert(b.take(n - 1) =~= b.take(n).take(n - 1));
        lemma_blocks_of_prefix(a, b, n - 1);
    }
}

/// Merging neighbours loses nothing and moves nothing: the blocks come in the order in which the
/// messages hold them.
pub proof fn coalescing_keeps_every_block(messages: Seq<MessageView>, n: int)
    requires
        0 <= n <= messages.len(),
    ensures
        blocks_of(coalesced(messages, n), coalesced(messages, n).len() as int) == blocks_said(
            messages,
            n,
        ),
    decreases n,
{
    if n > 0 {
        coalescing_keeps_every_block(messages, n - 1);
        let before = coalesced(messages, n - 1);
        let after = coalesced(messages, n);
        let k = before.len() as int;
        if let Some(m) = rendered(messages[n - 1]) {
            if k > 0 && before.last().from_assistant == m.from_assistant {
                assert(after.take(k - 1) =~= before.take(k - 1));
                lemma_blocks_of_prefix(after, before, k - 1);
                assert(blocks_of(before, k - 1) + (before[k - 1].content + m.content)
                    =~= blocks_of(before, k - 1) + before[k - 1].content + m.content);
            } else {
                assert(after.take(k) =~= before.take(k));
                lemma_blocks_of_prefix(after, before, k);
            }
        }
    }
}

/// A wire message as JSON.
pub open spec fn wire_json(m: WireView) -> JsonSpec {
    JsonSpec::Object(
        json::pairs2(
            "role"@,
            JsonSpec::Str(
                if m.from_assistant {
                    "assistant"@
                } else {
                    "user"@
                },
            ),
            "content"@,
            JsonSpec::Array(m.content),
        ),
    )
}

pub open spec fn ephemeral() -> JsonSpec {
    JsonSpec::Object(json::pairs1("type"@, JsonSpec::Str("ephemeral"@)))
}

/// The tool at `i`. A cache breakpoint on the last tool caches the whole tool block.
pub open spec fn rendered_tool(tools: Seq<ToolView>, i: int) -> JsonSpec {
    let base = json::pairs3(
        "name"@,
        JsonSpec::Str(tools[i].name),
        "description"@,
        JsonSpec::Str(tools[i].description),
        "input_schema"@,
        tools[i].input_schema,
    );
    JsonSpec::Object(
        if i == tools.len() - 1 {
            base.push(("cache_control"@, ephemeral()))
        } else {
            base
        },
    )
}

pub open spec fn rendered_tools(tools: Seq<ToolView>) -> JsonSpec {
    JsonSpec::Array(Seq::new(tools.len(), |i: int| rendered_tool(tools, i)))
}

/// The system prompt, sent as a text block with a cache breakpoint.
pub open spec fn system_member(system: Seq<char>) -> Option<JsonSpec> {
    if system.len() == 0 {
        None
    } else {
        Some(
            JsonSpec::Array(
                seq![
                    JsonSpec::Object(
                        json::pairs3(
                            "type"@,
                            JsonSpec::Str("text"@),
                            "text"@,
                            JsonSpec::Str(system),
                            "cache_control"@,
                            ephemeral(),
                        ),
                    ),
                ],
            ),
        )
    }
}

/// The Messages body of a request.
pub open spec fn wire_body(model: Seq<char>, req: RequestView) -> JsonSpec {
    let messages = coalesced(req.messages, req.messages.len() as int);
    let base = json::pairs4(
        "model"@,
        JsonSpec::Str(openai_chat::chosen_model(model, req.model)),
        "stream"@,
        JsonSpec::Bool(true),
        "max_tokens"@,
        JsonSpec::Number(
            NumberSpec::PosInt(
                match req.max_tokens {
                    Some(n) => n as u64,
                    None => 4096,
                },
            ),
        ),
        "messages"@,
        JsonSpec::Array(Seq::new(messages.len(), |i: int| wire_json(messages[i]))),
    );
    let with_system = openai_chat::with_member(base, "system"@, system_member(req.system));
    let with_tools = openai_chat::with_member(
        with_system,
        "tools"@,
        if req.tools.len() == 0 {
            None
        } else {
            Some(rendered_tools(req.tools))
        },
    );
    JsonSpec::Object(
        openai_chat::with_member(
            with_tools,
            "temperature"@,
            openai_chat::number_member(req.temperature),
        ),
    )
}

/// Anthropic Messages settings.
pub struct Anthropic {
    pub base_url: String,
    pub api_key: String,
    pub model: String,
}

fn text_json(text: &str) -> (r: Json)
    ensures
        r.model() == text_block(text@),
{
    let mut m = json::members();
    json::put(&mut m, "type", json::string("text"));
    json::put(&mut m, "text", json::string(text));
    json::object(m)
}

fn ephemeral_json() -> (r: Json)
    ensures
        r.model() == ephemeral(),
{
    let mut m = json::members();
    json::put(&mut m, "type", json::string("ephemeral"));
    json::object(m)
}

fn render_block(role: Role, b: &ContentBlock) -> (r: Option<Json>)
    ensures
        match r {
            Some(j) => wire_block(role, b@) == Some(j.model()),
            None => wire_block(role, b@) is None,
        },
{
    match (role, b) {
        (Role::User, ContentBlock::Text { text }) => Some(text_json(text.as_str())),
        (Role::User, ContentBlock::Image { media_type, data }) => {
            let mut source = json::members();
            json::put(&mut source, "type", json::string("base64"));
            json::put(&mut source, "media_type", json::string(media_type.as_str()));
            json::put(&mut source, "data", json::string(data.as_str()));
            let mut m = json::members();
            json::put(&mut m, "type", json::string("image"));
            json::put(&mut m, "source", json::object(source));
            Some(json::object(m))
        },
        (Role::Assistant, ContentBlock::Text { text }) => Some(text_json(text.as_str())),
        (Role::Assistant, ContentBlock::ToolUse { id, name, input }) => {
            let mut m = json::members();
            json::put(&mut m, "type", json::string("tool_use"));
            json::put(&mut m, "id", json::string(id.as_str()));
            json::put(&mut m, "name", json::string(name.as_str()));
            json::put(&mut m, "input", input.copy());
            Some(json::object(m))
        },
        (Role::Tool, ContentBlock::ToolResult { id, out }) => {
            let mut m = json::members();
            json::put(&mut m, "type", json::string("tool_result"));
            json::put(&mut m, "tool_use_id", json::string(id.as_str()));
            json::put(&mut m, "content", json::string(out.text.as_str()));
            json::put(&mut m, "is_error", json::boolean(out.is_error));
            Some(json::object(m))
        },
        _ => None,
    }
}

fn render_message(m: &Message) -> (r: Option<WireMessage>)
    ensures
        match r {
            Some(w) => rendered(m@) == Some(w@),
            None => rendered(m@) is None,
        },
{
    if m.role == Role::System {
        return None;
    }
    let ghost cv = m@.content;
    let mut content = json::items();
    let mut i: usize = 0;
    while i < m.content.len()
        invariant
            0 <= i <= m.content@.len(),
            cv == text::views(m.content@),
            json::items_model(content@) == wire_blocks(m.role, cv, i as int),
        decreases m.content@.len() - i,
    {
        assert(cv[i as int] == m.content@[i as int]@);
        if let Some(b) = render_block(m.role, &m.content[i]) {
            json::add_item(&mut content, b);
        }
        i += 1;
    }
    Some(WireMessage { from_assistant: m.role == Role::Assistant, content })
}

/// Merge adjacent wire messages that share a role.
///
/// The Messages API wants strictly alternating roles, but the canonical history can legitimately
/// produce two user-role messages in a row (a tool-result message followed by an injected steering
/// message, for instance). Concatenating their content blocks preserves both.
pub fn coalesce_roles(messages: &Vec<Message>) -> (r: Vec<WireMessage>)
    ensures
        text::views(r@) == coalesced(text::views(messages@), messages@.len() as int),
{
    let ghost mv = text::views(messages@);
    let mut out: Vec<WireMessage> = Vec::new();
    proof {
        text::views_empty(out@);
    }
    let mut i: usize = 0;
    while i < messages.len()
        invariant
            0 <= i <= messages@.len(),
            mv == text::views(messages@),
            text::views(out@) == coalesced(mv, i as int),
        decreases messages@.len() - i,
    {
        assert(mv[i as int] == messages@[i as int]@);
        let ghost before = text::views(out@);
        if let Some(mut msg) = render_message(&messages[i]) {
            let n = out.len();
            if n > 0 && out[n - 1].from_assistant == msg.from_assistant {
                assert(before.last() == out@.last()@);
                let mut prev = out.remove(n - 1);
                assert(text::views(out@) =~= before.drop_last());
                let ghost had = prev.content@;
                let ghost more = msg.content@;
                prev.content.append(&mut msg.content);
                assert(json::items_model(prev.content@) =~= json::items_model(had)
                    + json::items_model(more));
                out.push(prev);
            } else {
                if n > 0 {
                    assert(before.last() == out@.last()@);
                }
                out.push(msg);
            }
        }
        i += 1;
    }
    out
}

fn render_tools(tools: &Vec<ToolSpec>) -> (r: Json)
    ensures
        r.model() == rendered_tools(text::views(tools@)),
{
    let ghost tv = text::views(tools@);
    let ghost all = rendered_tools(tv)->Array_0;
    let mut out = json::items();
    let mut i: usize = 0;
    while i < tools.len()
        invariant
            0 <= i <= tools@.len(),
            tv == text::views(tools@),
            all == rendered_tools(tv)->Array_0,
            json::items_model(out@) == all.take(i as int),
        decreases tools@.len() - i,
    {
        let t = &tools[i];
        assert(tv[i as int] == t@);
        let mut m = json::members();
        json::put(&mut m, "name", json::string(t.name.as_str()));
        json::put(&mut m, "description", json::string(t.description.as_str()));
        json::put(&mut m, "input_schema", t.input_schema.copy());
        if i == tools.len() - 1 {
            json::put(&mut m, "cache_control", ephemeral_json());
        }
        json::add_item(&mut out, json::object(m));
        i += 1;
        assert(all.take(i as int) =~= all.take(i - 1).push(all[i - 1]));
    }
    assert(all.take(i as int) =~= all);
    json::array(out)
}

impl Anthropic {
    pub fn new(api_key: &str, model: &str) -> (r: Anthropic)
        ensures
            r.base_url@ == "https://api.anthropic.com"@,
            r.api_key@ == api_key@,
            r.model@ == model@,
    {
        Anthropic {
            base_url: "https://api.anthropic.com".to_string(),
            api_key: api_key.to_string(),
            model: model.to_string(),
        }
    }

    pub fn with_base_url(self, base_url: &str) -> (r: Anthropic)
        ensures
            r.base_url@ == base_url@,
            r.api_key == self.api_key,
            r.model == self.model,
    {
        Anthropic { base_url: base_url.to_string(), api_key: self.api_key, model: self.model }
    }

    /// Where requests are sent.
    pub fn endpoint(&self) -> (r: String)
        ensures
            r@ == self.base_url@ + "/v1/messages"@,
    {
        text::concat2(self.base_url.as_str(), "/v1/messages")
    }

    pub fn caps(&self) -> (r: Caps)
        ensures
            r.thinking && r.tools && r.images && r.prompt_cache && r.native_context_mgmt,
    {
        Caps {
            thinking: true,
            tools: true,
            images: true,
            prompt_cache: true,
            native_context_mgmt: true,
        }
    }

    /// Render a canonical request into the Messages JSON body.
    pub fn to_wire(&self, req: &ChatRequest) -> (r: Json)
        ensures
            r.model() == wire_body(self.model@, req@),
    {
        let merged = coalesce_roles(&req.messages);
        let ghost mv = coalesced(req@.messages, req@.messages.len() as int);
        let ghost all = Seq::new(mv.len(), |i: int| wire_json(mv[i]));
        let mut messages = json::items();
        let mut pending = merged;
        let n = pending.len();
        let mut i: usize = 0;
        proof {
            assert forall|k: int| 0 <= k < pending@.len() implies (#[trigger] pending@[k])@
                == mv[i + k] by {
                assert(text::views(pending@)[k] == pending@[k]@);
            }
        }
        while pending.len() > 0
            invariant
                i + pending@.len() == n,
                n == mv.len(),
                all == Seq::new(mv.len(), |i: int| wire_json(mv[i])),
                forall|k: int| 0 <= k < pending@.len() ==> (#[trigger] pending@[k])@ == mv[i + k],
                json::items_model(messages@) == all.take(i as int),
            decreases pending@.len(),
        {
            let ghost was = pending@;
            let w = pending.remove(0);
            assert(w@ == mv[i as int]) by {
                assert(was[0]@ == mv[i + 0]);
            }
            let mut m = json::members();
            if w.from_assistant {
                json::put(&mut m, "role", json::string("assistant"));
            } else {
                json::put(&mut m, "role", json::string("user"));
            }
            json::put(&mut m, "content", json::array(w.content));
            json::add_item(&mut messages, json::object(m));
            i += 1;
            proof {
                assert forall|k: int| 0 <= k < pending@.len() implies (#[trigger] pending@[k])@
                    == mv[i + k] by {
                    assert(pending@[k] == was[k + 1]);
                    assert(was[k + 1]@ == mv[(i - 1) + (k + 1)]);
                }
                assert(all.take(i as int) =~= all.take(i - 1).push(all[i - 1]));
            }
        }
        assert(all.take(i as int) =~= all);
        let model = if req.model.as_str().unicode_len() == 0 {
            self.model.as_str()
        } else {
            req.model.as_str()
        };
        let max: u64 = match req.max_tokens {
            Some(n) => n as u64,
            None => 4096,
        };
        let mut body = json::members();
        json::put(&mut body, "model", json::string(model));
        json::put(&mut body, "stream", json::boolean(true));
        json::put(&mut body, "max_tokens", json::uint(max));
        json::put(&mut body, "messages", json::array(messages));
        if req.system.as_str().unicode_len() > 0 {
            let mut m = json::members();
            json::put(&mut m, "type", json::string("text"));
            json::put(&mut m, "text", json::string(req.system.as_str()));
            json::put(&mut m, "cache_control", ephemeral_json());
            let mut blocks = json::items();
            json::add_item(&mut blocks, json::object(m));
            json::put(&mut body, "system", json::array(blocks));
        }
        if req.tools.len() > 0 {
            json::put(&mut body, "tools", render_tools(&req.tools));
        }
        if let Some(t) = &req.temperature {
            json::put(&mut body, "temperature", Json::Number(t.copy()));
        }
        json::object(body)
    }
}

} // verus!
