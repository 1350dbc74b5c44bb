//! OpenAI Responses API adapter.
//!
//! The Responses API uses typed SSE events (`response.output_text.delta`,
//! `response.function_call_arguments.delta`, `response.output_item.added/done`,
//! `response.completed`) and an `input`-items request shape distinct from Chat Completions.
//! [`ResponsesStreamParser`] maps the events to canonical [`WireEvent`]s (function-call `item_id`
//! -> `call_id`). This is the API family that offers server-side compaction.

use crate::engine::types::{
    BlockView, Caps, ChatRequest, ContentBlock, EventView, Message, MessageView, RequestView, Role,
    ToolSpec, ToolView, Usage, WireEvent,
};
use crate::json;
use crate::json::{Json, JsonSpec};
use crate::provider::anthropic_messages;
use crate::provider::openai_chat;
use crate::table::Table;
use crate::text;
use vstd::prelude::*;
use vstd::string::*;

verus! {

broadcast use crate::text::views_push;

// ---- streaming parser -----------------------------------------------------------------------

/// Normalizes Responses SSE payloads to canonical events. Stateful: maps a function call's
/// streaming `item_id` to the `call_id` used as the canonical tool id.
pub struct ResponsesStreamParser {
    /// function-call item_id -> call_id
    call_ids: Table<String>,
}

/// What a [`ResponsesStreamParser`] remembers: the call id of each function-call item.
pub struct ResponsesState {
    pub call_ids: Map<Seq<char>, Seq<char>>,
}

impl View for ResponsesStreamParser {
    type V = ResponsesState;

    closed spec fn view(&self) -> ResponsesState {
        ResponsesState { call_ids: self.call_ids@.map_values(|s: String| s@) }
    }
}

/// What a new output item does: a function call opens.
pub open spec fn item_added(st: ResponsesState, v: JsonSpec) -> (ResponsesState, Seq<EventView>) {
    let item = json::field_or_null(v, "item"@);
    if json::string_field(item, "type"@) == Some("function_call"@) {
        let call_id = anthropic_messages::text_at(item, "call_id"@);
        (
            ResponsesState {
                call_ids: st.call_ids.insert(
                    anthropic_messages::text_at(item, "id"@),
                    call_id,
                ),
            },
            seq![
                EventView::ToolUseStart {
                    id: call_id,
                    name: anthropic_messages::text_at(item, "name"@),
                },
            ],
        )
    } else {
        (st, seq![])
    }
}

/// The message of a failed response.
pub open spec fn failure(v: JsonSpec) -> Seq<char> {
    let error = json::field_or_null(json::field_or_null(v, "response"@), "error"@);
    match json::string_field(error, "message"@) {
        Some(m) => m,
        None => match json::string_field(v, "message"@) {
            Some(m) => m,
            None => "responses stream error"@,
        },
    }
}

/// What a JSON payload does. Unknown events do nothing.
pub open spec fn after_value(st: ResponsesState, v: JsonSpec) -> (ResponsesState, Seq<EventView>) {
    let kind = anthropic_messages::text_at(v, "type"@);
    let delta = anthropic_messages::text_at(v, "delta"@);
    if kind == "response.output_text.delta"@ {
        (st, seq![EventView::TextDelta(delta)])
    } else if kind == "response.reasoning_summary_text.delta"@ || kind
        == "response.reasoning_text.delta"@ {
        (st, seq![EventView::ThinkingDelta(delta)])
    } else if kind == "response.output_item.added"@ {
        item_added(st, v)
    } else if kind == "response.function_call_arguments.delta"@ {
        let item = anthropic_messages::text_at(v, "item_id"@);
        (
            st,
            if st.call_ids.dom().contains(item) {
                seq![EventView::ToolInputDelta { id: st.call_ids[item], json: delta }]
            } else {
                seq![]
            },
        )
    } else if kind == "response.output_item.done"@ {
        let item = anthropic_messages::text_at(json::field_or_null(v, "item"@), "id"@);
        (
            st,
            if st.call_ids.dom().contains(item) {
                seq![EventView::ToolUseEnd { id: st.call_ids[item] }]
            } else {
                seq![]
            },
        )
    } else if kind == "response.completed"@ || kind == "response.incomplete"@ {
        let usage = json::field_or_null(json::field_or_null(v, "response"@), "usage"@);
        (
            st,
            Seq::empty().push(
                EventView::Usage(
                    Usage {
                        input_tokens: anthropic_messages::number_at(usage, "input_tokens"@),
                        output_tokens: anthropic_messages::number_at(usage, "output_tokens"@),
                        cache_read: 0,
                        cache_write: 0,
                    },
                ),
            ).push(EventView::Done),
        )
    } else if kind == "response.failed"@ || kind == "error"@ {
        (st, seq![EventView::Error(failure(v))])
    } else {
        (st, seq![])
    }
}

/// What a payload does. One that is no JSON does nothing.
pub open spec fn after_payload(st: ResponsesState, data: Seq<char>) -> (
    ResponsesState,
    Seq<EventView>,
) {
    match json::json_parsed(data) {
        Ok(v) => after_value(st, v),
        Err(_) => (st, seq![]),
    }
}

impl Default for ResponsesStreamParser {
    fn default() -> (r: ResponsesStreamParser)
        ensures
            r@.call_ids == Map::<Seq<char>, Seq<char>>::empty(),
    {
        let r = ResponsesStreamParser { call_ids: Table::new() };
        assert(r@.call_ids =~= Map::empty());
        r
    }
}

impl ResponsesStreamParser {
    fn remember(&mut self, item: &str, call_id: String)
        ensures
            final(self)@.call_ids == old(self)@.call_ids.insert(item@, call_id@),
    {
        let ghost before = self@.call_ids;
        self.call_ids.insert(item, call_id);
        assert(self@.call_ids =~= before.insert(item@, call_id@));
    }

    fn call_id(&self, item: &str) -> (r: Option<String>)
        ensures
            match r {
                Some(id) => self@.call_ids.dom().contains(item@) && self@.call_ids[item@] == id@,
                None => !self@.call_ids.dom().contains(item@),
            },
    {
        match self.call_ids.get(item) {
            Some(id) => Some(id.clone()),
            None => None,
        }
    }

    /// What a JSON payload produces.
    pub fn push_value(&mut self, v: &Json) -> (r: Vec<WireEvent>)
        ensures
            ({
                let (next, events) = after_value(old(self)@, v.model());
                final(self)@ == next && text::views(r@) == events
            }),
    {
        let mut out: Vec<WireEvent> = Vec::new();
        proof {
            text::views_empty(out@);
        }
        let kind = anthropic_messages::text_field(Some(v), "type");
        let kind = kind.as_str();
        let delta = anthropic_messages::text_field(Some(v), "delta");
        if text::same(kind, "response.output_text.delta") {
            out.push(WireEvent::TextDelta(delta));
        } else if text::same(kind, "response.reasoning_summary_text.delta") || text::same(
            kind,
            "response.reasoning_text.delta",
        ) {
            out.push(WireEvent::ThinkingDelta(delta));
        } else if text::same(kind, "response.output_item.added") {
            let item = v.get("item");
            let is_call = match item {
                Some(i) => match i.str_field("type") {
                    Some(t) => text::same(t, "function_call"),
                    None => false,
                },
                None => false,
            };
            if is_call {
                let item_id = anthropic_messages::text_field(item, "id");
                let call_id = anthropic_messages::text_field(item, "call_id");
                let name = anthropic_messages::text_field(item, "name");
                self.remember(item_id.as_str(), call_id.clone());
                out.push(WireEvent::ToolUseStart { id: call_id, name });
            }
        } else if text::same(kind, "response.function_call_arguments.delta") {
            let item = anthropic_messages::text_field(Some(v), "item_id");
            if let Some(id) = self.call_id(item.as_str()) {
                out.push(WireEvent::ToolInputDelta { id, json: delta });
            }
        } else if text::same(kind, "response.output_item.done") {
            let item = anthropic_messages::text_field(v.get("item"), "id");
            if let Some(id) = self.call_id(item.as_str()) {
                out.push(WireEvent::ToolUseEnd { id });
            }
        } else if text::same(kind, "response.completed") || text::same(
            kind,
            "response.incomplete",
        ) {
            let usage = match v.get("response") {
                Some(r) => r.get("usage"),
                None => None,
            };
            let (input_tokens, output_tokens) = match usage {
                Some(u) => (
                    anthropic_messages::number_field(u, "input_tokens"),
                    anthropic_messages::number_field(u, "output_tokens"),
                ),
                None => (0, 0),
            };
            out.push(
                WireEvent::Usage(
                    Usage { input_tokens, output_tokens, cache_read: 0, cache_write: 0 },
                ),
            );
            out.push(WireEvent::Done);
        } else if text::same(kind, "response.failed") || text::same(kind, "error") {
            out.push(WireEvent::Error(failure_text(v)));
        }
        out
    }

    /// The events that a payload produces.
    pub fn push(&mut self, data: &str) -> (r: Vec<WireEvent>)
        ensures
            ({
                let (next, events) = after_payload(old(self)@, data@);
                final(self)@ == next && text::views(r@) == events
            }),
    {
        match json::parse(data) {
            Ok(v) => self.push_value(&v),
            Err(_) => {
                let out: Vec<WireEvent> = Vec::new();
                proof {
                    text::views_empty(out@);
                }
                out
            },
        }
    }
}

fn failure_text(v: &Json) -> (r: String)
    ensures
        r@ == failure(v.model()),
{
    let nested = match v.get("response") {
        Some(r) => match r.get("error") {
            Some(e) => e.str_field("message"),
            None => None,
        },
        None => None,
    };
    match nested {
        Some(m) => m.to_string(),
        None => match v.str_field("message") {
            Some(m) => m.to_string(),
            None => "responses stream error".to_string(),
        },
    }
}

// ---- requests -------------------------------------------------------------------------------

/// The input parts of a user's `content[..n]`.
pub open spec fn user_parts(content: Seq<BlockView>, n: int) -> Seq<JsonSpec>
    decreases n,
{
    if n <= 0 {
        seq![]
    } else {
        match content[n - 1] {
            BlockView::Text { text } => user_parts(content, n - 1).push(
                JsonSpec::Object(
                    json::pairs2(
                        "type"@,
                        JsonSpec::Str("input_text"@),
                        "text"@,
                        JsonSpec::Str(text),
                    ),
                ),
            ),
            BlockView::Image { media_type, data } => user_parts(content, n - 1).push(
                JsonSpec::Object(
                    json::pairs2(
                        "type"@,
                        JsonSpec::Str("input_image"@),
                        "image_url"@,
                        JsonSpec::Str(openai_chat::data_url(media_type, data)),
                    ),
                ),
            ),
            _ => user_parts(content, n - 1),
        }
    }
}

/// The text parts of the assistant's `content[..n]`.
pub open spec fn output_parts(content: Seq<BlockView>, n: int) -> Seq<JsonSpec>
    decreases n,
{
    if n <= 0 {
        seq![]
    } else {
        match content[n - 1] {
            BlockView::Text { text } => output_parts(content, n - 1).push(
                JsonSpec::Object(
                    json::pairs2(
                        "type"@,
                        JsonSpec::Str("output_text"@),
                        "text"@,
                        JsonSpec::Str(text),
                    ),
                ),
            ),
            _ => output_parts(content, n - 1),
        }
    }
}

/// The items of the assistant's tool calls among `content[..n]`.
pub open spec fn call_items(content: Seq<BlockView>, n: int) -> Seq<JsonSpec>
    decreases n,
{
    if n <= 0 {
        seq![]
    } else {
        match content[n - 1] {
            BlockView::ToolUse { id, name, input } => call_items(content, n - 1).push(
                JsonSpec::Object(
                    json::pairs4(
                        "type"@,
                        JsonSpec::Str("function_call"@),
                        "call_id"@,
                        JsonSpec::Str(id),
                        "name"@,
                        JsonSpec::Str(name),
                        "arguments"@,
                        JsonSpec::Str(json::json_printed(input)),
                    ),
                ),
            ),
            _ => call_items(content, n - 1),
        }
    }
}

/// The items of the tool results among `content[..n]`.
pub open spec fn result_items(content: Seq<BlockView>, n: int) -> Seq<JsonSpec>
    decreases n,
{
    if n <= 0 {
        seq![]
    } else {
        match content[n - 1] {
            BlockView::ToolResult { id, out } => result_items(content, n - 1).push(
                JsonSpec::Object(
                    json::pairs3(
                        "type"@,
                        JsonSpec::Str("function_call_output"@),
                        "call_id"@,
                        JsonSpec::Str(id),
                        "output"@,
                        JsonSpec::Str(out.text),
                    ),
                ),
            ),
            _ => result_items(content, n - 1),
        }
    }
}

pub open spec fn said_by(role: Seq<char>, parts: Seq<JsonSpec>) -> JsonSpec {
    JsonSpec::Object(
        json::pairs2("role"@, JsonSpec::Str(role), "content"@, JsonSpec::Array(parts)),
    )
}

/// The input items that one canonical message becomes. The assistant's text comes before its calls.
pub open spec fn rendered(m: MessageView) -> Seq<JsonSpec> {
    let n = m.content.len() as int;
    match m.role {
        Role::System => seq![],
        Role::User => seq![said_by("user"@, user_parts(m.content, n))],
        Role::Assistant => if output_parts(m.content, n).len() == 0 {
            call_items(m.content, n)
        } else {
            seq![said_by("assistant"@, output_parts(m.content, n))] + call_items(m.content, n)
        },
        Role::Tool => result_items(m.content, n),
    }
}

/// The input items of `messages[..n]`.
pub open spec fn rendered_all(messages: Seq<MessageView>, n: int) -> Seq<JsonSpec>
    decreases n,
{
    if n <= 0 {
        seq![]
    } else {
        rendered_all(messages, n - 1) + rendered(messages[n - 1])
    }
}

pub open spec fn rendered_tool(t: ToolView) -> JsonSpec {
    JsonSpec::Object(
        json::pairs4(
            "type"@,
            JsonSpec::Str("function"@),
            "name"@,
            JsonSpec::Str(t.name),
            "description"@,
            JsonSpec::Str(t.description),
            "parameters"@,
            t.input_schema,
        ),
    )
}

pub open spec fn rendered_tools(tools: Seq<ToolView>) -> JsonSpec {
    JsonSpec::Array(Seq::new(tools.len(), |i: int| rendered_tool(tools[i])))
}

/// The Responses body of a request.
pub open spec fn wire_body(model: Seq<char>, req: RequestView) -> JsonSpec {
    let base = json::pairs3(
        "model"@,
        JsonSpec::Str(openai_chat::chosen_model(model, req.model)),
        "stream"@,
        JsonSpec::Bool(true),
        "input"@,
        JsonSpec::Array(rendered_all(req.messages, req.messages.len() as int)),
    );
    let with_system = openai_chat::with_member(
        base,
        "instructions"@,
        if req.system.len() == 0 {
            None
        } else {
            Some(JsonSpec::Str(req.system))
        },
    );
    let with_tools = openai_chat::with_member(
        with_system,
        "tools"@,
        if req.tools.len() == 0 {
            None
        } else {
            Some(rendered_tools(req.tools))
        },
    );
    let with_max = openai_chat::with_member(
        with_tools,
        "max_output_tokens"@,
        openai_chat::count_member(req.max_tokens),
    );
    JsonSpec::Object(
        openai_chat::with_member(
            with_max,
            "temperature"@,
            openai_chat::number_member(req.temperature),
        ),
    )
}

/// OpenAI Responses settings.
pub struct OpenAiResponses {
    pub base_url: String,
    pub api_key: String,
    pub model: String,
}

fn typed_text(kind: &str, text: &str) -> (r: Json)
    ensures
        r.model() == JsonSpec::Object(
            json::pairs2("type"@, JsonSpec::Str(kind@), "text"@, JsonSpec::Str(text@)),
        ),
{
    let mut m = json::members();
    json::put(&mut m, "type", json::string(kind));
    json::put(&mut m, "text", json::string(text));
    json::object(m)
}

fn said_json(role: &str, parts: Vec<Json>) -> (r: Json)
    ensures
        r.model() == said_by(role@, json::items_model(parts@)),
{
    let mut m = json::members();
    json::put(&mut m, "role", json::string(role));
    json::put(&mut m, "content", json::array(parts));
    json::object(m)
}

fn user_item(content: &Vec<ContentBlock>) -> (r: Json)
    ensures
        r.model() == said_by("user"@, user_parts(text::views(content@), content@.len() as int)),
{
    let ghost cv = text::views(content@);
    let mut parts = json::items();
    let mut i: usize = 0;
    while i < content.len()
        invariant
            0 <= i <= content@.len(),
            cv == text::views(content@),
            json::items_model(parts@) == user_parts(cv, i as int),
        decreases content@.len() - i,
    {
        assert(cv[i as int] == content@[i as int]@);
        match &content[i] {
            ContentBlock::Text { text } => {
                json::add_item(&mut parts, typed_text("input_text", text.as_str()));
            },
            ContentBlock::Image { media_type, data } => {
                let url = openai_chat::image_url(media_type.as_str(), data.as_str());
                let mut m = json::members();
                json::put(&mut m, "type", json::string("input_image"));
                json::put(&mut m, "image_url", json::string(url.as_str()));
                json::add_item(&mut parts, json::object(m));
            },
            _ => {},
        }
        i += 1;
    }
    said_json("user", parts)
}

fn assistant_parts(content: &Vec<ContentBlock>) -> (r: (Vec<Json>, Vec<Json>))
    ensures
        json::items_model(r.0@) == output_parts(text::views(content@), content@.len() as int),
        json::items_model(r.1@) == call_items(text::views(content@), content@.len() as int),
{
    let ghost cv = text::views(content@);
    let mut parts = json::items();
    let mut calls = json::items();
    let mut i: usize = 0;
    while i < content.len()
        invariant
            0 <= i <= content@.len(),
            cv == text::views(content@),
            json::items_model(parts@) == output_parts(cv, i as int),
            json::items_model(calls@) == call_items(cv, i as int),
        decreases content@.len() - i,
    {
        assert(cv[i as int] == content@[i as int]@);
        match &content[i] {
            ContentBlock::Text { text } => {
                json::add_item(&mut parts, typed_text("output_text", text.as_str()));
            },
            ContentBlock::ToolUse { id, name, input } => {
                let mut m = json::members();
                json::put(&mut m, "type", json::string("function_call"));
                json::put(&mut m, "call_id", json::string(id.as_str()));
                json::put(&mut m, "name", json::string(name.as_str()));
                json::put(&mut m, "arguments", json::string(json::print(input).as_str()));
                json::add_item(&mut calls, json::object(m));
            },
            _ => {},
        }
        i += 1;
    }
    (parts, calls)
}

fn results(content: &Vec<ContentBlock>) -> (r: Vec<Json>)
    ensures
        json::items_model(r@) == result_items(text::views(content@), content@.len() as int),
{
    let ghost cv = text::views(content@);
    let mut items = json::items();
    let mut i: usize = 0;
    while i < content.len()
        invariant
            0 <= i <= content@.len(),
            cv == text::views(content@),
            json::items_model(items@) == result_items(cv, i as int),
        decreases content@.len() - i,
    {
        assert(cv[i as int] == content@[i as int]@);
        if let ContentBlock::ToolResult { id, out } = &content[i] {
            let mut m = json::members();
            json::put(&mut m, "type", json::string("function_call_output"));
            json::put(&mut m, "call_id", json::string(id.as_str()));
            json::put(&mut m, "output", json::string(out.text.as_str()));
            json::add_item(&mut items, json::object(m));
        }
        i += 1;
    }
    items
}

/// Appends the input items that one canonical message becomes.
fn render_message(m: &Message, out: &mut Vec<Json>)
    ensures
        json::items_model(final(out)@) == json::items_model(old(out)@) + rendered(m@),
{
    let ghost before = out@;
    match m.role {
        Role::System => {},
        Role::User => {
            json::add_item(out, user_item(&m.content));
        },
        Role::Assistant => {
            let (parts, mut calls) = assistant_parts(&m.content);
            assert(json::items_model(parts@).len() == parts@.len());
            if parts.len() > 0 {
                json::add_item(out, said_json("assistant", parts));
            }
            let ghost had = out@;
            let ghost more = calls@;
            out.append(&mut calls);
            assert(json::items_model(out@) =~= json::items_model(had) + json::items_model(more));
        },
        Role::Tool => {
            let mut items = results(&m.content);
            let ghost more = items@;
            out.append(&mut items);
            assert(json::items_model(out@) =~= json::items_model(before) + json::items_model(more));
        },
    }
    assert(json::items_model(out@) =~= json::items_model(before) + rendered(m@));
}

fn render_tools(tools: &Vec<ToolSpec>) -> (r: Json)
    ensures
        r.model() == rendered_tools(text::views(tools@)),
{
    let ghost tv = text::views(tools@);
    let ghost all = rendered_tools(tv)->Array_0;
    let mut out = json::items();
    let mut i: usize = 0;
    while i < tools.len()
        invariant
            0 <= i <= tools@.len(),
            tv == text::views(tools@),
            all == rendered_tools(tv)->Array_0,
            json::items_model(out@) == all.take(i as int),
        decreases tools@.len() - i,
    {
        let t = &tools[i];
        assert(tv[i as int] == t@);
        let mut m = json::members();
        json::put(&mut m, "type", json::string("function"));
        json::put(&mut m, "name", json::string(t.name.as_str()));
        json::put(&mut m, "description", json::string(t.description.as_str()));
        json::put(&mut m, "parameters", t.input_schema.copy());
        json::add_item(&mut out, json::object(m));
        i += 1;
        assert(all.take(i as int) =~= all.take(i - 1).push(all[i - 1]));
    }
    assert(all.take(i as int) =~= all);
    json::array(out)
}

impl OpenAiResponses {
    pub fn new(api_key: &str, model: &str) -> (r: OpenAiResponses)
        ensures
            r.base_url@ == "https://api.openai.com/v1"@,
            r.api_key@ == api_key@,
            r.model@ == model@,
    {
        OpenAiResponses {
            base_url: "https://api.openai.com/v1".to_string(),
            api_key: api_key.to_string(),
            model: model.to_string(),
        }
    }

    pub fn with_base_url(self, base_url: &str) -> (r: OpenAiResponses)
        ensures
            r.base_url@ == base_url@,
            r.api_key == self.api_key,
            r.model == self.model,
    {
        OpenAiResponses { base_url: base_url.to_string(), api_key: self.api_key, model: self.model }
    }

    /// Where requests are sent.
    pub fn endpoint(&self) -> (r: String)
        ensures
            r@ == self.base_url@ + "/responses"@,
    {
        text::concat2(self.base_url.as_str(), "/responses")
    }

    pub fn caps(&self) -> (r: Caps)
        ensures
            r.thinking && r.tools && r.images && r.prompt_cache && r.native_context_mgmt,
    {
        Caps {
            thinking: true,
            tools: true,
            images: true,
            prompt_cache: true,
            native_context_mgmt: true,
        }
    }

    /// Render a canonical request into the Responses JSON body.
    pub fn to_wire(&self, req: &ChatRequest) -> (r: Json)
        ensures
            r.model() == wire_body(self.model@, req@),
    {
        let ghost mv = req@.messages;
        let mut input = json::items();
        let mut i: usize = 0;
        while i < req.messages.len()
            invariant
                0 <= i <= req.messages@.len(),
                mv == text::views(req.messages@),
                json::items_model(input@) == rendered_all(mv, i as int),
            decreases req.messages@.len() - i,
        {
            assert(mv[i as int] == req.messages@[i as int]@);
            render_message(&req.messages[i], &mut input);
            i += 1;
        }
        let model = if req.model.as_str().unicode_len() == 0 {
            self.model.as_str()
        } else {
            req.model.as_str()
        };
        let mut body = json::members();
        json::put(&mut body, "model", json::string(model));
        json::put(&mut body, "stream", json::boolean(true));
        json::put(&mut body, "input", json::array(input));
        if req.system.as_str().unicode_len() > 0 {
            json::put(&mut body, "instructions", json::string(req.system.as_str()));
        }
        if req.tools.len() > 0 {
            json::put(&mut body, "tools", render_tools(&req.tools));
        }
        if let Some(n) = req.max_tokens {
            json::put(&mut body, "max_output_tokens", json::uint(n as u64));
        }
        if let Some(t) = &req.temperature {
            json::put(&mut body, "temperature", Json::Number(t.copy()));
        }
        json::object(body)
    }
}

} // verus!
