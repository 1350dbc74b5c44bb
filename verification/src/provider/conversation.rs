//! What a conversation tells, whichever provider it is sent to.
//!
//! Every adapter renders the same canonical history in its own wire format. The laws here read those
//! formats back: each of them carries the same texts, images, tool calls and tool results, in the
//! same order, so that switching the provider in the middle of a conversation loses none of it.

use crate::engine::types;
use crate::engine::types::{BlockView, MessageView, RequestView, Role};
use crate::json;
use crate::json::JsonSpec;
use crate::provider::anthropic_messages;
use crate::provider::openai_chat;
use crate::provider::openai_responses;
use vstd::prelude::*;
use vstd::string::*;

verus! {

/// What a conversation tells a model.
#[verifier::ext_equal]
pub struct Told {
    /// What the user and the assistant wrote, one text after the other.
    pub text: Seq<char>,
    /// The images, as `data:` URLs.
    pub images: Seq<Seq<char>>,
    /// The tool calls: the id, the tool's name, and the arguments as JSON text.
    pub calls: Seq<(Seq<char>, Seq<char>, Seq<char>)>,
    /// The tool results: the id of the call, and the output.
    pub results: Seq<(Seq<char>, Seq<char>)>,
}

pub open spec fn nothing() -> Told {
    Told { text: seq![], images: seq![], calls: seq![], results: seq![] }
}

/// The one, then the other.
pub open spec fn both(a: Told, b: Told) -> Told {
    Told {
        text: a.text + b.text,
        images: a.images + b.images,
        calls: a.calls + b.calls,
        results: a.results + b.results,
    }
}

pub open spec fn a_text(text: Seq<char>) -> Told {
    Told { text, ..nothing() }
}

pub open spec fn an_image(url: Seq<char>) -> Told {
    Told { images: Seq::empty().push(url), ..nothing() }
}

pub open spec fn a_call(id: Seq<char>, name: Seq<char>, arguments: Seq<char>) -> Told {
    Told { calls: Seq::empty().push((id, name, arguments)), ..nothing() }
}

pub open spec fn a_result(id: Seq<char>, output: Seq<char>) -> Told {
    Told { results: Seq::empty().push((id, output)), ..nothing() }
}

// ---- what the canonical history tells -------------------------------------------------------

/// What a block tells where a message of this role holds it. The assistant's reasoning is its own.
pub open spec fn told_by_block(role: Role, b: BlockView) -> Told {
    match (role, b) {
        (Role::User, BlockView::Text { text }) => a_text(text),
        (Role::User, BlockView::Image { media_type, data }) => an_image(
            openai_chat::data_url(media_type, data),
        ),
        (Role::Assistant, BlockView::Text { text }) => a_text(text),
        (Role::Assistant, BlockView::ToolUse { id, name, input }) => a_call(
            id,
            name,
            json::json_printed(input),
        ),
        (Role::Tool, BlockView::ToolResult { id, out }) => a_result(id, out.text),
        _ => nothing(),
    }
}

/// What `content[..n]` tells.
pub open spec fn told_by_content(role: Role, content: Seq<BlockView>, n: int) -> Told
    decreases n,
{
    if n <= 0 {
        nothing()
    } else {
        both(told_by_content(role, content, n - 1), told_by_block(role, content[n - 1]))
    }
}

/// What a message tells.
pub open spec fn told_by_message(m: MessageView) -> Told {
    told_by_content(m.role, m.content, m.content.len() as int)
}

/// What `messages[..n]` tell.
pub open spec fn told(messages: Seq<MessageView>, n: int) -> Told
    decreases n,
{
    if n <= 0 {
        nothing()
    } else {
        both(told(messages, n - 1), told_by_message(messages[n - 1]))
    }
}

// ---- what the wire formats tell -------------------------------------------------------------

/// What `items[..n]` tell, read one by one.
pub open spec fn heard(items: Seq<JsonSpec>, read: spec_fn(JsonSpec) -> Told, n: int) -> Told
    decreases n,
{
    if n <= 0 {
        nothing()
    } else {
        both(heard(items, read, n - 1), read(items[n - 1]))
    }
}

/// What the items of an array tell.
pub open spec fn heard_in(j: JsonSpec, read: spec_fn(JsonSpec) -> Told) -> Told {
    match j {
        JsonSpec::Array(items) => heard(items, read, items.len() as int),
        _ => nothing(),
    }
}

/// The text member called `key`, or nothing.
pub open spec fn text_at(j: JsonSpec, key: Seq<char>) -> Seq<char> {
    anthropic_messages::text_at(j, key)
}

/// What a part of a chat message tells.
pub open spec fn chat_part(p: JsonSpec) -> Told {
    if text_at(p, "type"@) == "text"@ {
        a_text(text_at(p, "text"@))
    } else if text_at(p, "type"@) == "image_url"@ {
        an_image(text_at(json::field_or_null(p, "image_url"@), "url"@))
    } else {
        nothing()
    }
}

pub open spec fn chat_parts() -> spec_fn(JsonSpec) -> Told {
    |p: JsonSpec| chat_part(p)
}

/// What a call in a chat message tells.
pub open spec fn chat_call(c: JsonSpec) -> Told {
    let function = json::field_or_null(c, "function"@);
    a_call(text_at(c, "id"@), text_at(function, "name"@), text_at(function, "arguments"@))
}

pub open spec fn chat_calls() -> spec_fn(JsonSpec) -> Told {
    |c: JsonSpec| chat_call(c)
}

/// What the content of a chat message tells: a plain text, or parts.
pub open spec fn chat_content(content: JsonSpec) -> Told {
    match content {
        JsonSpec::Str(text) => a_text(text),
        _ => heard_in(content, chat_parts()),
    }
}

/// What a chat message tells.
pub open spec fn chat_message(m: JsonSpec) -> Told {
    let role = text_at(m, "role"@);
    if role == "tool"@ {
        a_result(text_at(m, "tool_call_id"@), text_at(m, "content"@))
    } else if role == "user"@ || role == "assistant"@ {
        both(
            chat_content(json::field_or_null(m, "content"@)),
            heard_in(json::field_or_null(m, "tool_calls"@), chat_calls()),
        )
    } else {
        nothing()
    }
}

pub open spec fn chat_messages() -> spec_fn(JsonSpec) -> Told {
    |m: JsonSpec| chat_message(m)
}

/// What a Chat Completions body tells.
pub open spec fn chat_tells(body: JsonSpec) -> Told {
    heard_in(json::field_or_null(body, "messages"@), chat_messages())
}

/// What a part of a Responses input item tells.
pub open spec fn responses_part(p: JsonSpec) -> Told {
    let kind = text_at(p, "type"@);
    if kind == "input_text"@ || kind == "output_text"@ {
        a_text(text_at(p, "text"@))
    } else if kind == "input_image"@ {
        an_image(text_at(p, "image_url"@))
    } else {
        nothing()
    }
}

pub open spec fn responses_parts() -> spec_fn(JsonSpec) -> Told {
    |p: JsonSpec| responses_part(p)
}

/// What a Responses input item tells: a call, a result, or else what someone said.
pub open spec fn responses_item(i: JsonSpec) -> Told {
    let kind = text_at(i, "type"@);
    if kind == "function_call"@ {
        a_call(text_at(i, "call_id"@), text_at(i, "name"@), text_at(i, "arguments"@))
    } else if kind == "function_call_output"@ {
        a_result(text_at(i, "call_id"@), text_at(i, "output"@))
    } else {
        heard_in(json::field_or_null(i, "content"@), responses_parts())
    }
}

pub open spec fn responses_items() -> spec_fn(JsonSpec) -> Told {
    |i: JsonSpec| responses_item(i)
}

/// What a Responses body tells.
pub open spec fn responses_tells(body: JsonSpec) -> Told {
    heard_in(json::field_or_null(body, "input"@), responses_items())
}

/// What a block of a Messages message tells.
pub open spec fn messages_block(b: JsonSpec) -> Told {
    let kind = text_at(b, "type"@);
    if kind == "text"@ {
        a_text(text_at(b, "text"@))
    } else if kind == "image"@ {
        let source = json::field_or_null(b, "source"@);
        an_image(openai_chat::data_url(text_at(source, "media_type"@), text_at(source, "data"@)))
    } else if kind == "tool_use"@ {
        a_call(
            text_at(b, "id"@),
            text_at(b, "name"@),
            json::json_printed(json::field_or_null(b, "input"@)),
        )
    } else if kind == "tool_result"@ {
        a_result(text_at(b, "tool_use_id"@), text_at(b, "content"@))
    } else {
        nothing()
    }
}

pub open spec fn messages_blocks() -> spec_fn(JsonSpec) -> Told {
    |b: JsonSpec| messages_block(b)
}

/// What a Messages message tells.
pub open spec fn messages_message(m: JsonSpec) -> Told {
    heard_in(json::field_or_null(m, "content"@), messages_blocks())
}

pub open spec fn messages_messages() -> spec_fn(JsonSpec) -> Told {
    |m: JsonSpec| messages_message(m)
}

/// What a Messages body tells.
pub open spec fn messages_tells(body: JsonSpec) -> Told {
    heard_in(json::field_or_null(body, "messages"@), messages_messages())
}

// ---- lists ----------------------------------------------------------------------------------

proof fn lemma_heard_prefix(
    a: Seq<JsonSpec>,
    b: Seq<JsonSpec>,
    read: spec_fn(JsonSpec) -> Told,
    n: int,
)
    requires
        n <= a.len(),
        n <= b.len(),
        forall|i: int| 0 <= i < n ==> a[i] == b[i],
    ensures
        heard(a, read, n) == heard(b, read, n),
    decreases n,
{
    if n > 0 {
        lemma_heard_prefix(a, b, read, n - 1);
    }
}

proof fn lemma_both(a: Told, b: Told, c: Told)
    ensures
        both(both(a, b), c) == both(a, both(b, c)),
        both(a, nothing()) == a,
        both(nothing(), a) == a,
{
    assert(both(both(a, b), c) =~= both(a, both(b, c)));
    assert(both(a, nothing()) =~= a);
    assert(both(nothing(), a) =~= a);
}

proof fn lemma_heard_push(items: Seq<JsonSpec>, last: JsonSpec, read: spec_fn(JsonSpec) -> Told)
    ensures
        heard(items.push(last), read, (items.len() + 1) as int) == both(
            heard(items, read, items.len() as int),
            read(last),
        ),
{
    lemma_heard_prefix(items.push(last), items, read, items.len() as int);
}

proof fn lemma_heard_append(
    a: Seq<JsonSpec>,
    b: Seq<JsonSpec>,
    read: spec_fn(JsonSpec) -> Told,
)
    ensures
        heard(a + b, read, (a.len() + b.len()) as int) == both(
            heard(a, read, a.len() as int),
            heard(b, read, b.len() as int),
        ),
    decreases b.len(),
{
    if b.len() == 0 {
        assert(a + b =~= a);
        lemma_both(heard(a, read, a.len() as int), nothing(), nothing());
    } else {
        let rest = b.drop_last();
        lemma_heard_append(a, rest, read);
        assert(a + b =~= (a + rest).push(b.last()));
        lemma_heard_push(a + rest, b.last(), read);
        assert(b =~= rest.push(b.last()));
        lemma_heard_push(rest, b.last(), read);
        lemma_both(
            heard(a, read, a.len() as int),
            heard(rest, read, rest.len() as int),
            read(b.last()),
        );
    }
}

proof fn lemma_heard_one(item: JsonSpec, read: spec_fn(JsonSpec) -> Told)
    ensures
        heard(seq![item], read, 1) == read(item),
{
    reveal_with_fuel(heard, 2);
    lemma_both(read(item), nothing(), nothing());
}

// ---- chat -----------------------------------------------------------------------------------

proof fn lemma_chat_keys()
    ensures
        "role"@ != "content"@ && "role"@ != "tool_calls"@ && "role"@ != "tool_call_id"@,
        "content"@ != "tool_calls"@ && "content"@ != "tool_call_id"@,
        "type"@ != "text"@ && "type"@ != "image_url"@ && "type"@ != "id"@ && "type"@ != "function"@,
        "id"@ != "function"@ && "name"@ != "arguments"@,
{
    reveal_strlit("role");
    reveal_strlit("content");
    reveal_strlit("tool_calls");
    reveal_strlit("tool_call_id");
    reveal_strlit("type");
    reveal_strlit("text");
    reveal_strlit("image_url");
    reveal_strlit("id");
    reveal_strlit("function");
    reveal_strlit("name");
    reveal_strlit("arguments");
    assert("role"@.len() == 4 && "content"@.len() == 7 && "tool_calls"@.len() == 10);
    assert("tool_call_id"@.len() == 12 && "type"@.len() == 4 && "text"@.len() == 4);
    assert("image_url"@.len() == 9 && "id"@.len() == 2 && "function"@.len() == 8);
    assert("name"@.len() == 4 && "arguments"@.len() == 9);
    assert("role"@[0] == 'r');
    assert("type"@[0] == 't');
    assert("text"@[0] == 't');
    assert("name"@[0] == 'n');
    assert("type"@[1] == 'y');
    assert("text"@[1] == 'e');
    assert("image_url"@[0] == 'i');
    assert("arguments"@[0] == 'a');
}

proof fn lemma_responses_keys()
    ensures
        "type"@ != "role"@ && "type"@ != "content"@ && "type"@ != "text"@ && "type"@
            != "image_url"@ && "type"@ != "call_id"@ && "type"@ != "name"@ && "type"@ != "arguments"@
            && "type"@ != "output"@,
        "role"@ != "content"@ && "call_id"@ != "name"@ && "call_id"@ != "arguments"@ && "call_id"@
            != "output"@ && "name"@ != "arguments"@,
{
    reveal_strlit("type");
    reveal_strlit("role");
    reveal_strlit("content");
    reveal_strlit("text");
    reveal_strlit("image_url");
    reveal_strlit("call_id");
    reveal_strlit("name");
    reveal_strlit("arguments");
    reveal_strlit("output");
    assert("type"@.len() == 4 && "role"@.len() == 4 && "content"@.len() == 7);
    assert("text"@.len() == 4 && "image_url"@.len() == 9 && "call_id"@.len() == 7);
    assert("name"@.len() == 4 && "arguments"@.len() == 9 && "output"@.len() == 6);
    assert("type"@[0] == 't');
    assert("role"@[0] == 'r');
    assert("type"@[1] == 'y');
    assert("text"@[1] == 'e');
    assert("name"@[0] == 'n');
    assert("text"@[0] == 't');
    assert("content"@[1] == 'o');
    assert("call_id"@[1] == 'a');
    assert("image_url"@[0] == 'i');
    assert("arguments"@[0] == 'a');
}

proof fn lemma_messages_keys()
    ensures
        "role"@ != "content"@ && "type"@ != "text"@ && "type"@ != "source"@ && "type"@
            != "media_type"@ && "type"@ != "data"@ && "media_type"@ != "data"@,
        "type"@ != "id"@ && "type"@ != "name"@ && "type"@ != "input"@ && "id"@ != "name"@ && "id"@
            != "input"@ && "name"@ != "input"@,
        "type"@ != "tool_use_id"@ && "type"@ != "content"@ && "tool_use_id"@ != "content"@,
{
    reveal_strlit("type");
    reveal_strlit("role");
    reveal_strlit("content");
    reveal_strlit("text");
    reveal_strlit("source");
    reveal_strlit("media_type");
    reveal_strlit("data");
    reveal_strlit("id");
    reveal_strlit("name");
    reveal_strlit("input");
    reveal_strlit("tool_use_id");
    assert("type"@.len() == 4 && "role"@.len() == 4 && "content"@.len() == 7);
    assert("text"@.len() == 4 && "source"@.len() == 6 && "media_type"@.len() == 10);
    assert("data"@.len() == 4 && "id"@.len() == 2 && "name"@.len() == 4);
    assert("input"@.len() == 5 && "tool_use_id"@.len() == 11);
    assert("type"@[0] == 't');
    assert("role"@[0] == 'r');
    assert("type"@[1] == 'y');
    assert("text"@[1] == 'e');
    assert("data"@[0] == 'd');
    assert("name"@[0] == 'n');
    assert("text"@[0] == 't');
}

proof fn lemma_kinds()
    ensures
        "tool"@ != "user"@ && "tool"@ != "assistant"@ && "system"@ != "tool"@ && "system"@
            != "user"@ && "system"@ != "assistant"@,
        "text"@ != "image_url"@ && "text"@ != "image"@ && "text"@ != "tool_use"@ && "text"@
            != "tool_result"@,
        "image"@ != "tool_use"@ && "image"@ != "tool_result"@ && "tool_use"@ != "tool_result"@,
        "input_text"@ != "input_image"@ && "output_text"@ != "input_image"@,
        "function_call"@ != "function_call_output"@ && "function_call"@.len() > 0
            && "function_call_output"@.len() > 0,
{
    reveal_strlit("tool");
    reveal_strlit("user");
    reveal_strlit("assistant");
    reveal_strlit("system");
    reveal_strlit("text");
    reveal_strlit("image_url");
    reveal_strlit("image");
    reveal_strlit("tool_use");
    reveal_strlit("tool_result");
    reveal_strlit("input_text");
    reveal_strlit("input_image");
    reveal_strlit("output_text");
    reveal_strlit("function_call");
    reveal_strlit("function_call_output");
    assert("tool"@.len() == 4 && "user"@.len() == 4 && "assistant"@.len() == 9);
    assert("system"@.len() == 6 && "text"@.len() == 4 && "image_url"@.len() == 9);
    assert("image"@.len() == 5 && "tool_use"@.len() == 8 && "tool_result"@.len() == 11);
    assert("input_text"@.len() == 10 && "input_image"@.len() == 11 && "output_text"@.len() == 11);
    assert("function_call"@.len() == 13 && "function_call_output"@.len() == 20);
    assert("tool"@[0] == 't');
    assert("user"@[0] == 'u');
    assert("tool"@[1] == 'o');
    assert("text"@[1] == 'e');
    assert("text"@[0] == 't');
    assert("assistant"@[0] == 'a');
    assert("image_url"@[0] == 'i');
    assert("tool_result"@[0] == 't');
    assert("input_image"@[0] == 'i');
    assert("output_text"@[0] == 'o');
}

proof fn lemma_chat_parts(content: Seq<BlockView>, n: int)
    requires
        0 <= n <= content.len(),
    ensures
        heard(
            openai_chat::user_parts(content, n),
            chat_parts(),
            openai_chat::user_parts(content, n).len() as int,
        ) == told_by_content(Role::User, content, n),
    decreases n,
{
    if n > 0 {
        lemma_chat_parts(content, n - 1);
        let before = openai_chat::user_parts(content, n - 1);
        let so_far = told_by_content(Role::User, content, n - 1);
        lemma_chat_keys();
        lemma_kinds();
        lemma_both(so_far, nothing(), nothing());
        reveal_with_fuel(json::member_from, 3);
        match content[n - 1] {
            BlockView::Text { .. } | BlockView::Image { .. } => {
                let last = openai_chat::user_parts(content, n).last();
                assert(openai_chat::user_parts(content, n) == before.push(last));
                lemma_heard_push(before, last, chat_parts());
                assert(chat_part(last) == told_by_block(Role::User, content[n - 1]));
            },
            _ => {},
        }
    }
}

proof fn lemma_plain_user(content: Seq<BlockView>, n: int)
    requires
        0 <= n <= content.len(),
        !openai_chat::has_image(content),
    ensures
        told_by_content(Role::User, content, n) == a_text(types::texts_in(content, n)),
    decreases n,
{
    if n > 0 {
        lemma_plain_user(content, n - 1);
        assert(!(content[n - 1] is Image));
        let so_far = a_text(types::texts_in(content, n - 1));
        assert(told_by_content(Role::User, content, n) =~= a_text(
            types::texts_in(content, n),
        )) by {
            assert(both(so_far, nothing()) =~= so_far);
        }
    }
}

proof fn lemma_calls_alone(items: Seq<JsonSpec>, n: int)
    ensures
        heard(items, chat_calls(), n) == (Told {
            calls: heard(items, chat_calls(), n).calls,
            ..nothing()
        }),
    decreases n,
{
    if n > 0 {
        lemma_calls_alone(items, n - 1);
        assert(heard(items, chat_calls(), n) =~= Told {
            calls: heard(items, chat_calls(), n).calls,
            ..nothing()
        });
    }
}

proof fn lemma_chat_assistant(content: Seq<BlockView>, n: int)
    requires
        0 <= n <= content.len(),
    ensures
        told_by_content(Role::Assistant, content, n) == both(
            a_text(types::texts_in(content, n)),
            heard(
                openai_chat::tool_calls_in(content, n),
                chat_calls(),
                openai_chat::tool_calls_in(content, n).len() as int,
            ),
        ),
    decreases n,
{
    let calls = openai_chat::tool_calls_in(content, n);
    let said = a_text(types::texts_in(content, n));
    if n > 0 {
        lemma_chat_assistant(content, n - 1);
        let before = openai_chat::tool_calls_in(content, n - 1);
        lemma_calls_alone(before, before.len() as int);
        lemma_chat_keys();
        reveal_with_fuel(json::member_from, 4);
        match content[n - 1] {
            BlockView::ToolUse { id, name, input } => {
                assert(calls == before.push(calls.last()));
                lemma_heard_push(before, calls.last(), chat_calls());
                assert(chat_call(calls.last()) == a_call(id, name, json::json_printed(input)));
            },
            _ => {},
        }
        assert(told_by_content(Role::Assistant, content, n) =~= both(
            said,
            heard(calls, chat_calls(), calls.len() as int),
        ));
    } else {
        assert(both(said, nothing()) =~= nothing());
    }
}

proof fn lemma_chat_results(content: Seq<BlockView>, n: int)
    requires
        0 <= n <= content.len(),
    ensures
        heard(
            openai_chat::tool_results_in(content, n),
            chat_messages(),
            openai_chat::tool_results_in(content, n).len() as int,
        ) == told_by_content(Role::Tool, content, n),
    decreases n,
{
    if n > 0 {
        lemma_chat_results(content, n - 1);
        let before = openai_chat::tool_results_in(content, n - 1);
        let so_far = told_by_content(Role::Tool, content, n - 1);
        lemma_chat_keys();
        lemma_both(so_far, nothing(), nothing());
        reveal_with_fuel(json::member_from, 4);
        if content[n - 1] is ToolResult {
            let last = openai_chat::tool_results_in(content, n).last();
            assert(openai_chat::tool_results_in(content, n) == before.push(last));
            lemma_heard_push(before, last, chat_messages());
            assert(chat_message(last) == told_by_block(Role::Tool, content[n - 1]));
        }
    }
}

proof fn lemma_silent_system(content: Seq<BlockView>, n: int)
    ensures
        told_by_content(Role::System, content, n) == nothing(),
    decreases n,
{
    if n > 0 {
        lemma_silent_system(content, n - 1);
        lemma_both(nothing(), nothing(), nothing());
    }
}

proof fn lemma_chat_message(m: MessageView)
    ensures
        heard(
            openai_chat::rendered(m),
            chat_messages(),
            openai_chat::rendered(m).len() as int,
        ) == told_by_message(m),
{
    let n = m.content.len() as int;
    lemma_chat_keys();
    lemma_kinds();
    reveal_with_fuel(json::member_from, 4);
    match m.role {
        Role::System => {
            lemma_silent_system(m.content, n);
            lemma_heard_one(openai_chat::rendered(m)[0], chat_messages());
        },
        Role::User => {
            let wire = openai_chat::rendered(m)[0];
            lemma_heard_one(wire, chat_messages());
            assert(json::field_or_null(wire, "content"@) == openai_chat::user_body(m.content));
            assert(json::field_or_null(wire, "tool_calls"@) is Null);
            if openai_chat::has_image(m.content) {
                lemma_chat_parts(m.content, n);
            } else {
                lemma_plain_user(m.content, n);
            }
            lemma_both(told_by_message(m), nothing(), nothing());
        },
        Role::Assistant => {
            let wire = openai_chat::rendered(m)[0];
            let text = openai_chat::all_text(m.content);
            let calls = openai_chat::tool_calls_in(m.content, n);
            lemma_heard_one(wire, chat_messages());
            lemma_chat_assistant(m.content, n);
            assert(chat_content(json::field_or_null(wire, "content"@)) =~= a_text(text));
            if calls.len() > 0 {
                assert(json::field_or_null(wire, "tool_calls"@) == JsonSpec::Array(calls));
            } else {
                assert(json::field_or_null(wire, "tool_calls"@) is Null);
            }
        },
        Role::Tool => {
            lemma_chat_results(m.content, n);
        },
    }
}

proof fn lemma_chat_all(messages: Seq<MessageView>, n: int)
    requires
        0 <= n <= messages.len(),
    ensures
        heard(
            openai_chat::rendered_all(messages, n),
            chat_messages(),
            openai_chat::rendered_all(messages, n).len() as int,
        ) == told(messages, n),
    decreases n,
{
    if n > 0 {
        lemma_chat_all(messages, n - 1);
        lemma_chat_message(messages[n - 1]);
        lemma_heard_append(
            openai_chat::rendered_all(messages, n - 1),
            openai_chat::rendered(messages[n - 1]),
            chat_messages(),
        );
    }
}

// ---- responses ------------------------------------------------------------------------------

proof fn lemma_responses_user(content: Seq<BlockView>, n: int)
    requires
        0 <= n <= content.len(),
    ensures
        heard(
            openai_responses::user_parts(content, n),
            responses_parts(),
            openai_responses::user_parts(content, n).len() as int,
        ) == told_by_content(Role::User, content, n),
    decreases n,
{
    if n > 0 {
        lemma_responses_user(content, n - 1);
        let before = openai_responses::user_parts(content, n - 1);
        let so_far = told_by_content(Role::User, content, n - 1);
        lemma_responses_keys();
        lemma_kinds();
        lemma_both(so_far, nothing(), nothing());
        reveal_with_fuel(json::member_from, 3);
        match content[n - 1] {
            BlockView::Text { .. } | BlockView::Image { .. } => {
                let last = openai_responses::user_parts(content, n).last();
                assert(openai_responses::user_parts(content, n) == before.push(last));
                lemma_heard_push(before, last, responses_parts());
                assert(responses_part(last) == told_by_block(Role::User, content[n - 1]));
            },
            _ => {},
        }
    }
}

proof fn lemma_responses_assistant(content: Seq<BlockView>, n: int)
    requires
        0 <= n <= content.len(),
    ensures
        ({
            let parts = openai_responses::output_parts(content, n);
            let calls = openai_responses::call_items(content, n);
            let said = heard(parts, responses_parts(), parts.len() as int);
            let asked = heard(calls, responses_items(), calls.len() as int);
            &&& told_by_content(Role::Assistant, content, n) == both(said, asked)
            &&& said == a_text(said.text)
            &&& asked == (Told { calls: asked.calls, ..nothing() })
        }),
    decreases n,
{
    let parts = openai_responses::output_parts(content, n);
    let calls = openai_responses::call_items(content, n);
    let said = heard(parts, responses_parts(), parts.len() as int);
    let asked = heard(calls, responses_items(), calls.len() as int);
    if n > 0 {
        lemma_responses_assistant(content, n - 1);
        let parts_before = openai_responses::output_parts(content, n - 1);
        let calls_before = openai_responses::call_items(content, n - 1);
        lemma_responses_keys();
        lemma_kinds();
        reveal_with_fuel(json::member_from, 5);
        match content[n - 1] {
            BlockView::Text { text } => {
                assert(parts == parts_before.push(parts.last()));
                lemma_heard_push(parts_before, parts.last(), responses_parts());
                assert(responses_part(parts.last()) == a_text(text));
            },
            BlockView::ToolUse { id, name, input } => {
                assert(calls == calls_before.push(calls.last()));
                lemma_heard_push(calls_before, calls.last(), responses_items());
                assert(responses_item(calls.last()) == a_call(
                    id,
                    name,
                    json::json_printed(input),
                ));
            },
            _ => {},
        }
        assert(said =~= a_text(said.text));
        assert(asked =~= Told { calls: asked.calls, ..nothing() });
        assert(told_by_content(Role::Assistant, content, n) =~= both(said, asked));
    } else {
        assert(both(nothing(), nothing()) =~= nothing());
    }
}

proof fn lemma_responses_results(content: Seq<BlockView>, n: int)
    requires
        0 <= n <= content.len(),
    ensures
        heard(
            openai_responses::result_items(content, n),
            responses_items(),
            openai_responses::result_items(content, n).len() as int,
        ) == told_by_content(Role::Tool, content, n),
    decreases n,
{
    if n > 0 {
        lemma_responses_results(content, n - 1);
        let before = openai_responses::result_items(content, n - 1);
        let so_far = told_by_content(Role::Tool, content, n - 1);
        lemma_responses_keys();
        lemma_kinds();
        lemma_both(so_far, nothing(), nothing());
        reveal_with_fuel(json::member_from, 4);
        if content[n - 1] is ToolResult {
            let last = openai_responses::result_items(content, n).last();
            assert(openai_responses::result_items(content, n) == before.push(last));
            lemma_heard_push(before, last, responses_items());
            assert(responses_item(last) == told_by_block(Role::Tool, content[n - 1]));
        }
    }
}

proof fn lemma_responses_said(role: Seq<char>, parts: Seq<JsonSpec>)
    ensures
        responses_item(openai_responses::said_by(role, parts)) == heard(
            parts,
            responses_parts(),
            parts.len() as int,
        ),
{
    lemma_responses_keys();
    lemma_kinds();
    reveal_with_fuel(json::member_from, 3);
    let item = openai_responses::said_by(role, parts);
    assert(json::field_or_null(item, "type"@) is Null);
    assert(json::field_or_null(item, "content"@) == JsonSpec::Array(parts));
}

proof fn lemma_responses_message(m: MessageView)
    ensures
        heard(
            openai_responses::rendered(m),
            responses_items(),
            openai_responses::rendered(m).len() as int,
        ) == told_by_message(m),
{
    let n = m.content.len() as int;
    match m.role {
        Role::System => {
            lemma_silent_system(m.content, n);
        },
        Role::User => {
            lemma_heard_one(openai_responses::rendered(m)[0], responses_items());
            lemma_responses_said("user"@, openai_responses::user_parts(m.content, n));
            lemma_responses_user(m.content, n);
        },
        Role::Assistant => {
            let parts = openai_responses::output_parts(m.content, n);
            let calls = openai_responses::call_items(m.content, n);
            lemma_responses_assistant(m.content, n);
            if parts.len() == 0 {
                lemma_both(heard(calls, responses_items(), calls.len() as int), nothing(), nothing());
            } else {
                let item = openai_responses::said_by("assistant"@, parts);
                lemma_responses_said("assistant"@, parts);
                lemma_heard_one(item, responses_items());
                lemma_heard_append(seq![item], calls, responses_items());
            }
        },
        Role::Tool => {
            lemma_responses_results(m.content, n);
        },
    }
}

proof fn lemma_responses_all(messages: Seq<MessageView>, n: int)
    requires
        0 <= n <= messages.len(),
    ensures
        heard(
            openai_responses::rendered_all(messages, n),
            responses_items(),
            openai_responses::rendered_all(messages, n).len() as int,
        ) == told(messages, n),
    decreases n,
{
    if n > 0 {
        lemma_responses_all(messages, n - 1);
        lemma_responses_message(messages[n - 1]);
        lemma_heard_append(
            openai_responses::rendered_all(messages, n - 1),
            openai_responses::rendered(messages[n - 1]),
            responses_items(),
        );
    }
}

// ---- messages -------------------------------------------------------------------------------

proof fn lemma_messages_block(role: Role, b: BlockView)
    ensures
        anthropic_messages::wire_block(role, b) matches Some(j) ==> messages_block(j)
            == told_by_block(role, b),
        anthropic_messages::wire_block(role, b) is None ==> told_by_block(role, b) == nothing(),
{
    lemma_messages_keys();
    lemma_kinds();
    reveal_with_fuel(json::member_from, 5);
    reveal_strlit("base64");
}

proof fn lemma_messages_blocks(role: Role, content: Seq<BlockView>, n: int)
    requires
        0 <= n <= content.len(),
    ensures
        heard(
            anthropic_messages::wire_blocks(role, content, n),
            messages_blocks(),
            anthropic_messages::wire_blocks(role, content, n).len() as int,
        ) == told_by_content(role, content, n),
    decreases n,
{
    if n > 0 {
        lemma_messages_blocks(role, content, n - 1);
        let before = anthropic_messages::wire_blocks(role, content, n - 1);
        lemma_messages_block(role, content[n - 1]);
        match anthropic_messages::wire_block(role, content[n - 1]) {
            Some(last) => {
                lemma_heard_push(before, last, messages_blocks());
            },
            None => {
                lemma_both(told_by_content(role, content, n - 1), nothing(), nothing());
            },
        }
    }
}

proof fn lemma_messages_said(messages: Seq<MessageView>, n: int)
    requires
        0 <= n <= messages.len(),
    ensures
        heard(
            anthropic_messages::blocks_said(messages, n),
            messages_blocks(),
            anthropic_messages::blocks_said(messages, n).len() as int,
        ) == told(messages, n),
    decreases n,
{
    if n > 0 {
        lemma_messages_said(messages, n - 1);
        let m = messages[n - 1];
        let size = m.content.len() as int;
        if m.role == Role::System {
            lemma_silent_system(m.content, size);
            lemma_both(told(messages, n - 1), nothing(), nothing());
        } else {
            lemma_messages_blocks(m.role, m.content, size);
            lemma_heard_append(
                anthropic_messages::blocks_said(messages, n - 1),
                anthropic_messages::wire_blocks(m.role, m.content, size),
                messages_blocks(),
            );
        }
    }
}

proof fn lemma_messages_wire(out: Seq<anthropic_messages::WireView>, wire: Seq<JsonSpec>, n: int)
    requires
        0 <= n <= out.len(),
        n <= wire.len(),
        forall|i: int| 0 <= i < n ==> #[trigger] wire[i] == anthropic_messages::wire_json(out[i]),
    ensures
        heard(wire, messages_messages(), n) == heard(
            anthropic_messages::blocks_of(out, n),
            messages_blocks(),
            anthropic_messages::blocks_of(out, n).len() as int,
        ),
    decreases n,
{
    if n > 0 {
        lemma_messages_wire(out, wire, n - 1);
        lemma_heard_append(
            anthropic_messages::blocks_of(out, n - 1),
            out[n - 1].content,
            messages_blocks(),
        );
        lemma_messages_keys();
        reveal_with_fuel(json::member_from, 3);
        assert(json::field_or_null(wire[n - 1], "content"@) == JsonSpec::Array(out[n - 1].content));
    }
}

// ---- the law --------------------------------------------------------------------------------

proof fn lemma_member_kept(
    members: Seq<(Seq<char>, JsonSpec)>,
    more: (Seq<char>, JsonSpec),
    key: Seq<char>,
    i: int,
)
    requires
        0 <= i <= members.len(),
        json::member_from(members, key, i) is Some,
    ensures
        json::member_from(members.push(more), key, i) == json::member_from(members, key, i),
    decreases members.len() - i,
{
    if i < members.len() {
        assert(members.push(more)[i] == members[i]);
        if members[i].0 != key {
            lemma_member_kept(members, more, key, i + 1);
        }
    }
}

proof fn lemma_with_member(
    members: Seq<(Seq<char>, JsonSpec)>,
    more: Seq<char>,
    value: Option<JsonSpec>,
    key: Seq<char>,
)
    requires
        json::member_from(members, key, 0) is Some,
    ensures
        json::member_from(openai_chat::with_member(members, more, value), key, 0)
            == json::member_from(members, key, 0),
{
    if let Some(v) = value {
        lemma_member_kept(members, (more, v), key, 0);
    }
}

proof fn lemma_body_keys()
    ensures
        "model"@ != "messages"@ && "stream"@ != "messages"@ && "stream_options"@ != "messages"@,
        "max_tokens"@ != "messages"@ && "model"@ != "input"@ && "stream"@ != "input"@,
{
    reveal_strlit("model");
    reveal_strlit("stream");
    reveal_strlit("stream_options");
    reveal_strlit("messages");
    reveal_strlit("max_tokens");
    reveal_strlit("input");
    assert("model"@.len() == 5 && "stream"@.len() == 6 && "stream_options"@.len() == 14);
    assert("messages"@.len() == 8 && "max_tokens"@.len() == 10 && "input"@.len() == 5);
    assert("model"@[0] == 'm' && "input"@[0] == 'i');
}

proof fn lemma_chat_body(model: Seq<char>, req: RequestView)
    ensures
        chat_tells(openai_chat::wire_body(model, req)) == told(
            req.messages,
            req.messages.len() as int,
        ),
{
    let rest = openai_chat::rendered_all(req.messages, req.messages.len() as int);
    let system = if req.system.len() == 0 {
        seq![]
    } else {
        seq![
            JsonSpec::Object(
                json::pairs2(
                    "role"@,
                    JsonSpec::Str("system"@),
                    "content"@,
                    JsonSpec::Str(req.system),
                ),
            ),
        ]
    };
    let base = json::pairs4(
        "model"@,
        JsonSpec::Str(openai_chat::chosen_model(model, req.model)),
        "stream"@,
        JsonSpec::Bool(true),
        "stream_options"@,
        JsonSpec::Object(json::pairs1("include_usage"@, JsonSpec::Bool(true))),
        "messages"@,
        JsonSpec::Array(system + rest),
    );
    lemma_body_keys();
    lemma_chat_keys();
    lemma_kinds();
    reveal_with_fuel(json::member_from, 5);
    let with_tools = openai_chat::with_member(
        base,
        "tools"@,
        openai_chat::tools_member(req.tools),
    );
    let with_max = openai_chat::with_member(
        with_tools,
        "max_tokens"@,
        openai_chat::count_member(req.max_tokens),
    );
    lemma_with_member(base, "tools"@, openai_chat::tools_member(req.tools), "messages"@);
    lemma_with_member(
        with_tools,
        "max_tokens"@,
        openai_chat::count_member(req.max_tokens),
        "messages"@,
    );
    lemma_with_member(
        with_max,
        "temperature"@,
        openai_chat::number_member(req.temperature),
        "messages"@,
    );
    assert(json::field_or_null(openai_chat::wire_body(model, req), "messages"@)
        == JsonSpec::Array(system + rest));
    lemma_chat_all(req.messages, req.messages.len() as int);
    lemma_heard_append(system, rest, chat_messages());
    let conversation = told(req.messages, req.messages.len() as int);
    lemma_both(conversation, nothing(), nothing());
    if req.system.len() > 0 {
        lemma_heard_one(system[0], chat_messages());
        assert(chat_message(system[0]) == nothing());
    }
}

proof fn lemma_responses_body(model: Seq<char>, req: RequestView)
    ensures
        responses_tells(openai_responses::wire_body(model, req)) == told(
            req.messages,
            req.messages.len() as int,
        ),
{
    let items = openai_responses::rendered_all(req.messages, req.messages.len() as int);
    let base = json::pairs3(
        "model"@,
        JsonSpec::Str(openai_chat::chosen_model(model, req.model)),
        "stream"@,
        JsonSpec::Bool(true),
        "input"@,
        JsonSpec::Array(items),
    );
    lemma_body_keys();
    reveal_with_fuel(json::member_from, 4);
    let instructions = if req.system.len() == 0 {
        None
    } else {
        Some(JsonSpec::Str(req.system))
    };
    let tools = if req.tools.len() == 0 {
        None
    } else {
        Some(openai_responses::rendered_tools(req.tools))
    };
    let with_system = openai_chat::with_member(base, "instructions"@, instructions);
    let with_tools = openai_chat::with_member(with_system, "tools"@, tools);
    let count = openai_chat::count_member(req.max_tokens);
    let with_max = openai_chat::with_member(with_tools, "max_output_tokens"@, count);
    lemma_with_member(base, "instructions"@, instructions, "input"@);
    lemma_with_member(with_system, "tools"@, tools, "input"@);
    lemma_with_member(with_tools, "max_output_tokens"@, count, "input"@);
    lemma_with_member(
        with_max,
        "temperature"@,
        openai_chat::number_member(req.temperature),
        "input"@,
    );
    assert(json::field_or_null(openai_responses::wire_body(model, req), "input"@)
        == JsonSpec::Array(items));
    lemma_responses_all(req.messages, req.messages.len() as int);
}

proof fn lemma_messages_body(model: Seq<char>, req: RequestView)
    ensures
        messages_tells(anthropic_messages::wire_body(model, req)) == told(
            req.messages,
            req.messages.len() as int,
        ),
{
    let n = req.messages.len() as int;
    let out = anthropic_messages::coalesced(req.messages, n);
    let wire = Seq::new(out.len(), |i: int| anthropic_messages::wire_json(out[i]));
    let base = json::pairs4(
        "model"@,
        JsonSpec::Str(openai_chat::chosen_model(model, req.model)),
        "stream"@,
        JsonSpec::Bool(true),
        "max_tokens"@,
        JsonSpec::Number(
            json::NumberSpec::PosInt(
                match req.max_tokens {
                    Some(k) => k as u64,
                    None => 4096,
                },
            ),
        ),
        "messages"@,
        JsonSpec::Array(wire),
    );
    lemma_body_keys();
    reveal_with_fuel(json::member_from, 5);
    let system = anthropic_messages::system_member(req.system);
    let tools = if req.tools.len() == 0 {
        None
    } else {
        Some(anthropic_messages::rendered_tools(req.tools))
    };
    let with_system = openai_chat::with_member(base, "system"@, system);
    let with_tools = openai_chat::with_member(with_system, "tools"@, tools);
    lemma_with_member(base, "system"@, system, "messages"@);
    lemma_with_member(with_system, "tools"@, tools, "messages"@);
    lemma_with_member(
        with_tools,
        "temperature"@,
        openai_chat::number_member(req.temperature),
        "messages"@,
    );
    assert(json::field_or_null(anthropic_messages::wire_body(model, req), "messages"@)
        == JsonSpec::Array(wire));
    lemma_messages_wire(out, wire, out.len() as int);
    anthropic_messages::coalescing_keeps_every_block(req.messages, n);
    lemma_messages_said(req.messages, n);
}

/// Switching the provider loses nothing of a conversation: whatever its history holds, the bodies
/// that the three API families are sent tell the same texts, images, tool calls and tool results,
/// in the order in which the history has them.
pub proof fn switching_the_provider_keeps_the_conversation(
    chat_model: Seq<char>,
    responses_model: Seq<char>,
    messages_model: Seq<char>,
    req: RequestView,
)
    ensures
        ({
            let conversation = told(req.messages, req.messages.len() as int);
            &&& chat_tells(openai_chat::wire_body(chat_model, req)) == conversation
            &&& responses_tells(openai_responses::wire_body(responses_model, req)) == conversation
            &&& messages_tells(anthropic_messages::wire_body(messages_model, req)) == conversation
        }),
{
    lemma_chat_body(chat_model, req);
    lemma_responses_body(responses_model, req);
    lemma_messages_body(messages_model, req);
}

// ---- what else a body says ------------------------------------------------------------------

proof fn lemma_member_pushed(
    members: Seq<(Seq<char>, JsonSpec)>,
    more: (Seq<char>, JsonSpec),
    key: Seq<char>,
    i: int,
)
    requires
        0 <= i <= members.len(),
    ensures
        json::member_from(members.push(more), key, i) == (match json::member_from(members, key, i) {
            Some(v) => Some(v),
            None => if more.0 == key {
                Some(more.1)
            } else {
                None
            },
        }),
    decreases members.len() - i,
{
    reveal_with_fuel(json::member_from, 2);
    if i < members.len() {
        assert(members.push(more)[i] == members[i]);
        lemma_member_pushed(members, more, key, i + 1);
    }
}

proof fn lemma_optional_member(
    members: Seq<(Seq<char>, JsonSpec)>,
    more: Seq<char>,
    value: Option<JsonSpec>,
    key: Seq<char>,
)
    ensures
        json::member_from(openai_chat::with_member(members, more, value), key, 0) == (
        match json::member_from(members, key, 0) {
            Some(v) => Some(v),
            None => if more == key {
                value
            } else {
                None
            },
        }),
{
    if let Some(v) = value {
        lemma_member_pushed(members, (more, v), key, 0);
    }
}

proof fn lemma_setting_keys()
    ensures
        "model"@.len() == 5 && "tools"@.len() == 5 && "input"@.len() == 5,
        "stream"@.len() == 6 && "system"@.len() == 6,
        "messages"@.len() == 8 && "max_tokens"@.len() == 10 && "temperature"@.len() == 11,
        "instructions"@.len() == 12 && "stream_options"@.len() == 14,
        "max_output_tokens"@.len() == 17,
        "model"@[0] == 'm' && "tools"@[0] == 't' && "input"@[0] == 'i',
        "stream"@[1] == 't' && "system"@[1] == 'y',
{
    reveal_strlit("model");
    reveal_strlit("tools");
    reveal_strlit("input");
    reveal_strlit("stream");
    reveal_strlit("system");
    reveal_strlit("messages");
    reveal_strlit("max_tokens");
    reveal_strlit("temperature");
    reveal_strlit("instructions");
    reveal_strlit("stream_options");
    reveal_strlit("max_output_tokens");
}

proof fn lemma_tool_keys()
    ensures
        "type"@.len() == 4 && "name"@.len() == 4 && "function"@.len() == 8,
        "description"@.len() == 11 && "parameters"@.len() == 10 && "input_schema"@.len() == 12,
        "type"@[0] == 't' && "name"@[0] == 'n',
        "role"@.len() == 4 && "content"@.len() == 7 && "text"@.len() == 4,
        "text"@[1] == 'e' && "type"@[1] == 'y',
{
    reveal_strlit("type");
    reveal_strlit("name");
    reveal_strlit("function");
    reveal_strlit("description");
    reveal_strlit("parameters");
    reveal_strlit("input_schema");
    reveal_strlit("role");
    reveal_strlit("content");
    reveal_strlit("text");
}

/// What every body says of the request, beside the conversation: the model asked for, or else the
/// provider's own, that the reply is to be streamed, and the temperature where there is one.
pub open spec fn settings_sent(body: JsonSpec, model: Seq<char>, req: RequestView) -> bool {
    &&& req.model.len() > 0 ==> json::field_or_null(body, "model"@) == JsonSpec::Str(req.model)
    &&& req.model.len() == 0 ==> json::field_or_null(body, "model"@) == JsonSpec::Str(model)
    &&& json::field_or_null(body, "stream"@) == JsonSpec::Bool(true)
    &&& req.temperature is None ==> json::field_or_null(body, "temperature"@) is Null
    &&& req.temperature matches Some(t) ==> json::field_or_null(body, "temperature"@)
        == JsonSpec::Number(t)
}

/// The body has this bound on the length of the reply under `key`, or none.
pub open spec fn bound_sent(body: JsonSpec, key: Seq<char>, bound: Option<u32>) -> bool {
    match bound {
        Some(n) => json::field_or_null(body, key) == JsonSpec::Number(
            json::NumberSpec::PosInt(n as u64),
        ),
        None => json::field_or_null(body, key) is Null,
    }
}

/// An object describes a tool: its name, what it does, and under `key` what it takes.
pub open spec fn describes(j: JsonSpec, tool: types::ToolView, key: Seq<char>) -> bool {
    &&& json::field_or_null(j, "name"@) == JsonSpec::Str(tool.name)
    &&& json::field_or_null(j, "description"@) == JsonSpec::Str(tool.description)
    &&& json::field_or_null(j, key) == tool.input_schema
}

/// The Chat Completions body says what the request asks: the model, the bound on the reply, the
/// temperature, the system prompt in front of the conversation, and each tool in its place.
pub proof fn a_chat_body_says_what_is_asked(model: Seq<char>, req: RequestView)
    ensures
        ({
            let body = openai_chat::wire_body(model, req);
            &&& settings_sent(body, model, req)
            &&& bound_sent(body, "max_tokens"@, req.max_tokens)
            &&& json::field_or_null(body, "messages"@) is Array
            &&& req.system.len() > 0 ==> {
                let first = json::field_or_null(body, "messages"@)->Array_0[0];
                &&& json::field_or_null(body, "messages"@)->Array_0.len() > 0
                &&& json::field_or_null(first, "role"@) == JsonSpec::Str("system"@)
                &&& json::field_or_null(first, "content"@) == JsonSpec::Str(req.system)
            }
            &&& req.tools.len() == 0 ==> json::field_or_null(body, "tools"@) is Null
            &&& req.tools.len() > 0 ==> {
                &&& json::field_or_null(body, "tools"@) is Array
                &&& json::field_or_null(body, "tools"@)->Array_0.len() == req.tools.len()
                &&& forall|i: int|
                    0 <= i < req.tools.len() ==> {
                        let tool = #[trigger] json::field_or_null(body, "tools"@)->Array_0[i];
                        &&& json::field_or_null(tool, "type"@) == JsonSpec::Str("function"@)
                        &&& describes(
                            json::field_or_null(tool, "function"@),
                            req.tools[i],
                            "parameters"@,
                        )
                    }
            }
        }),
{
    let body = openai_chat::wire_body(model, req);
    lemma_setting_keys();
    lemma_tool_keys();
    reveal_with_fuel(json::member_from, 6);
    let rest = openai_chat::rendered_all(req.messages, req.messages.len() as int);
    let system = if req.system.len() == 0 {
        seq![]
    } else {
        seq![
            JsonSpec::Object(
                json::pairs2(
                    "role"@,
                    JsonSpec::Str("system"@),
                    "content"@,
                    JsonSpec::Str(req.system),
                ),
            ),
        ]
    };
    let base = json::pairs4(
        "model"@,
        JsonSpec::Str(openai_chat::chosen_model(model, req.model)),
        "stream"@,
        JsonSpec::Bool(true),
        "stream_options"@,
        JsonSpec::Object(json::pairs1("include_usage"@, JsonSpec::Bool(true))),
        "messages"@,
        JsonSpec::Array(system + rest),
    );
    let tools = openai_chat::tools_member(req.tools);
    let count = openai_chat::count_member(req.max_tokens);
    let heat = openai_chat::number_member(req.temperature);
    let with_tools = openai_chat::with_member(base, "tools"@, tools);
    let with_max = openai_chat::with_member(with_tools, "max_tokens"@, count);
    assert forall|key: Seq<char>| #[trigger]
        json::field_or_null(body, key) == (match json::member_from(base, key, 0) {
            Some(v) => v,
            None => if key == "tools"@ && tools is Some {
                tools->0
            } else if key == "max_tokens"@ && count is Some {
                count->0
            } else if key == "temperature"@ && heat is Some {
                heat->0
            } else {
                JsonSpec::Null
            },
        }) by {
        lemma_optional_member(base, "tools"@, tools, key);
        lemma_optional_member(with_tools, "max_tokens"@, count, key);
        lemma_optional_member(with_max, "temperature"@, heat, key);
    }
    assert(json::field_or_null(body, "messages"@) == JsonSpec::Array(system + rest));
    if req.system.len() > 0 {
        assert((system + rest)[0] == system[0]);
    }
}

/// The Responses body says what the request asks: the model, the bound on the reply, the temperature,
/// the system prompt as instructions, and each tool in its place.
pub proof fn a_responses_body_says_what_is_asked(model: Seq<char>, req: RequestView)
    ensures
        ({
            let body = openai_responses::wire_body(model, req);
            &&& settings_sent(body, model, req)
            &&& bound_sent(body, "max_output_tokens"@, req.max_tokens)
            &&& req.system.len() == 0 ==> json::field_or_null(body, "instructions"@) is Null
            &&& req.system.len() > 0 ==> json::field_or_null(body, "instructions"@)
                == JsonSpec::Str(req.system)
            &&& req.tools.len() == 0 ==> json::field_or_null(body, "tools"@) is Null
            &&& req.tools.len() > 0 ==> {
                &&& json::field_or_null(body, "tools"@) is Array
                &&& json::field_or_null(body, "tools"@)->Array_0.len() == req.tools.len()
                &&& forall|i: int|
                    0 <= i < req.tools.len() ==> {
                        let tool = #[trigger] json::field_or_null(body, "tools"@)->Array_0[i];
                        &&& json::field_or_null(tool, "type"@) == JsonSpec::Str("function"@)
                        &&& describes(tool, req.tools[i], "parameters"@)
                    }
            }
        }),
{
    let body = openai_responses::wire_body(model, req);
    lemma_setting_keys();
    lemma_tool_keys();
    reveal_with_fuel(json::member_from, 6);
    let base = json::pairs3(
        "model"@,
        JsonSpec::Str(openai_chat::chosen_model(model, req.model)),
        "stream"@,
        JsonSpec::Bool(true),
        "input"@,
        JsonSpec::Array(openai_responses::rendered_all(req.messages, req.messages.len() as int)),
    );
    let instructions = if req.system.len() == 0 {
        None
    } else {
        Some(JsonSpec::Str(req.system))
    };
    let tools = if req.tools.len() == 0 {
        None
    } else {
        Some(openai_responses::rendered_tools(req.tools))
    };
    let count = openai_chat::count_member(req.max_tokens);
    let heat = openai_chat::number_member(req.temperature);
    let with_system = openai_chat::with_member(base, "instructions"@, instructions);
    let with_tools = openai_chat::with_member(with_system, "tools"@, tools);
    let with_max = openai_chat::with_member(with_tools, "max_output_tokens"@, count);
    assert forall|key: Seq<char>| #[trigger]
        json::field_or_null(body, key) == (match json::member_from(base, key, 0) {
            Some(v) => v,
            None => if key == "instructions"@ && instructions is Some {
                instructions->0
            } else if key == "tools"@ && tools is Some {
                tools->0
            } else if key == "max_output_tokens"@ && count is Some {
                count->0
            } else if key == "temperature"@ && heat is Some {
                heat->0
            } else {
                JsonSpec::Null
            },
        }) by {
        lemma_optional_member(base, "instructions"@, instructions, key);
        lemma_optional_member(with_system, "tools"@, tools, key);
        lemma_optional_member(with_tools, "max_output_tokens"@, count, key);
        lemma_optional_member(with_max, "temperature"@, heat, key);
    }
}

/// The Messages body says what the request asks: the model, the bound on the reply, which this API
/// must have, the temperature, the system prompt, and each tool in its place.
pub proof fn a_messages_body_says_what_is_asked(model: Seq<char>, req: RequestView)
    ensures
        ({
            let body = anthropic_messages::wire_body(model, req);
            &&& settings_sent(body, model, req)
            &&& bound_sent(
                body,
                "max_tokens"@,
                Some(
                    if req.max_tokens is Some {
                        req.max_tokens->0
                    } else {
                        4096
                    },
                ),
            )
            &&& req.system.len() == 0 ==> json::field_or_null(body, "system"@) is Null
            &&& req.system.len() > 0 ==> {
                &&& json::field_or_null(body, "system"@) is Array
                &&& json::field_or_null(body, "system"@)->Array_0.len() == 1
                &&& messages_block(json::field_or_null(body, "system"@)->Array_0[0]) == a_text(
                    req.system,
                )
            }
            &&& req.tools.len() == 0 ==> json::field_or_null(body, "tools"@) is Null
            &&& req.tools.len() > 0 ==> {
                &&& json::field_or_null(body, "tools"@) is Array
                &&& json::field_or_null(body, "tools"@)->Array_0.len() == req.tools.len()
                &&& forall|i: int|
                    0 <= i < req.tools.len() ==> describes(
                        #[trigger] json::field_or_null(body, "tools"@)->Array_0[i],
                        req.tools[i],
                        "input_schema"@,
                    )
            }
        }),
{
    let body = anthropic_messages::wire_body(model, req);
    lemma_setting_keys();
    lemma_tool_keys();
    reveal_with_fuel(json::member_from, 6);
    let n = req.messages.len() as int;
    let out = anthropic_messages::coalesced(req.messages, n);
    let wire = Seq::new(out.len(), |i: int| anthropic_messages::wire_json(out[i]));
    let base = json::pairs4(
        "model"@,
        JsonSpec::Str(openai_chat::chosen_model(model, req.model)),
        "stream"@,
        JsonSpec::Bool(true),
        "max_tokens"@,
        JsonSpec::Number(
            json::NumberSpec::PosInt(
                match req.max_tokens {
                    Some(k) => k as u64,
                    None => 4096,
                },
            ),
        ),
        "messages"@,
        JsonSpec::Array(wire),
    );
    let system = anthropic_messages::system_member(req.system);
    let tools = if req.tools.len() == 0 {
        None
    } else {
        Some(anthropic_messages::rendered_tools(req.tools))
    };
    let heat = openai_chat::number_member(req.temperature);
    let with_system = openai_chat::with_member(base, "system"@, system);
    let with_tools = openai_chat::with_member(with_system, "tools"@, tools);
    assert forall|key: Seq<char>| #[trigger]
        json::field_or_null(body, key) == (match json::member_from(base, key, 0) {
            Some(v) => v,
            None => if key == "system"@ && system is Some {
                system->0
            } else if key == "tools"@ && tools is Some {
                tools->0
            } else if key == "temperature"@ && heat is Some {
                heat->0
            } else {
                JsonSpec::Null
            },
        }) by {
        lemma_optional_member(base, "system"@, system, key);
        lemma_optional_member(with_system, "tools"@, tools, key);
        lemma_optional_member(with_tools, "temperature"@, heat, key);
    }
}

// ---- who speaks -----------------------------------------------------------------------------

/// The name of a role on the wire.
pub open spec fn role_name(role: Role) -> Seq<char> {
    match role {
        Role::System => "system"@,
        Role::User => "user"@,
        Role::Assistant => "assistant"@,
        Role::Tool => "tool"@,
    }
}

proof fn lemma_chat_speakers(m: MessageView, q: int)
    requires
        0 <= q < openai_chat::rendered(m).len(),
    ensures
        text_at(openai_chat::rendered(m)[q], "role"@) == role_name(m.role),
{
    lemma_chat_keys();
    reveal_with_fuel(json::member_from, 3);
    if m.role == Role::Tool {
        lemma_result_speaker(m.content, m.content.len() as int, q);
    }
}

proof fn lemma_result_speaker(content: Seq<BlockView>, n: int, q: int)
    requires
        0 <= q < openai_chat::tool_results_in(content, n).len(),
    ensures
        text_at(openai_chat::tool_results_in(content, n)[q], "role"@) == "tool"@,
    decreases n,
{
    lemma_chat_keys();
    reveal_with_fuel(json::member_from, 3);
    if n > 0 {
        if q < openai_chat::tool_results_in(content, n - 1).len() {
            lemma_result_speaker(content, n - 1, q);
        }
    }
}

proof fn lemma_chat_place(messages: Seq<MessageView>, k: int, n: int)
    requires
        0 <= k < n <= messages.len(),
    ensures
        ({
            let i = openai_chat::rendered_all(messages, k).len();
            let part = openai_chat::rendered(messages[k]);
            let all = openai_chat::rendered_all(messages, n);
            &&& i + part.len() <= all.len()
            &&& all.take(i as int) == openai_chat::rendered_all(messages, k)
            &&& all.subrange(i as int, (i + part.len()) as int) == part
        }),
    decreases n,
{
    let i = openai_chat::rendered_all(messages, k).len() as int;
    let part = openai_chat::rendered(messages[k]);
    let all = openai_chat::rendered_all(messages, n);
    if k < n - 1 {
        lemma_chat_place(messages, k, n - 1);
        let before = openai_chat::rendered_all(messages, n - 1);
        assert(all.take(i) =~= before.take(i));
        assert(all.subrange(i, i + part.len()) =~= before.subrange(i, i + part.len()));
    } else {
        assert(all.take(i) =~= openai_chat::rendered_all(messages, k));
        assert(all.subrange(i, i + part.len()) =~= part);
    }
}

/// In a Chat Completions body each message of the history stands in its place under its own role:
/// behind all that was told before it come the messages that tell what it tells.
pub proof fn chat_says_who_speaks(model: Seq<char>, req: RequestView, k: int)
    requires
        0 <= k < req.messages.len(),
    ensures
        ({
            let wire = json::field_or_null(openai_chat::wire_body(model, req), "messages"@);
            exists|i: int, j: int|
                {
                    &&& 0 <= i <= j <= wire->Array_0.len()
                    &&& #[trigger] heard(wire->Array_0, chat_messages(), i) == told(req.messages, k)
                    &&& #[trigger] heard(wire->Array_0, chat_messages(), j) == told(
                        req.messages,
                        k + 1,
                    )
                    &&& forall|q: int|
                        i <= q < j ==> text_at(#[trigger] wire->Array_0[q], "role"@) == role_name(
                            req.messages[k].role,
                        )
                }
        }),
{
    let n = req.messages.len() as int;
    let rest = openai_chat::rendered_all(req.messages, n);
    let wire = json::field_or_null(openai_chat::wire_body(model, req), "messages"@);
    let system = if req.system.len() == 0 {
        Seq::<JsonSpec>::empty()
    } else {
        seq![wire->Array_0[0]]
    };
    lemma_chat_array(model, req);
    assert(wire->Array_0 =~= system + rest);
    let s = system.len() as int;
    let m = openai_chat::rendered_all(req.messages, k).len() as int;
    let part = openai_chat::rendered(req.messages[k]);
    lemma_chat_place(req.messages, k, n);
    lemma_chat_all(req.messages, k);
    lemma_chat_all(req.messages, k + 1);
    let i = s + m;
    let j = i + part.len();
    lemma_kinds();
    if req.system.len() > 0 {
        lemma_heard_one(system[0], chat_messages());
    }
    let before = openai_chat::rendered_all(req.messages, k);
    let upto = openai_chat::rendered_all(req.messages, k + 1);
    assert(upto == before + part);
    lemma_heard_append(system, before, chat_messages());
    lemma_heard_append(system, upto, chat_messages());
    lemma_both(told(req.messages, k), nothing(), nothing());
    lemma_both(told(req.messages, k + 1), nothing(), nothing());
    assert forall|x: int| 0 <= x < i implies (system + before)[x] == wire->Array_0[x] by {
        if x >= s {
            assert(rest.take(m)[x - s] == before[x - s]);
        }
    }
    assert forall|x: int| 0 <= x < j implies (system + upto)[x] == wire->Array_0[x] by {
        if x >= s && x < i {
            assert(rest.take(m)[x - s] == before[x - s]);
        } else if x >= i {
            assert(rest.subrange(m, m + part.len())[x - i] == part[x - i]);
        }
    }
    lemma_heard_prefix(wire->Array_0, system + before, chat_messages(), i);
    lemma_heard_prefix(wire->Array_0, system + upto, chat_messages(), j);
    assert forall|q: int| i <= q < j implies text_at(#[trigger] wire->Array_0[q], "role"@)
        == role_name(req.messages[k].role) by {
        assert(rest.subrange(m, m + part.len())[q - i] == part[q - i]);
        lemma_chat_speakers(req.messages[k], q - i);
    }
    assert(heard(wire->Array_0, chat_messages(), i) == told(req.messages, k));
    assert(heard(wire->Array_0, chat_messages(), j) == told(req.messages, k + 1));
}

proof fn lemma_chat_array(model: Seq<char>, req: RequestView)
    ensures
        ({
            let wire = json::field_or_null(openai_chat::wire_body(model, req), "messages"@);
            let rest = openai_chat::rendered_all(req.messages, req.messages.len() as int);
            &&& wire is Array
            &&& req.system.len() == 0 ==> wire->Array_0 == rest
            &&& req.system.len() > 0 ==> wire->Array_0.len() == rest.len() + 1
                && wire->Array_0.skip(1) == rest && chat_message(wire->Array_0[0]) == nothing()
        }),
{
    a_chat_body_says_what_is_asked(model, req);
    let rest = openai_chat::rendered_all(req.messages, req.messages.len() as int);
    let system = if req.system.len() == 0 {
        seq![]
    } else {
        seq![
            JsonSpec::Object(
                json::pairs2(
                    "role"@,
                    JsonSpec::Str("system"@),
                    "content"@,
                    JsonSpec::Str(req.system),
                ),
            ),
        ]
    };
    let base = json::pairs4(
        "model"@,
        JsonSpec::Str(openai_chat::chosen_model(model, req.model)),
        "stream"@,
        JsonSpec::Bool(true),
        "stream_options"@,
        JsonSpec::Object(json::pairs1("include_usage"@, JsonSpec::Bool(true))),
        "messages"@,
        JsonSpec::Array(system + rest),
    );
    lemma_setting_keys();
    lemma_tool_keys();
    lemma_kinds();
    reveal_with_fuel(json::member_from, 6);
    let tools = openai_chat::tools_member(req.tools);
    let count = openai_chat::count_member(req.max_tokens);
    let heat = openai_chat::number_member(req.temperature);
    let with_tools = openai_chat::with_member(base, "tools"@, tools);
    let with_max = openai_chat::with_member(with_tools, "max_tokens"@, count);
    lemma_optional_member(base, "tools"@, tools, "messages"@);
    lemma_optional_member(with_tools, "max_tokens"@, count, "messages"@);
    lemma_optional_member(with_max, "temperature"@, heat, "messages"@);
    let wire = json::field_or_null(openai_chat::wire_body(model, req), "messages"@);
    assert(wire == JsonSpec::Array(system + rest));
    if req.system.len() == 0 {
        assert(system + rest =~= rest);
    } else {
        assert((system + rest).skip(1) =~= rest);
        assert((system + rest)[0] == system[0]);
    }
}

/// The name of the role that an item of a Responses input speaks in: the one it states, or that of a
/// call or its result.
pub open spec fn responses_speaker(i: JsonSpec) -> Seq<char> {
    let kind = text_at(i, "type"@);
    if kind == "function_call"@ {
        "assistant"@
    } else if kind == "function_call_output"@ {
        "tool"@
    } else {
        text_at(i, "role"@)
    }
}

proof fn lemma_call_speaker(content: Seq<BlockView>, n: int, q: int)
    requires
        0 <= q < openai_responses::call_items(content, n).len(),
    ensures
        responses_speaker(openai_responses::call_items(content, n)[q]) == "assistant"@,
    decreases n,
{
    lemma_responses_keys();
    lemma_kinds();
    reveal_with_fuel(json::member_from, 3);
    if n > 0 {
        if q < openai_responses::call_items(content, n - 1).len() {
            lemma_call_speaker(content, n - 1, q);
        }
    }
}

proof fn lemma_output_speaker(content: Seq<BlockView>, n: int, q: int)
    requires
        0 <= q < openai_responses::result_items(content, n).len(),
    ensures
        responses_speaker(openai_responses::result_items(content, n)[q]) == "tool"@,
    decreases n,
{
    lemma_responses_keys();
    lemma_kinds();
    reveal_with_fuel(json::member_from, 3);
    if n > 0 {
        if q < openai_responses::result_items(content, n - 1).len() {
            lemma_output_speaker(content, n - 1, q);
        }
    }
}

proof fn lemma_responses_speakers(m: MessageView, q: int)
    requires
        0 <= q < openai_responses::rendered(m).len(),
    ensures
        responses_speaker(openai_responses::rendered(m)[q]) == role_name(m.role),
{
    lemma_responses_keys();
    lemma_kinds();
    reveal_with_fuel(json::member_from, 3);
    let n = m.content.len() as int;
    match m.role {
        Role::System => {},
        Role::User => {
            let item = openai_responses::rendered(m)[0];
            assert(json::field_or_null(item, "type"@) is Null);
        },
        Role::Assistant => {
            let parts = openai_responses::output_parts(m.content, n);
            if parts.len() == 0 {
                lemma_call_speaker(m.content, n, q);
            } else if q > 0 {
                lemma_call_speaker(m.content, n, q - 1);
            } else {
                let item = openai_responses::rendered(m)[0];
                assert(item == openai_responses::said_by("assistant"@, parts));
                assert(json::field_or_null(item, "type"@) is Null);
            }
        },
        Role::Tool => {
            lemma_output_speaker(m.content, n, q);
        },
    }
}

proof fn lemma_responses_place(messages: Seq<MessageView>, k: int, n: int)
    requires
        0 <= k < n <= messages.len(),
    ensures
        ({
            let i = openai_responses::rendered_all(messages, k).len();
            let part = openai_responses::rendered(messages[k]);
            let all = openai_responses::rendered_all(messages, n);
            &&& i + part.len() <= all.len()
            &&& all.take(i as int) == openai_responses::rendered_all(messages, k)
            &&& all.subrange(i as int, (i + part.len()) as int) == part
        }),
    decreases n,
{
    let i = openai_responses::rendered_all(messages, k).len() as int;
    let part = openai_responses::rendered(messages[k]);
    let all = openai_responses::rendered_all(messages, n);
    if k < n - 1 {
        lemma_responses_place(messages, k, n - 1);
        let before = openai_responses::rendered_all(messages, n - 1);
        assert(all.take(i) =~= before.take(i));
        assert(all.subrange(i, i + part.len()) =~= before.subrange(i, i + part.len()));
    } else {
        assert(all.take(i) =~= openai_responses::rendered_all(messages, k));
        assert(all.subrange(i, i + part.len()) =~= part);
    }
}

/// In a Responses body each message of the history stands in its place under its own role: behind all
/// that was told before it come the items that tell what it tells.
pub proof fn responses_say_who_speaks(model: Seq<char>, req: RequestView, k: int)
    requires
        0 <= k < req.messages.len(),
    ensures
        ({
            let wire = json::field_or_null(openai_responses::wire_body(model, req), "input"@);
            exists|i: int, j: int|
                {
                    &&& 0 <= i <= j <= wire->Array_0.len()
                    &&& #[trigger] heard(wire->Array_0, responses_items(), i) == told(
                        req.messages,
                        k,
                    )
                    &&& #[trigger] heard(wire->Array_0, responses_items(), j) == told(
                        req.messages,
                        k + 1,
                    )
                    &&& forall|q: int|
                        i <= q < j ==> responses_speaker(#[trigger] wire->Array_0[q]) == role_name(
                            req.messages[k].role,
                        )
                }
        }),
{
    let n = req.messages.len() as int;
    let rest = openai_responses::rendered_all(req.messages, n);
    let wire = json::field_or_null(openai_responses::wire_body(model, req), "input"@);
    lemma_responses_array(model, req);
    assert(wire == JsonSpec::Array(rest));
    let i = openai_responses::rendered_all(req.messages, k).len() as int;
    let part = openai_responses::rendered(req.messages[k]);
    let j = i + part.len();
    let before = openai_responses::rendered_all(req.messages, k);
    let upto = openai_responses::rendered_all(req.messages, k + 1);
    assert(upto == before + part);
    lemma_responses_place(req.messages, k, n);
    lemma_responses_all(req.messages, k);
    lemma_responses_all(req.messages, k + 1);
    assert forall|x: int| 0 <= x < i implies before[x] == rest[x] by {
        assert(rest.take(i)[x] == before[x]);
    }
    assert forall|x: int| 0 <= x < j implies upto[x] == rest[x] by {
        if x < i {
            assert(rest.take(i)[x] == before[x]);
        } else {
            assert(rest.subrange(i, i + part.len())[x - i] == part[x - i]);
        }
    }
    lemma_heard_prefix(rest, before, responses_items(), i);
    lemma_heard_prefix(rest, upto, responses_items(), j);
    assert forall|q: int| i <= q < j implies responses_speaker(#[trigger] rest[q]) == role_name(
        req.messages[k].role,
    ) by {
        assert(rest.subrange(i, i + part.len())[q - i] == part[q - i]);
        lemma_responses_speakers(req.messages[k], q - i);
    }
    assert(heard(wire->Array_0, responses_items(), i) == told(req.messages, k));
    assert(heard(wire->Array_0, responses_items(), j) == told(req.messages, k + 1));
}

proof fn lemma_responses_array(model: Seq<char>, req: RequestView)
    ensures
        json::field_or_null(openai_responses::wire_body(model, req), "input"@) == JsonSpec::Array(
            openai_responses::rendered_all(req.messages, req.messages.len() as int),
        ),
{
    lemma_setting_keys();
    reveal_with_fuel(json::member_from, 6);
    let base = json::pairs3(
        "model"@,
        JsonSpec::Str(openai_chat::chosen_model(model, req.model)),
        "stream"@,
        JsonSpec::Bool(true),
        "input"@,
        JsonSpec::Array(openai_responses::rendered_all(req.messages, req.messages.len() as int)),
    );
    let instructions = if req.system.len() == 0 {
        None
    } else {
        Some(JsonSpec::Str(req.system))
    };
    let tools = if req.tools.len() == 0 {
        None
    } else {
        Some(openai_responses::rendered_tools(req.tools))
    };
    let count = openai_chat::count_member(req.max_tokens);
    let heat = openai_chat::number_member(req.temperature);
    let with_system = openai_chat::with_member(base, "instructions"@, instructions);
    let with_tools = openai_chat::with_member(with_system, "tools"@, tools);
    let with_max = openai_chat::with_member(with_tools, "max_output_tokens"@, count);
    lemma_optional_member(base, "instructions"@, instructions, "input"@);
    lemma_optional_member(with_system, "tools"@, tools, "input"@);
    lemma_optional_member(with_tools, "max_output_tokens"@, count, "input"@);
    lemma_optional_member(with_max, "temperature"@, heat, "input"@);
}

proof fn lemma_messages_place(messages: Seq<MessageView>, k: int, n: int) -> (at: (int, int, int))
    requires
        0 <= k < n <= messages.len(),
        messages[k].role != Role::System,
    ensures
        ({
            let (w, a, b) = at;
            let out = anthropic_messages::coalesced(messages, n);
            let m = messages[k];
            &&& 0 <= w < out.len()
            &&& 0 <= a <= b <= out[w].content.len()
            &&& out[w].from_assistant == (m.role == Role::Assistant)
            &&& out[w].content.subrange(a, b) == anthropic_messages::wire_blocks(
                m.role,
                m.content,
                m.content.len() as int,
            )
            &&& anthropic_messages::blocks_of(out, w) + out[w].content.take(a)
                == anthropic_messages::blocks_said(messages, k)
        }),
    decreases n,
{
    let before = anthropic_messages::coalesced(messages, n - 1);
    let out = anthropic_messages::coalesced(messages, n);
    let size = before.len() as int;
    if k == n - 1 {
        let m = messages[k];
        let new = anthropic_messages::wire_blocks(m.role, m.content, m.content.len() as int);
        anthropic_messages::coalescing_keeps_every_block(messages, n - 1);
        if size > 0 && before.last().from_assistant == (m.role == Role::Assistant) {
            let a = before.last().content.len() as int;
            assert(out[size - 1].content == before.last().content + new);
            assert(out[size - 1].content.subrange(a, a + new.len()) =~= new);
            assert(out[size - 1].content.take(a) =~= before.last().content);
            lemma_blocks_before(out, before, size - 1);
            (size - 1, a, a + new.len())
        } else {
            assert(out[size].content == new);
            assert(new.subrange(0, new.len() as int) =~= new);
            lemma_blocks_before(out, before, size);
            assert(anthropic_messages::blocks_of(out, size) + out[size].content.take(0)
                =~= anthropic_messages::blocks_of(before, size));
            (size, 0, new.len() as int)
        }
    } else {
        let (w, a, b) = lemma_messages_place(messages, k, n - 1);
        if anthropic_messages::rendered(messages[n - 1]) is Some {
            assert(out[w].content.subrange(a, b) =~= before[w].content.subrange(a, b));
            assert(out[w].content.take(a) =~= before[w].content.take(a));
            lemma_blocks_before(out, before, w);
        }
        (w, a, b)
    }
}

proof fn lemma_blocks_before(
    a: Seq<anthropic_messages::WireView>,
    b: Seq<anthropic_messages::WireView>,
    n: int,
)
    requires
        0 <= n <= a.len(),
        n <= b.len(),
        forall|i: int| 0 <= i < n ==> a[i] == b[i],
    ensures
        anthropic_messages::blocks_of(a, n) == anthropic_messages::blocks_of(b, n),
    decreases n,
{
    if n > 0 {
        lemma_blocks_before(a, b, n - 1);
    }
}

/// Message `k` of a history stands in the wire message `w`, in its blocks from `a` to `b`: the wire
/// message is of the assistant where the message is, else of the user, what comes before tells what the
/// history tells before it, and the blocks tell what it tells.
pub open spec fn messages_stand_at(
    wire: Seq<JsonSpec>,
    messages: Seq<MessageView>,
    k: int,
    w: int,
    a: int,
    b: int,
) -> bool {
    let blocks = json::field_or_null(wire[w], "content"@)->Array_0;
    &&& 0 <= w < wire.len()
    &&& 0 <= a <= b <= blocks.len()
    &&& text_at(wire[w], "role"@) == (if messages[k].role == Role::Assistant {
        "assistant"@
    } else {
        "user"@
    })
    &&& both(heard(wire, messages_messages(), w), heard(blocks, messages_blocks(), a)) == told(
        messages,
        k,
    )
    &&& heard(blocks.subrange(a, b), messages_blocks(), b - a) == told_by_message(messages[k])
}

/// In a Messages body each message of the history stands in its place, in a wire message of the
/// assistant where it is the assistant's, else of the user: behind all that was told before it come the
/// blocks that tell what it tells.
pub proof fn messages_say_who_speaks(model: Seq<char>, req: RequestView, k: int)
    requires
        0 <= k < req.messages.len(),
        req.messages[k].role != Role::System,
    ensures
        exists|w: int, a: int, b: int| #[trigger]
            messages_stand_at(
                json::field_or_null(anthropic_messages::wire_body(model, req), "messages"@)->Array_0,
                req.messages,
                k,
                w,
                a,
                b,
            ),
{
    let n = req.messages.len() as int;
    let out = anthropic_messages::coalesced(req.messages, n);
    let jsons = Seq::new(out.len(), |i: int| anthropic_messages::wire_json(out[i]));
    lemma_messages_array(model, req);
    let wire = json::field_or_null(anthropic_messages::wire_body(model, req), "messages"@);
    assert(wire->Array_0 == jsons);
    let (w, a, b) = lemma_messages_place(req.messages, k, n);
    let m = req.messages[k];
    lemma_messages_keys();
    reveal_with_fuel(json::member_from, 3);
    let blocks = json::field_or_null(wire->Array_0[w], "content"@);
    assert(blocks == JsonSpec::Array(out[w].content));
    lemma_messages_wire(out, jsons, w);
    let front = out[w].content.take(a);
    lemma_heard_append(anthropic_messages::blocks_of(out, w), front, messages_blocks());
    lemma_heard_prefix(out[w].content, front, messages_blocks(), a);
    lemma_messages_said(req.messages, k);
    lemma_messages_blocks(m.role, m.content, m.content.len() as int);
    assert(messages_stand_at(wire->Array_0, req.messages, k, w, a, b));
}

proof fn lemma_messages_array(model: Seq<char>, req: RequestView)
    ensures
        ({
            let out = anthropic_messages::coalesced(req.messages, req.messages.len() as int);
            json::field_or_null(anthropic_messages::wire_body(model, req), "messages"@)
                == JsonSpec::Array(
                Seq::new(out.len(), |i: int| anthropic_messages::wire_json(out[i])),
            )
        }),
{
    let n = req.messages.len() as int;
    let out = anthropic_messages::coalesced(req.messages, n);
    let wire = Seq::new(out.len(), |i: int| anthropic_messages::wire_json(out[i]));
    let base = json::pairs4(
        "model"@,
        JsonSpec::Str(openai_chat::chosen_model(model, req.model)),
        "stream"@,
        JsonSpec::Bool(true),
        "max_tokens"@,
        JsonSpec::Number(
            json::NumberSpec::PosInt(
                match req.max_tokens {
                    Some(k) => k as u64,
                    None => 4096,
                },
            ),
        ),
        "messages"@,
        JsonSpec::Array(wire),
    );
    lemma_setting_keys();
    reveal_with_fuel(json::member_from, 6);
    let system = anthropic_messages::system_member(req.system);
    let tools = if req.tools.len() == 0 {
        None
    } else {
        Some(anthropic_messages::rendered_tools(req.tools))
    };
    let heat = openai_chat::number_member(req.temperature);
    let with_system = openai_chat::with_member(base, "system"@, system);
    let with_tools = openai_chat::with_member(with_system, "tools"@, tools);
    lemma_optional_member(base, "system"@, system, "messages"@);
    lemma_optional_member(with_system, "tools"@, tools, "messages"@);
    lemma_optional_member(with_tools, "temperature"@, heat, "messages"@);
}

/// A tool result that failed says so to the Messages API, and one that did not says that.
pub proof fn a_failed_result_says_so(id: Seq<char>, out: types::OutputView)
    ensures
        ({
            let block = anthropic_messages::wire_block(
                Role::Tool,
                BlockView::ToolResult { id, out },
            );
            block is Some && json::field_or_null(block->0, "is_error"@) == JsonSpec::Bool(
                out.is_error,
            )
        }),
{
    reveal_strlit("type");
    reveal_strlit("tool_use_id");
    reveal_strlit("content");
    reveal_strlit("is_error");
    assert("type"@.len() == 4 && "tool_use_id"@.len() == 11 && "content"@.len() == 7);
    assert("is_error"@.len() == 8);
    reveal_with_fuel(json::member_from, 5);
}

/// An image is sent with its kind and its data, in base 64.
pub proof fn an_image_is_sent_whole(media_type: Seq<char>, data: Seq<char>)
    ensures
        openai_chat::data_url(media_type, data) == "data:"@ + media_type + ";base64,"@ + data,
{
}

} // verus!
