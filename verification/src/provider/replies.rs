//! A reply as the model means it, and what becomes of it on the way through each adapter.
//!
//! A reply is a run of [`Piece`]s. Each API family has its own way to put a piece on the wire; every
//! adapter passes on the same events for it.

use crate::engine::agent;
use crate::engine::rounds;
use crate::engine::types::{BlockView, EventView, Usage};
use crate::json;
use crate::json::{JsonSpec, NumberSpec};
use crate::provider::anthropic_messages;
use crate::provider::anthropic_messages::AnthropicState;
use crate::provider::openai_chat;
use crate::provider::openai_chat::ChatState;
use crate::provider::openai_responses;
use crate::provider::openai_responses::ResponsesState;
use crate::text;
use vstd::prelude::*;
use vstd::string::*;

verus! {

// ---- replies --------------------------------------------------------------------------------

/// One piece of a reply. A call goes by the number under which it was opened.
pub enum Piece {
    Text(Seq<char>),
    Thinking(Seq<char>),
    Open { index: u64, id: Seq<char>, name: Seq<char> },
    Args { index: u64, json: Seq<char> },
    Close { index: u64 },
}

/// The id of the call that was opened under the number among the first `n` pieces.
pub open spec fn id_under(pieces: Seq<Piece>, index: u64, n: int) -> Option<Seq<char>>
    decreases n,
{
    if n <= 0 {
        None
    } else {
        match pieces[n - 1] {
            Piece::Open { index: at, id, .. } if at == index => Some(id),
            _ => id_under(pieces, index, n - 1),
        }
    }
}

/// Every call is opened before it is fed or ended.
pub open spec fn opened_first(pieces: Seq<Piece>) -> bool {
    forall|k: int|
        0 <= k < pieces.len() ==> match #[trigger] pieces[k] {
            Piece::Args { index, .. } => id_under(pieces, index, k) is Some,
            Piece::Close { index } => id_under(pieces, index, k) is Some,
            _ => true,
        }
}

/// The event that the piece at `k` stands for.
pub open spec fn event_of(pieces: Seq<Piece>, k: int) -> EventView {
    match pieces[k] {
        Piece::Text(t) => EventView::TextDelta(t),
        Piece::Thinking(t) => EventView::ThinkingDelta(t),
        Piece::Open { id, name, .. } => EventView::ToolUseStart { id, name },
        Piece::Args { index, json } => EventView::ToolInputDelta {
            id: id_under(pieces, index, k)->0,
            json,
        },
        Piece::Close { index } => EventView::ToolUseEnd { id: id_under(pieces, index, k)->0 },
    }
}

/// The events that the first `n` pieces stand for, one for each.
pub open spec fn events_of(pieces: Seq<Piece>, n: int) -> Seq<EventView> {
    Seq::new(n as nat, |k: int| event_of(pieces, k))
}

/// The ids that are known are those of the calls opened among the first `n` pieces.
pub open spec fn known_ids(ids: Map<u64, Seq<char>>, pieces: Seq<Piece>, n: int) -> bool {
    forall|index: u64|
        match #[trigger] id_under(pieces, index, n) {
            Some(id) => ids.dom().contains(index) && ids[index] == id,
            None => !ids.dom().contains(index),
        }
}

// ---- JSON by hand ---------------------------------------------------------------------------

pub open spec fn a_string(s: Seq<char>) -> JsonSpec {
    JsonSpec::Str(s)
}

pub open spec fn a_number(n: u64) -> JsonSpec {
    JsonSpec::Number(NumberSpec::PosInt(n))
}

/// An object with one member.
pub open spec fn object1(k: Seq<char>, v: JsonSpec) -> JsonSpec {
    JsonSpec::Object(seq![(k, v)])
}

/// An object with two members.
pub open spec fn object2(k: Seq<char>, v: JsonSpec, l: Seq<char>, w: JsonSpec) -> JsonSpec {
    JsonSpec::Object(seq![(k, v), (l, w)])
}

/// An object with three members.
pub open spec fn object3(
    k: Seq<char>,
    v: JsonSpec,
    l: Seq<char>,
    w: JsonSpec,
    m: Seq<char>,
    x: JsonSpec,
) -> JsonSpec {
    JsonSpec::Object(seq![(k, v), (l, w), (m, x)])
}

/// An object with four members.
pub open spec fn object4(
    k: Seq<char>,
    v: JsonSpec,
    l: Seq<char>,
    w: JsonSpec,
    m: Seq<char>,
    x: JsonSpec,
    n: Seq<char>,
    y: JsonSpec,
) -> JsonSpec {
    JsonSpec::Object(seq![(k, v), (l, w), (m, x), (n, y)])
}

proof fn lemma_field1(k: Seq<char>, v: JsonSpec, key: Seq<char>)
    ensures
        json::field(object1(k, v), key) == (if key == k {
            Some(v)
        } else {
            None
        }),
{
    reveal_with_fuel(json::member_from, 2);
}

proof fn lemma_field2(k: Seq<char>, v: JsonSpec, l: Seq<char>, w: JsonSpec, key: Seq<char>)
    ensures
        json::field(object2(k, v, l, w), key) == (if key == k {
            Some(v)
        } else if key == l {
            Some(w)
        } else {
            None
        }),
{
    reveal_with_fuel(json::member_from, 3);
}

proof fn lemma_field3(
    k: Seq<char>,
    v: JsonSpec,
    l: Seq<char>,
    w: JsonSpec,
    m: Seq<char>,
    x: JsonSpec,
    key: Seq<char>,
)
    ensures
        json::field(object3(k, v, l, w, m, x), key) == (if key == k {
            Some(v)
        } else if key == l {
            Some(w)
        } else if key == m {
            Some(x)
        } else {
            None
        }),
{
    reveal_with_fuel(json::member_from, 4);
}

proof fn lemma_field4(
    k: Seq<char>,
    v: JsonSpec,
    l: Seq<char>,
    w: JsonSpec,
    m: Seq<char>,
    x: JsonSpec,
    n: Seq<char>,
    y: JsonSpec,
    key: Seq<char>,
)
    ensures
        json::field(object4(k, v, l, w, m, x, n, y), key) == (if key == k {
            Some(v)
        } else if key == l {
            Some(w)
        } else if key == m {
            Some(x)
        } else if key == n {
            Some(y)
        } else {
            None
        }),
{
    reveal_with_fuel(json::member_from, 5);
}

// ---- messages -------------------------------------------------------------------------------

/// A piece of a content block on the Messages wire.
pub open spec fn messages_delta(index: u64, kind: Seq<char>, key: Seq<char>, said: Seq<char>) -> JsonSpec {
    object3(
        "type"@,
        a_string("content_block_delta"@),
        "index"@,
        a_number(index),
        "delta"@,
        object2("type"@, a_string(kind), key, a_string(said)),
    )
}

/// A piece as the Messages API sends it.
pub open spec fn messages_payload(p: Piece) -> JsonSpec {
    match p {
        Piece::Text(t) => messages_delta(0, "text_delta"@, "text"@, t),
        Piece::Thinking(t) => messages_delta(0, "thinking_delta"@, "thinking"@, t),
        Piece::Open { index, id, name } => object3(
            "type"@,
            a_string("content_block_start"@),
            "index"@,
            a_number(index),
            "content_block"@,
            object3("type"@, a_string("tool_use"@), "id"@, a_string(id), "name"@, a_string(name)),
        ),
        Piece::Args { index, json } => messages_delta(
            index,
            "input_json_delta"@,
            "partial_json"@,
            json,
        ),
        Piece::Close { index } => object2(
            "type"@,
            a_string("content_block_stop"@),
            "index"@,
            a_number(index),
        ),
    }
}

/// What the parser knows and has passed on after the payloads of the first `n` pieces.
pub open spec fn messages_read(st: AnthropicState, pieces: Seq<Piece>, n: int) -> (
    AnthropicState,
    Seq<EventView>,
)
    decreases n,
{
    if n <= 0 {
        (st, seq![])
    } else {
        let (mid, events) = messages_read(st, pieces, n - 1);
        let (next, more) = anthropic_messages::after_value(mid, messages_payload(pieces[n - 1]));
        (next, events + more)
    }
}

proof fn lemma_messages_words()
    ensures
        "type"@ != "index"@ && "type"@ != "delta"@ && "type"@ != "content_block"@,
        "index"@ != "delta"@ && "index"@ != "content_block"@,
        "type"@ != "text"@ && "type"@ != "thinking"@ && "type"@ != "partial_json"@,
        "type"@ != "id"@ && "type"@ != "name"@ && "id"@ != "name"@,
        "content_block_delta"@ != "message_start"@,
        "content_block_delta"@ != "content_block_start"@,
        "content_block_start"@ != "message_start"@,
        "content_block_stop"@ != "message_start"@,
        "content_block_stop"@ != "content_block_start"@,
        "content_block_stop"@ != "content_block_delta"@,
        "thinking_delta"@ != "text_delta"@,
        "input_json_delta"@ != "text_delta"@,
        "input_json_delta"@ != "thinking_delta"@,
{
    reveal_strlit("type");
    reveal_strlit("index");
    reveal_strlit("delta");
    reveal_strlit("content_block");
    reveal_strlit("text");
    reveal_strlit("thinking");
    reveal_strlit("partial_json");
    reveal_strlit("id");
    reveal_strlit("name");
    reveal_strlit("content_block_delta");
    reveal_strlit("content_block_start");
    reveal_strlit("content_block_stop");
    reveal_strlit("message_start");
    reveal_strlit("text_delta");
    reveal_strlit("thinking_delta");
    reveal_strlit("input_json_delta");
    assert("content_block_delta"@.len() == 19 && "content_block_start"@.len() == 19);
    assert("content_block_stop"@.len() == 18 && "message_start"@.len() == 13);
    assert("text_delta"@.len() == 10 && "thinking_delta"@.len() == 14);
    assert("input_json_delta"@.len() == 16);
    assert("index"@[0] == 'i' && "delta"@[0] == 'd');
    assert("type"@[0] == 't' && "name"@[0] == 'n' && "text"@[1] == 'e' && "type"@[1] == 'y');
    assert("content_block_delta"@[14] == 'd' && "content_block_start"@[14] == 's');
}

proof fn lemma_messages_delta(
    st: AnthropicState,
    index: u64,
    kind: Seq<char>,
    key: Seq<char>,
    said: Seq<char>,
)
    requires
        key != "type"@,
    ensures
        ({
            let v = messages_delta(index, kind, key, said);
            let d = json::field_or_null(v, "delta"@);
            &&& anthropic_messages::after_value(st, v) == (
                st,
                anthropic_messages::block_delta(st, v),
            )
            &&& anthropic_messages::number_at(v, "index"@) == index
            &&& anthropic_messages::text_at(d, "type"@) == kind
            &&& anthropic_messages::text_at(d, key) == said
        }),
{
    lemma_messages_words();
    let inner = object2("type"@, a_string(kind), key, a_string(said));
    lemma_field3(
        "type"@,
        a_string("content_block_delta"@),
        "index"@,
        a_number(index),
        "delta"@,
        inner,
        "type"@,
    );
    lemma_field3(
        "type"@,
        a_string("content_block_delta"@),
        "index"@,
        a_number(index),
        "delta"@,
        inner,
        "index"@,
    );
    lemma_field3(
        "type"@,
        a_string("content_block_delta"@),
        "index"@,
        a_number(index),
        "delta"@,
        inner,
        "delta"@,
    );
    lemma_field2("type"@, a_string(kind), key, a_string(said), "type"@);
    lemma_field2("type"@, a_string(kind), key, a_string(said), key);
}

proof fn lemma_messages_open(st: AnthropicState, index: u64, id: Seq<char>, name: Seq<char>)
    ensures
        anthropic_messages::after_value(st, messages_payload(Piece::Open { index, id, name })) == (
            AnthropicState { tool_ids: st.tool_ids.insert(index, id), ..st },
            seq![EventView::ToolUseStart { id, name }],
        ),
{
    lemma_messages_words();
    let t = a_string("tool_use"@);
    let block = object3("type"@, t, "id"@, a_string(id), "name"@, a_string(name));
    let kind = a_string("content_block_start"@);
    lemma_field3("type"@, kind, "index"@, a_number(index), "content_block"@, block, "type"@);
    lemma_field3("type"@, kind, "index"@, a_number(index), "content_block"@, block, "index"@);
    lemma_field3(
        "type"@,
        kind,
        "index"@,
        a_number(index),
        "content_block"@,
        block,
        "content_block"@,
    );
    lemma_field3("type"@, t, "id"@, a_string(id), "name"@, a_string(name), "type"@);
    lemma_field3("type"@, t, "id"@, a_string(id), "name"@, a_string(name), "id"@);
    lemma_field3("type"@, t, "id"@, a_string(id), "name"@, a_string(name), "name"@);
}

proof fn lemma_messages_close(st: AnthropicState, index: u64)
    ensures
        anthropic_messages::after_value(st, messages_payload(Piece::Close { index })) == (
            st,
            if st.tool_ids.dom().contains(index) {
                seq![EventView::ToolUseEnd { id: st.tool_ids[index] }]
            } else {
                seq![]
            },
        ),
{
    lemma_messages_words();
    let kind = a_string("content_block_stop"@);
    lemma_field2("type"@, kind, "index"@, a_number(index), "type"@);
    lemma_field2("type"@, kind, "index"@, a_number(index), "index"@);
}

proof fn lemma_messages_read(st: AnthropicState, pieces: Seq<Piece>, n: int)
    requires
        0 <= n <= pieces.len(),
        opened_first(pieces),
        st.tool_ids == Map::<u64, Seq<char>>::empty(),
    ensures
        messages_read(st, pieces, n).1 == events_of(pieces, n),
        known_ids(messages_read(st, pieces, n).0.tool_ids, pieces, n),
        messages_read(st, pieces, n).0.input_tokens == st.input_tokens,
        messages_read(st, pieces, n).0.output_tokens == st.output_tokens,
    decreases n,
{
    if n > 0 {
        lemma_messages_read(st, pieces, n - 1);
        lemma_messages_words();
        let (mid, events) = messages_read(st, pieces, n - 1);
        let p = pieces[n - 1];
        match p {
            Piece::Text(t) => {
                lemma_messages_delta(mid, 0, "text_delta"@, "text"@, t);
            },
            Piece::Thinking(t) => {
                lemma_messages_delta(mid, 0, "thinking_delta"@, "thinking"@, t);
            },
            Piece::Open { index, id, name } => {
                lemma_messages_open(mid, index, id, name);
            },
            Piece::Args { index, json } => {
                lemma_messages_delta(mid, index, "input_json_delta"@, "partial_json"@, json);
                assert(id_under(pieces, index, n - 1) is Some);
                assert(mid.tool_ids[index] == id_under(pieces, index, n - 1)->0);
            },
            Piece::Close { index } => {
                lemma_messages_close(mid, index);
                assert(id_under(pieces, index, n - 1) is Some);
                assert(mid.tool_ids[index] == id_under(pieces, index, n - 1)->0);
            },
        }
        let (next, all) = messages_read(st, pieces, n);
        assert(all =~= events_of(pieces, n));
        assert forall|index: u64|
            match #[trigger] id_under(pieces, index, n) {
                Some(id) => next.tool_ids.dom().contains(index) && next.tool_ids[index] == id,
                None => !next.tool_ids.dom().contains(index),
            } by {
            assert(id_under(pieces, index, n - 1) is Some || id_under(pieces, index, n - 1) is None);
        }
    } else {
        assert(events_of(pieces, 0) =~= seq![]);
    }
}

/// The Messages adapter passes a reply on as it is: one event for each piece, in order, with the
/// piece's own words, and what is said of a call under the id with which it was opened.
pub proof fn messages_pass_a_reply_on(st: AnthropicState, pieces: Seq<Piece>)
    requires
        opened_first(pieces),
        st.tool_ids == Map::<u64, Seq<char>>::empty(),
    ensures
        messages_read(st, pieces, pieces.len() as int).1 == events_of(pieces, pieces.len() as int),
{
    lemma_messages_read(st, pieces, pieces.len() as int);
}


/// The Messages adapter reads the counts where they are sent, and tells them when the message stops:
/// that ends the reply.
pub proof fn messages_tell_the_usage(st: AnthropicState, given: u64, made: u64)
    ensures
        ({
            let count = |key: Seq<char>, n: u64| object1("usage"@, object1(key, a_number(n)));
            let start = object2(
                "type"@,
                a_string("message_start"@),
                "message"@,
                count("input_tokens"@, given),
            );
            let delta = object2(
                "type"@,
                a_string("message_delta"@),
                "usage"@,
                object1("output_tokens"@, a_number(made)),
            );
            let stop = object1("type"@, a_string("message_stop"@));
            let (a, first) = anthropic_messages::after_value(st, start);
            let (b, second) = anthropic_messages::after_value(a, delta);
            let (c, third) = anthropic_messages::after_value(b, stop);
            &&& first.len() == 0
            &&& second.len() == 0
            &&& a.tool_ids == st.tool_ids && b.tool_ids == st.tool_ids
            &&& third == seq![
                EventView::Usage(
                    Usage {
                        input_tokens: given,
                        output_tokens: made,
                        cache_read: 0,
                        cache_write: 0,
                    },
                ),
                EventView::Done,
            ]
        }),
{
    reveal_strlit("type");
    reveal_strlit("message");
    reveal_strlit("usage");
    reveal_strlit("message_start");
    reveal_strlit("message_delta");
    reveal_strlit("message_stop");
    reveal_strlit("content_block_start");
    reveal_strlit("content_block_delta");
    reveal_strlit("content_block_stop");
    assert("type"@.len() == 4 && "message"@.len() == 7 && "usage"@.len() == 5);
    assert("message_start"@.len() == 13 && "message_delta"@.len() == 13 && "message_stop"@.len()
        == 12);
    assert("message_start"@[8] == 's' && "message_delta"@[8] == 'd');
    assert("content_block_start"@.len() == 19 && "content_block_delta"@.len() == 19
        && "content_block_stop"@.len() == 18);
    let input = object1("input_tokens"@, a_number(given));
    let output = object1("output_tokens"@, a_number(made));
    let message = object1("usage"@, input);
    lemma_field2("type"@, a_string("message_start"@), "message"@, message, "type"@);
    lemma_field2("type"@, a_string("message_start"@), "message"@, message, "message"@);
    lemma_field1("usage"@, input, "usage"@);
    lemma_field1("input_tokens"@, a_number(given), "input_tokens"@);
    lemma_field2("type"@, a_string("message_delta"@), "usage"@, output, "type"@);
    lemma_field2("type"@, a_string("message_delta"@), "usage"@, output, "usage"@);
    lemma_field1("output_tokens"@, a_number(made), "output_tokens"@);
    lemma_field1("type"@, a_string("message_stop"@), "type"@);
    let u = EventView::Usage(
        Usage { input_tokens: given, output_tokens: made, cache_read: 0, cache_write: 0 },
    );
    assert(Seq::empty().push(u).push(EventView::Done) =~= seq![u, EventView::Done]);
}

// ---- responses ------------------------------------------------------------------------------

/// A piece as the Responses API sends it. `item` names the output item of each call.
pub open spec fn responses_payload(item: spec_fn(u64) -> Seq<char>, p: Piece) -> JsonSpec {
    match p {
        Piece::Text(t) => object2(
            "type"@,
            a_string("response.output_text.delta"@),
            "delta"@,
            a_string(t),
        ),
        Piece::Thinking(t) => object2(
            "type"@,
            a_string("response.reasoning_summary_text.delta"@),
            "delta"@,
            a_string(t),
        ),
        Piece::Open { index, id, name } => object2(
            "type"@,
            a_string("response.output_item.added"@),
            "item"@,
            object4(
                "type"@,
                a_string("function_call"@),
                "id"@,
                a_string(item(index)),
                "call_id"@,
                a_string(id),
                "name"@,
                a_string(name),
            ),
        ),
        Piece::Args { index, json } => object3(
            "type"@,
            a_string("response.function_call_arguments.delta"@),
            "item_id"@,
            a_string(item(index)),
            "delta"@,
            a_string(json),
        ),
        Piece::Close { index } => object2(
            "type"@,
            a_string("response.output_item.done"@),
            "item"@,
            object2("type"@, a_string("function_call"@), "id"@, a_string(item(index))),
        ),
    }
}

/// What the parser knows and has passed on after the payloads of the first `n` pieces.
pub open spec fn responses_read(
    st: ResponsesState,
    item: spec_fn(u64) -> Seq<char>,
    pieces: Seq<Piece>,
    n: int,
) -> (ResponsesState, Seq<EventView>)
    decreases n,
{
    if n <= 0 {
        (st, seq![])
    } else {
        let (mid, events) = responses_read(st, item, pieces, n - 1);
        let (next, more) = openai_responses::after_value(
            mid,
            responses_payload(item, pieces[n - 1]),
        );
        (next, events + more)
    }
}

proof fn lemma_responses_words()
    ensures
        "type"@ != "delta"@ && "type"@ != "item"@ && "item"@ != "delta"@,
        "type"@ != "item_id"@ && "item_id"@ != "delta"@,
        "type"@ != "id"@ && "type"@ != "call_id"@ && "type"@ != "name"@,
        "id"@ != "call_id"@ && "id"@ != "name"@ && "call_id"@ != "name"@,
        "response.reasoning_summary_text.delta"@ != "response.output_text.delta"@,
        "response.output_item.added"@ != "response.output_text.delta"@,
        "response.output_item.added"@ != "response.reasoning_summary_text.delta"@,
        "response.output_item.added"@ != "response.reasoning_text.delta"@,
        "response.function_call_arguments.delta"@ != "response.output_text.delta"@,
        "response.function_call_arguments.delta"@ != "response.reasoning_summary_text.delta"@,
        "response.function_call_arguments.delta"@ != "response.reasoning_text.delta"@,
        "response.function_call_arguments.delta"@ != "response.output_item.added"@,
        "response.output_item.done"@ != "response.output_text.delta"@,
        "response.output_item.done"@ != "response.reasoning_summary_text.delta"@,
        "response.output_item.done"@ != "response.reasoning_text.delta"@,
        "response.output_item.done"@ != "response.output_item.added"@,
        "response.output_item.done"@ != "response.function_call_arguments.delta"@,
        "response.completed"@ != "response.output_text.delta"@,
        "response.completed"@ != "response.reasoning_summary_text.delta"@,
        "response.completed"@ != "response.reasoning_text.delta"@,
        "response.completed"@ != "response.output_item.added"@,
        "response.completed"@ != "response.function_call_arguments.delta"@,
        "response.completed"@ != "response.output_item.done"@,
{
    reveal_strlit("type");
    reveal_strlit("delta");
    reveal_strlit("item");
    reveal_strlit("item_id");
    reveal_strlit("id");
    reveal_strlit("call_id");
    reveal_strlit("name");
    reveal_strlit("response.output_text.delta");
    reveal_strlit("response.reasoning_summary_text.delta");
    reveal_strlit("response.reasoning_text.delta");
    reveal_strlit("response.output_item.added");
    reveal_strlit("response.function_call_arguments.delta");
    reveal_strlit("response.output_item.done");
    reveal_strlit("response.completed");
    assert("type"@.len() == 4 && "delta"@.len() == 5 && "item"@.len() == 4 && "item_id"@.len() == 7
        && "id"@.len() == 2 && "call_id"@.len() == 7 && "name"@.len() == 4);
    assert("type"@[0] == 't' && "item"@[0] == 'i' && "name"@[0] == 'n');
    assert("response.output_text.delta"@.len() == 26);
    assert("response.reasoning_summary_text.delta"@.len() == 37);
    assert("response.reasoning_text.delta"@.len() == 29);
    assert("response.output_item.added"@.len() == 26);
    assert("response.output_text.delta"@[16] == 't' && "response.output_item.added"@[16] == 'i');
    assert("response.function_call_arguments.delta"@.len() == 38);
    assert("response.output_item.done"@.len() == 25);
    assert("response.completed"@.len() == 18);
}

proof fn lemma_responses_step(st: ResponsesState, item: spec_fn(u64) -> Seq<char>, p: Piece)
    ensures
        openai_responses::after_value(st, responses_payload(item, p)) == (match p {
            Piece::Text(t) => (st, seq![EventView::TextDelta(t)]),
            Piece::Thinking(t) => (st, seq![EventView::ThinkingDelta(t)]),
            Piece::Open { index, id, name } => (
                ResponsesState { call_ids: st.call_ids.insert(item(index), id) },
                seq![EventView::ToolUseStart { id, name }],
            ),
            Piece::Args { index, json } => (
                st,
                if st.call_ids.dom().contains(item(index)) {
                    seq![EventView::ToolInputDelta { id: st.call_ids[item(index)], json }]
                } else {
                    seq![]
                },
            ),
            Piece::Close { index } => (
                st,
                if st.call_ids.dom().contains(item(index)) {
                    seq![EventView::ToolUseEnd { id: st.call_ids[item(index)] }]
                } else {
                    seq![]
                },
            ),
        }),
{
    lemma_responses_words();
    match p {
        Piece::Text(t) => {
            let kind = a_string("response.output_text.delta"@);
            lemma_field2("type"@, kind, "delta"@, a_string(t), "type"@);
            lemma_field2("type"@, kind, "delta"@, a_string(t), "delta"@);
        },
        Piece::Thinking(t) => {
            let kind = a_string("response.reasoning_summary_text.delta"@);
            lemma_field2("type"@, kind, "delta"@, a_string(t), "type"@);
            lemma_field2("type"@, kind, "delta"@, a_string(t), "delta"@);
        },
        Piece::Open { index, id, name } => {
            let kind = a_string("response.output_item.added"@);
            let (f, i) = (a_string("function_call"@), a_string(item(index)));
            let (c, n) = (a_string(id), a_string(name));
            let inner = object4("type"@, f, "id"@, i, "call_id"@, c, "name"@, n);
            lemma_field2("type"@, kind, "item"@, inner, "type"@);
            lemma_field2("type"@, kind, "item"@, inner, "item"@);
            lemma_field4("type"@, f, "id"@, i, "call_id"@, c, "name"@, n, "type"@);
            lemma_field4("type"@, f, "id"@, i, "call_id"@, c, "name"@, n, "id"@);
            lemma_field4("type"@, f, "id"@, i, "call_id"@, c, "name"@, n, "call_id"@);
            lemma_field4("type"@, f, "id"@, i, "call_id"@, c, "name"@, n, "name"@);
        },
        Piece::Args { index, json } => {
            let kind = a_string("response.function_call_arguments.delta"@);
            let (i, d) = (a_string(item(index)), a_string(json));
            lemma_field3("type"@, kind, "item_id"@, i, "delta"@, d, "type"@);
            lemma_field3("type"@, kind, "item_id"@, i, "delta"@, d, "item_id"@);
            lemma_field3("type"@, kind, "item_id"@, i, "delta"@, d, "delta"@);
        },
        Piece::Close { index } => {
            let kind = a_string("response.output_item.done"@);
            let (f, i) = (a_string("function_call"@), a_string(item(index)));
            let inner = object2("type"@, f, "id"@, i);
            lemma_field2("type"@, kind, "item"@, inner, "type"@);
            lemma_field2("type"@, kind, "item"@, inner, "item"@);
            lemma_field2("type"@, f, "id"@, i, "id"@);
        },
    }
}

/// The item names tell the calls apart.
pub open spec fn items_differ(item: spec_fn(u64) -> Seq<char>) -> bool {
    forall|a: u64, b: u64| a != b ==> #[trigger] item(a) != #[trigger] item(b)
}

spec fn known_items(
    ids: Map<Seq<char>, Seq<char>>,
    item: spec_fn(u64) -> Seq<char>,
    pieces: Seq<Piece>,
    n: int,
) -> bool {
    forall|index: u64|
        match #[trigger] id_under(pieces, index, n) {
            Some(id) => ids.dom().contains(item(index)) && ids[item(index)] == id,
            None => !ids.dom().contains(item(index)),
        }
}

proof fn lemma_responses_read(
    st: ResponsesState,
    item: spec_fn(u64) -> Seq<char>,
    pieces: Seq<Piece>,
    n: int,
)
    requires
        0 <= n <= pieces.len(),
        opened_first(pieces),
        items_differ(item),
        st.call_ids == Map::<Seq<char>, Seq<char>>::empty(),
    ensures
        responses_read(st, item, pieces, n).1 == events_of(pieces, n),
        known_items(responses_read(st, item, pieces, n).0.call_ids, item, pieces, n),
    decreases n,
{
    if n > 0 {
        lemma_responses_read(st, item, pieces, n - 1);
        let (mid, events) = responses_read(st, item, pieces, n - 1);
        let p = pieces[n - 1];
        lemma_responses_step(mid, item, p);
        match p {
            Piece::Args { index, .. } => {
                assert(id_under(pieces, index, n - 1) is Some);
            },
            Piece::Close { index } => {
                assert(id_under(pieces, index, n - 1) is Some);
            },
            _ => {},
        }
        let (next, all) = responses_read(st, item, pieces, n);
        assert(all =~= events_of(pieces, n));
        assert forall|index: u64|
            match #[trigger] id_under(pieces, index, n) {
                Some(id) => next.call_ids.dom().contains(item(index))
                    && next.call_ids[item(index)] == id,
                None => !next.call_ids.dom().contains(item(index)),
            } by {
            assert(id_under(pieces, index, n - 1) is Some || id_under(pieces, index, n - 1) is None);
            if let Piece::Open { index: at, .. } = p {
                assert(at != index ==> item(at) != item(index));
            }
        }
    } else {
        assert(events_of(pieces, 0) =~= seq![]);
    }
}

/// The Responses adapter passes a reply on as it is: one event for each piece, in order, with the
/// piece's own words, and what is said of a call under the id with which it was opened.
pub proof fn responses_pass_a_reply_on(
    st: ResponsesState,
    item: spec_fn(u64) -> Seq<char>,
    pieces: Seq<Piece>,
)
    requires
        opened_first(pieces),
        items_differ(item),
        st.call_ids == Map::<Seq<char>, Seq<char>>::empty(),
    ensures
        responses_read(st, item, pieces, pieces.len() as int).1 == events_of(
            pieces,
            pieces.len() as int,
        ),
{
    lemma_responses_read(st, item, pieces, pieces.len() as int);
}

/// A completed response tells its counts and ends the reply.
pub proof fn responses_tell_the_usage(st: ResponsesState, given: u64, made: u64)
    ensures
        openai_responses::after_value(
            st,
            object2(
                "type"@,
                a_string("response.completed"@),
                "response"@,
                object1(
                    "usage"@,
                    object2("input_tokens"@, a_number(given), "output_tokens"@, a_number(made)),
                ),
            ),
        ) == (
            st,
            seq![
                EventView::Usage(
                    Usage {
                        input_tokens: given,
                        output_tokens: made,
                        cache_read: 0,
                        cache_write: 0,
                    },
                ),
                EventView::Done,
            ],
        ),
{
    lemma_responses_words();
    reveal_strlit("type");
    reveal_strlit("response");
    reveal_strlit("input_tokens");
    reveal_strlit("output_tokens");
    assert("type"@.len() == 4 && "response"@.len() == 8);
    assert("input_tokens"@.len() == 12 && "output_tokens"@.len() == 13);
    let kind = a_string("response.completed"@);
    let (a, b) = (a_number(given), a_number(made));
    let usage = object2("input_tokens"@, a, "output_tokens"@, b);
    let inner = object1("usage"@, usage);
    lemma_field2("type"@, kind, "response"@, inner, "type"@);
    lemma_field2("type"@, kind, "response"@, inner, "response"@);
    lemma_field1("usage"@, usage, "usage"@);
    lemma_field2("input_tokens"@, a, "output_tokens"@, b, "input_tokens"@);
    lemma_field2("input_tokens"@, a, "output_tokens"@, b, "output_tokens"@);
    let u = EventView::Usage(
        Usage { input_tokens: given, output_tokens: made, cache_read: 0, cache_write: 0 },
    );
    assert(Seq::empty().push(u).push(EventView::Done) =~= seq![u, EventView::Done]);
}


// ---- chat -----------------------------------------------------------------------------------

/// A chunk with one choice that carries a delta.
pub open spec fn chat_chunk(delta: JsonSpec) -> JsonSpec {
    object1("choices"@, JsonSpec::Array(seq![object1("delta"@, delta)]))
}

/// A piece as the Chat Completions API sends it. It sends no thinking, and no end of a single call.
pub open spec fn chat_payload(p: Piece) -> JsonSpec {
    match p {
        Piece::Text(t) => chat_chunk(object1("content"@, a_string(t))),
        Piece::Open { index, id, name } => chat_chunk(
            object1(
                "tool_calls"@,
                JsonSpec::Array(
                    seq![
                        object3(
                            "index"@,
                            a_number(index),
                            "id"@,
                            a_string(id),
                            "function"@,
                            object1("name"@, a_string(name)),
                        ),
                    ],
                ),
            ),
        ),
        Piece::Args { index, json } => chat_chunk(
            object1(
                "tool_calls"@,
                JsonSpec::Array(
                    seq![
                        object2(
                            "index"@,
                            a_number(index),
                            "function"@,
                            object1("arguments"@, a_string(json)),
                        ),
                    ],
                ),
            ),
        ),
        _ => JsonSpec::Null,
    }
}

/// The chunk with which the model stops to have its tools run.
pub open spec fn chat_finish() -> JsonSpec {
    object1(
        "choices"@,
        JsonSpec::Array(
            seq![
                object2(
                    "delta"@,
                    JsonSpec::Object(seq![]),
                    "finish_reason"@,
                    a_string("tool_calls"@),
                ),
            ],
        ),
    )
}

/// A reply that the Chat Completions API can send.
pub open spec fn chat_sends(pieces: Seq<Piece>) -> bool {
    forall|k: int|
        0 <= k < pieces.len() ==> match #[trigger] pieces[k] {
            Piece::Text(t) => t.len() > 0,
            Piece::Args { json, .. } => json.len() > 0,
            Piece::Open { .. } => true,
            _ => false,
        }
}

/// What the parser knows and has passed on after the payloads of the first `n` pieces.
pub open spec fn chat_read(st: ChatState, pieces: Seq<Piece>, n: int) -> (
    ChatState,
    Seq<EventView>,
)
    decreases n,
{
    if n <= 0 {
        (st, seq![])
    } else {
        let (mid, events) = chat_read(st, pieces, n - 1);
        let (next, more) = openai_chat::after_value(mid, chat_payload(pieces[n - 1]));
        (next, events + more)
    }
}

/// The numbers under which the first `n` pieces open calls.
pub open spec fn opened_under(pieces: Seq<Piece>, n: int) -> Seq<u64>
    decreases n,
{
    if n <= 0 {
        seq![]
    } else {
        match pieces[n - 1] {
            Piece::Open { index, .. } => opened_under(pieces, n - 1).push(index),
            _ => opened_under(pieces, n - 1),
        }
    }
}

proof fn lemma_chat_words()
    ensures
        "choices"@ != "error"@ && "choices"@ != "usage"@ && "usage"@ != "error"@,
        "delta"@ != "finish_reason"@,
        "content"@ != "tool_calls"@,
        "index"@ != "id"@ && "index"@ != "function"@ && "id"@ != "function"@,
        "name"@ != "arguments"@,
        "prompt_tokens"@ != "completion_tokens"@,
{
    reveal_strlit("choices");
    reveal_strlit("error");
    reveal_strlit("usage");
    reveal_strlit("delta");
    reveal_strlit("finish_reason");
    reveal_strlit("content");
    reveal_strlit("tool_calls");
    reveal_strlit("index");
    reveal_strlit("id");
    reveal_strlit("function");
    reveal_strlit("name");
    reveal_strlit("arguments");
    reveal_strlit("prompt_tokens");
    reveal_strlit("completion_tokens");
    assert("choices"@.len() == 7 && "error"@.len() == 5 && "usage"@.len() == 5);
    assert("error"@[0] == 'e' && "usage"@[0] == 'u');
    assert("delta"@.len() == 5 && "finish_reason"@.len() == 13);
    assert("content"@.len() == 7 && "tool_calls"@.len() == 10);
    assert("index"@.len() == 5 && "id"@.len() == 2 && "function"@.len() == 8);
    assert("name"@.len() == 4 && "arguments"@.len() == 9);
    assert("prompt_tokens"@.len() == 13 && "completion_tokens"@.len() == 17);
}

/// A chunk of one choice does what the choice says.
proof fn lemma_chat_single(st: ChatState, choice: JsonSpec, c: openai_chat::ChoiceView)
    requires
        openai_chat::choice_in(choice) == Some(c),
    ensures
        openai_chat::after_value(st, object1("choices"@, JsonSpec::Array(seq![choice])))
            == openai_chat::after_choice(st, c),
{
    lemma_chat_words();
    let items = seq![choice];
    let v = object1("choices"@, JsonSpec::Array(items));
    lemma_field1("choices"@, JsonSpec::Array(items), "choices"@);
    lemma_field1("choices"@, JsonSpec::Array(items), "usage"@);
    lemma_field1("choices"@, JsonSpec::Array(items), "error"@);
    reveal_with_fuel(openai_chat::choices_from, 2);
    assert(openai_chat::choices_from(items, 0) == Some(seq![c] + seq![]));
    assert(seq![c] + seq![] =~= seq![c]);
    reveal_with_fuel(openai_chat::after_choices, 2);
    let (next, events) = openai_chat::after_choice(st, c);
    assert(openai_chat::after_choices(st, seq![c], 1) == (next, seq![] + events));
    assert(seq![] + events =~= events);
    assert(events + seq![] =~= events);
}

proof fn lemma_chat_delta(
    st: ChatState,
    delta: JsonSpec,
    content: Option<Seq<char>>,
    calls: Seq<openai_chat::CallView>,
)
    requires
        openai_chat::delta_in(delta) == Some((content, calls)),
    ensures
        openai_chat::after_value(st, chat_chunk(delta)) == openai_chat::after_choice(
            st,
            openai_chat::ChoiceView { content, tool_calls: calls, finish_reason: None },
        ),
{
    lemma_chat_words();
    lemma_field1("delta"@, delta, "delta"@);
    lemma_field1("delta"@, delta, "finish_reason"@);
    lemma_chat_single(
        st,
        object1("delta"@, delta),
        openai_chat::ChoiceView { content, tool_calls: calls, finish_reason: None },
    );
}

proof fn lemma_chat_one_call(st: ChatState, call: JsonSpec, c: openai_chat::CallView)
    requires
        openai_chat::call_in(call) == Some(c),
    ensures
        openai_chat::after_value(
            st,
            chat_chunk(object1("tool_calls"@, JsonSpec::Array(seq![call]))),
        ) == openai_chat::after_call(st, c),
{
    lemma_chat_words();
    let items = seq![call];
    let delta = object1("tool_calls"@, JsonSpec::Array(items));
    lemma_field1("tool_calls"@, JsonSpec::Array(items), "tool_calls"@);
    lemma_field1("tool_calls"@, JsonSpec::Array(items), "content"@);
    reveal_with_fuel(openai_chat::calls_from, 2);
    assert(openai_chat::calls_from(items, 0) == Some(seq![c] + seq![]));
    assert(seq![c] + seq![] =~= seq![c]);
    lemma_chat_delta(st, delta, None, seq![c]);
    reveal_with_fuel(openai_chat::after_calls, 2);
    let (next, events) = openai_chat::after_call(st, c);
    assert(openai_chat::after_calls(st, seq![c], 1) == (next, seq![] + events));
    assert(seq![] + (seq![] + events) + seq![] =~= events);
}

proof fn lemma_chat_step(st: ChatState, p: Piece)
    requires
        p matches Piece::Text(t) ==> t.len() > 0,
        p matches Piece::Args { json, .. } ==> json.len() > 0,
        p is Text || p is Open || p is Args,
    ensures
        openai_chat::after_value(st, chat_payload(p)) == (match p {
            Piece::Text(t) => (st, seq![EventView::TextDelta(t)]),
            Piece::Open { index, id, name } => (
                ChatState { ids: st.ids.insert(index, id), order: st.order.push(index) },
                seq![EventView::ToolUseStart { id, name }],
            ),
            Piece::Args { index, json } => (
                st,
                if st.ids.dom().contains(index) {
                    seq![EventView::ToolInputDelta { id: st.ids[index], json }]
                } else {
                    seq![]
                },
            ),
            _ => (st, seq![]),
        }),
{
    lemma_chat_words();
    match p {
        Piece::Text(t) => {
            let delta = object1("content"@, a_string(t));
            lemma_field1("content"@, a_string(t), "content"@);
            lemma_field1("content"@, a_string(t), "tool_calls"@);
            assert(openai_chat::calls_from(seq![], 0) == Some(
                Seq::<openai_chat::CallView>::empty(),
            ));
            lemma_chat_delta(st, delta, Some(t), seq![]);
            assert(seq![EventView::TextDelta(t)] + seq![] + seq![] =~= seq![
                EventView::TextDelta(t),
            ]);
        },
        Piece::Open { index, id, name } => {
            let (i, d) = (a_number(index), a_string(id));
            let f = object1("name"@, a_string(name));
            lemma_field3("index"@, i, "id"@, d, "function"@, f, "index"@);
            lemma_field3("index"@, i, "id"@, d, "function"@, f, "id"@);
            lemma_field3("index"@, i, "id"@, d, "function"@, f, "function"@);
            lemma_field1("name"@, a_string(name), "name"@);
            lemma_field1("name"@, a_string(name), "arguments"@);
            let c = openai_chat::CallView {
                index,
                id: Some(id),
                function: Some(openai_chat::FnDeltaView { name: Some(name), arguments: None }),
            };
            lemma_chat_one_call(st, object3("index"@, i, "id"@, d, "function"@, f), c);
            let started = seq![EventView::ToolUseStart { id, name }];
            assert(started + seq![] =~= started);
        },
        Piece::Args { index, json } => {
            let i = a_number(index);
            let f = object1("arguments"@, a_string(json));
            lemma_field2("index"@, i, "function"@, f, "index"@);
            lemma_field2("index"@, i, "function"@, f, "id"@);
            lemma_field2("index"@, i, "function"@, f, "function"@);
            lemma_field1("arguments"@, a_string(json), "name"@);
            lemma_field1("arguments"@, a_string(json), "arguments"@);
            let c = openai_chat::CallView {
                index,
                id: None,
                function: Some(openai_chat::FnDeltaView { name: None, arguments: Some(json) }),
            };
            lemma_chat_one_call(st, object2("index"@, i, "function"@, f), c);
            let events = openai_chat::after_call(st, c).1;
            if st.ids.dom().contains(index) {
                assert(events =~= seq![EventView::ToolInputDelta { id: st.ids[index], json }]);
            } else {
                assert(events =~= seq![]);
            }
        },
        _ => {},
    }
}

proof fn lemma_chat_read(st: ChatState, pieces: Seq<Piece>, n: int)
    requires
        0 <= n <= pieces.len(),
        opened_first(pieces),
        chat_sends(pieces),
        st.ids == Map::<u64, Seq<char>>::empty(),
        st.order == Seq::<u64>::empty(),
    ensures
        chat_read(st, pieces, n).1 == events_of(pieces, n),
        known_ids(chat_read(st, pieces, n).0.ids, pieces, n),
        chat_read(st, pieces, n).0.order == opened_under(pieces, n),
    decreases n,
{
    if n > 0 {
        lemma_chat_read(st, pieces, n - 1);
        let (mid, events) = chat_read(st, pieces, n - 1);
        let p = pieces[n - 1];
        lemma_chat_step(mid, p);
        if let Piece::Args { index, .. } = p {
            assert(id_under(pieces, index, n - 1) is Some);
        }
        let (next, all) = chat_read(st, pieces, n);
        assert(all =~= events_of(pieces, n));
        assert forall|index: u64|
            match #[trigger] id_under(pieces, index, n) {
                Some(id) => next.ids.dom().contains(index) && next.ids[index] == id,
                None => !next.ids.dom().contains(index),
            } by {
            assert(id_under(pieces, index, n - 1) is Some || id_under(pieces, index, n - 1) is None);
        }
    } else {
        assert(events_of(pieces, 0) =~= seq![]);
    }
}

/// The Chat Completions adapter passes a reply on as it is: one event for each piece, in order, with
/// the piece's own words, and what is said of a call under the id with which it was opened.
pub proof fn chat_passes_a_reply_on(st: ChatState, pieces: Seq<Piece>)
    requires
        opened_first(pieces),
        chat_sends(pieces),
        st.ids == Map::<u64, Seq<char>>::empty(),
        st.order == Seq::<u64>::empty(),
    ensures
        chat_read(st, pieces, pieces.len() as int).1 == events_of(pieces, pieces.len() as int),
{
    lemma_chat_read(st, pieces, pieces.len() as int);
}

proof fn lemma_closing(ids: Map<u64, Seq<char>>, order: Seq<u64>, n: int, k: int)
    requires
        0 <= k < n <= order.len(),
        ids.dom().contains(order[k]),
    ensures
        openai_chat::closing(ids, order, n).contains(
            EventView::ToolUseEnd { id: ids[order[k]] },
        ),
    decreases n,
{
    let ev = EventView::ToolUseEnd { id: ids[order[k]] };
    let all = openai_chat::closing(ids, order, n);
    if k == n - 1 {
        assert(all[all.len() - 1] == ev);
    } else {
        lemma_closing(ids, order, n - 1, k);
        let before = openai_chat::closing(ids, order, n - 1);
        let j = choose|j: int| 0 <= j < before.len() && before[j] == ev;
        assert(all[j] == ev);
    }
}

proof fn lemma_closing_ends(ids: Map<u64, Seq<char>>, order: Seq<u64>, n: int)
    requires
        0 <= n <= order.len(),
    ensures
        forall|j: int|
            0 <= j < openai_chat::closing(ids, order, n).len() ==> (#[trigger] openai_chat::closing(
                ids,
                order,
                n,
            )[j]) is ToolUseEnd,
    decreases n,
{
    if n > 0 {
        lemma_closing_ends(ids, order, n - 1);
    }
}

proof fn lemma_chat_finish(st: ChatState)
    ensures
        openai_chat::after_value(st, chat_finish()) == (
            st,
            openai_chat::closing(st.ids, st.order, st.order.len() as int),
        ),
{
    lemma_chat_words();
    let none = JsonSpec::Object(seq![]);
    let choice = object2("delta"@, none, "finish_reason"@, a_string("tool_calls"@));
    lemma_field2("delta"@, none, "finish_reason"@, a_string("tool_calls"@), "delta"@);
    lemma_field2("delta"@, none, "finish_reason"@, a_string("tool_calls"@), "finish_reason"@);
    assert(openai_chat::calls_from(seq![], 0) == Some(Seq::<openai_chat::CallView>::empty()));
    assert(json::field(none, "content"@) is None);
    assert(json::field(none, "tool_calls"@) is None);
    let c = openai_chat::ChoiceView {
        content: None,
        tool_calls: seq![],
        finish_reason: Some("tool_calls"@),
    };
    lemma_chat_single(st, choice, c);
    let closed = openai_chat::closing(st.ids, st.order, st.order.len() as int);
    assert(seq![] + seq![] + closed =~= closed);
}

proof fn lemma_opened_under(pieces: Seq<Piece>, n: int, k: int)
    requires
        0 <= k < n <= pieces.len(),
        pieces[k] is Open,
    ensures
        opened_under(pieces, n).contains(pieces[k]->Open_index),
    decreases n,
{
    let index = pieces[k]->Open_index;
    let all = opened_under(pieces, n);
    if k == n - 1 {
        assert(all[all.len() - 1] == index);
    } else {
        lemma_opened_under(pieces, n - 1, k);
        let before = opened_under(pieces, n - 1);
        let j = choose|j: int| 0 <= j < before.len() && before[j] == index;
        assert(all[j] == index);
    }
}

proof fn lemma_id_stays(pieces: Seq<Piece>, n: int, k: int)
    requires
        0 <= k < n <= pieces.len(),
        pieces[k] is Open,
        forall|j: int|
            k < j < n ==> !((#[trigger] pieces[j]) matches Piece::Open { index, .. } && index
                == pieces[k]->Open_index),
    ensures
        id_under(pieces, pieces[k]->Open_index, n) == Some(pieces[k]->Open_id),
    decreases n,
{
    if n > k + 1 {
        assert(!(pieces[n - 1] matches Piece::Open { index, .. } && index == pieces[k]->Open_index));
        lemma_id_stays(pieces, n - 1, k);
    }
}

/// When the model stops to have its tools run, each call that the reply opened is ended, behind
/// everything that was said of it: nothing but ends comes with the stop, and the end of each call is
/// among them. (Of two calls opened under one number, the later one's.)
pub proof fn chat_ends_every_call(st: ChatState, pieces: Seq<Piece>, k: int)
    requires
        opened_first(pieces),
        chat_sends(pieces),
        st.ids == Map::<u64, Seq<char>>::empty(),
        st.order == Seq::<u64>::empty(),
        0 <= k < pieces.len(),
        pieces[k] is Open,
        forall|j: int|
            k < j < pieces.len() ==> !((#[trigger] pieces[j]) matches Piece::Open { index, .. }
                && index == pieces[k]->Open_index),
    ensures
        ({
            let read = chat_read(st, pieces, pieces.len() as int).0;
            let ends = openai_chat::after_value(read, chat_finish()).1;
            &&& ends.contains(EventView::ToolUseEnd { id: pieces[k]->Open_id })
            &&& forall|j: int| 0 <= j < ends.len() ==> (#[trigger] ends[j]) is ToolUseEnd
        }),
{
    let n = pieces.len() as int;
    let index = pieces[k]->Open_index;
    lemma_chat_read(st, pieces, n);
    let read = chat_read(st, pieces, n).0;
    lemma_chat_finish(read);
    lemma_opened_under(pieces, n, k);
    lemma_id_stays(pieces, n, k);
    assert(id_under(pieces, index, n) is Some);
    let j = choose|j: int| 0 <= j < read.order.len() && read.order[j] == index;
    lemma_closing(read.ids, read.order, read.order.len() as int, j);
    lemma_closing_ends(read.ids, read.order, read.order.len() as int);
}

/// A chunk with counts tells them.
pub proof fn chat_tells_the_usage(st: ChatState, given: u64, made: u64)
    ensures
        openai_chat::after_value(
            st,
            object2(
                "choices"@,
                JsonSpec::Array(seq![]),
                "usage"@,
                object2("prompt_tokens"@, a_number(given), "completion_tokens"@, a_number(made)),
            ),
        ) == (
            st,
            seq![
                EventView::Usage(
                    Usage {
                        input_tokens: given,
                        output_tokens: made,
                        cache_read: 0,
                        cache_write: 0,
                    },
                ),
            ],
        ),
{
    lemma_chat_words();
    let none = JsonSpec::Array(seq![]);
    let (a, b) = (a_number(given), a_number(made));
    let usage = object2("prompt_tokens"@, a, "completion_tokens"@, b);
    lemma_field2("choices"@, none, "usage"@, usage, "choices"@);
    lemma_field2("choices"@, none, "usage"@, usage, "usage"@);
    lemma_field2("choices"@, none, "usage"@, usage, "error"@);
    lemma_field2("prompt_tokens"@, a, "completion_tokens"@, b, "prompt_tokens"@);
    lemma_field2("prompt_tokens"@, a, "completion_tokens"@, b, "completion_tokens"@);
    assert(openai_chat::choices_from(seq![], 0) == Some(Seq::<openai_chat::ChoiceView>::empty()));
    let u = seq![
        EventView::Usage(
            Usage { input_tokens: given, output_tokens: made, cache_read: 0, cache_write: 0 },
        ),
    ];
    assert(seq![] + u =~= u);
}


// ---- whole replies --------------------------------------------------------------------------

/// No two calls are opened under one number or one id.
pub open spec fn calls_differ(pieces: Seq<Piece>) -> bool {
    forall|a: int, b: int|
        0 <= a < b < pieces.len() && (#[trigger] pieces[a]) is Open && (#[trigger] pieces[b]) is Open
            ==> pieces[a]->Open_index != pieces[b]->Open_index && pieces[a]->Open_id
            != pieces[b]->Open_id
}

/// The arguments sent for a call among `pieces[from..n]`, one fragment after the other.
pub open spec fn arguments_sent(pieces: Seq<Piece>, index: u64, from: int, n: int) -> Seq<char>
    decreases n - from,
{
    if n <= from {
        seq![]
    } else {
        match pieces[n - 1] {
            Piece::Args { index: at, json } if at == index => arguments_sent(
                pieces,
                index,
                from,
                n - 1,
            ) + json,
            _ => arguments_sent(pieces, index, from, n - 1),
        }
    }
}

proof fn lemma_id_comes_from(pieces: Seq<Piece>, index: u64, n: int) -> (k: int)
    requires
        0 <= n <= pieces.len(),
        id_under(pieces, index, n) is Some,
    ensures
        0 <= k < n,
        pieces[k] is Open,
        pieces[k]->Open_index == index,
        pieces[k]->Open_id == id_under(pieces, index, n)->0,
    decreases n,
{
    match pieces[n - 1] {
        Piece::Open { index: at, .. } if at == index => n - 1,
        _ => lemma_id_comes_from(pieces, index, n - 1),
    }
}

proof fn lemma_spelled(pieces: Seq<Piece>, events: Seq<EventView>, k: int, n: int)
    requires
        0 <= k < n <= pieces.len() <= events.len(),
        opened_first(pieces),
        calls_differ(pieces),
        pieces[k] is Open,
        forall|i: int| 0 <= i < pieces.len() ==> #[trigger] events[i] == event_of(pieces, i),
    ensures
        rounds::spelled(events, pieces[k]->Open_id, k, n) == arguments_sent(
            pieces,
            pieces[k]->Open_index,
            k,
            n,
        ),
    decreases n,
{
    let id = pieces[k]->Open_id;
    let index = pieces[k]->Open_index;
    assert(events[n - 1] == event_of(pieces, n - 1));
    if n > k + 1 {
        lemma_spelled(pieces, events, k, n - 1);
        if let Piece::Args { index: at, json } = pieces[n - 1] {
            assert(id_under(pieces, at, n - 1) is Some);
            let j = lemma_id_comes_from(pieces, at, n - 1);
            if j != k {
                if j < k {
                    assert(pieces[j]->Open_id != pieces[k]->Open_id);
                    assert(pieces[j]->Open_index != pieces[k]->Open_index);
                } else {
                    assert(pieces[k]->Open_id != pieces[j]->Open_id);
                    assert(pieces[k]->Open_index != pieces[j]->Open_index);
                }
            }
        }
    } else {
        assert(rounds::spelled(events, id, k, k) =~= seq![]);
        assert(arguments_sent(pieces, index, k, k) =~= seq![]);
    }
}

proof fn lemma_spelled_on(events: Seq<EventView>, id: Seq<char>, from: int, n: int, m: int)
    requires
        0 <= from <= n <= m <= events.len(),
        forall|i: int| n <= i < m ==> (#[trigger] events[i]) is ToolUseEnd,
    ensures
        rounds::spelled(events, id, from, m) == rounds::spelled(events, id, from, n),
    decreases m,
{
    if m > n {
        assert(events[m - 1] is ToolUseEnd);
        lemma_spelled_on(events, id, from, n, m - 1);
    }
}

/// A Chat Completions reply that stops to have its tools run gives a message that holds each call with
/// its name, its id and the arguments that were sent for it: the JSON that their fragments make, put
/// one after the other.
pub proof fn a_chat_reply_keeps_its_calls(st: ChatState, pieces: Seq<Piece>, k: int)
    requires
        opened_first(pieces),
        chat_sends(pieces),
        calls_differ(pieces),
        st.ids == Map::<u64, Seq<char>>::empty(),
        st.order == Seq::<u64>::empty(),
        0 <= k < pieces.len(),
        pieces[k] is Open,
    ensures
        ({
            let (read, events) = chat_read(st, pieces, pieces.len() as int);
            let ends = openai_chat::after_value(read, chat_finish()).1;
            let args = arguments_sent(pieces, pieces[k]->Open_index, k, pieces.len() as int);
            let said = match json::json_parsed(args) {
                Ok(v) if text::trimmed(args).len() > 0 => v,
                _ => JsonSpec::Null,
            };
            agent::assembled_from(
                agent::nothing_gathered(),
                events + ends + seq![EventView::Done],
                0,
            ) matches Ok((m, _)) && m.content.contains(
                BlockView::ToolUse {
                    id: pieces[k]->Open_id,
                    name: pieces[k]->Open_name,
                    input: said,
                },
            )
        }),
{
    let n = pieces.len() as int;
    let id = pieces[k]->Open_id;
    let name = pieces[k]->Open_name;
    lemma_chat_read(st, pieces, n);
    let (read, events) = chat_read(st, pieces, n);
    assert forall|j: int| k < j < pieces.len() implies !((#[trigger] pieces[j]) matches Piece::Open {
        index,
        ..
    } && index == pieces[k]->Open_index) by {
        if pieces[j] is Open {
            assert(pieces[k]->Open_index != pieces[j]->Open_index);
        }
    }
    chat_ends_every_call(st, pieces, k);
    let ends = openai_chat::after_value(read, chat_finish()).1;
    let all = events + ends + seq![EventView::Done];
    let m = n + ends.len();
    let e = EventView::ToolUseEnd { id };
    let p = choose|p: int| 0 <= p < ends.len() && ends[p] == e;
    assert forall|i: int| 0 <= i < n implies #[trigger] all[i] == event_of(pieces, i) by {
        assert(events[i] == event_of(pieces, i));
    }
    assert forall|i: int| n <= i < m implies (#[trigger] all[i]) is ToolUseEnd by {
        assert(all[i] == ends[i - n]);
    }
    assert(all[n + p] == e);
    assert(all[k] == (EventView::ToolUseStart { id, name }));
    assert forall|i: int| k < i < m implies !((#[trigger] all[i]) matches EventView::ToolUseStart {
        id: of,
        ..
    } && of == id) by {
        if i < n && pieces[i] is Open {
            assert(pieces[k]->Open_id != pieces[i]->Open_id);
        }
    }
    lemma_spelled(pieces, all, k, n);
    lemma_spelled_on(all, id, k, n, n + p);
    rounds::a_call_gets_the_arguments_spelled(all, m, id, name, k, n + p);
}

} // verus!
