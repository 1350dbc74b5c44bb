//! What a payload of a stream does, whatever it holds.

use crate::engine::types::{EventView, Usage};
use crate::json;
use crate::json::JsonSpec;
use crate::provider::anthropic_messages;
use crate::provider::anthropic_messages::AnthropicState;
use crate::provider::openai_chat;
use crate::provider::openai_chat::{CallView, ChatState, ChoiceView, ChunkView};
use crate::provider::openai_responses;
use crate::provider::openai_responses::ResponsesState;
use crate::text;
use crate::text_laws;
use vstd::prelude::*;
use vstd::string::*;

verus! {

// ---- from text to events --------------------------------------------------------------------

/// A chat stream is over with its mark, whatever space is around it, and not before. A payload that is
/// JSON is read; one that is neither does nothing.
pub proof fn a_chat_payload_is_read(
    st: ChatState,
    lead: Seq<char>,
    data: Seq<char>,
    trail: Seq<char>,
)
    requires
        text_laws::blank(lead),
        text_laws::blank(trail),
        data.len() > 0,
        !text::is_ws(data[0]) && !text::is_ws(data.last()),
    ensures
        ({
            let after = openai_chat::after_payload(st, lead + data + trail);
            &&& data == seq!['[', 'D', 'O', 'N', 'E', ']'] ==> after == (
                st,
                seq![EventView::Done],
            )
            &&& data != seq!['[', 'D', 'O', 'N', 'E', ']'] ==> {
                &&& json::json_parsed(data) matches Ok(v) ==> after == openai_chat::after_value(
                    st,
                    v,
                )
                &&& json::json_parsed(data) is Err ==> after == (st, Seq::<EventView>::empty())
            }
        }),
{
    text_laws::trimming_finds_the_text(lead, data, trail);
    reveal_strlit("[DONE]");
    assert("[DONE]"@ =~= seq!['[', 'D', 'O', 'N', 'E', ']']);
}

/// A payload of a Messages or Responses stream is read as JSON; one that is not does nothing.
pub proof fn other_payloads_are_read(a: AnthropicState, r: ResponsesState, data: Seq<char>)
    ensures
        json::json_parsed(data) matches Ok(v) ==> {
            &&& anthropic_messages::after_payload(a, data) == anthropic_messages::after_value(a, v)
            &&& openai_responses::after_payload(r, data) == openai_responses::after_value(r, v)
        },
        json::json_parsed(data) is Err ==> {
            &&& anthropic_messages::after_payload(a, data) == (a, Seq::<EventView>::empty())
            &&& openai_responses::after_payload(r, data) == (r, Seq::<EventView>::empty())
        },
{
}

// ---- failures -------------------------------------------------------------------------------

/// A failure that comes in the stream is told with the provider's own words.
pub proof fn a_chat_failure_is_told(st: ChatState, v: JsonSpec, error: JsonSpec, message: Seq<char>)
    requires
        json::field(v, "error"@) == Some(error),
        json::string_field(error, "message"@) == Some(message),
    ensures
        openai_chat::after_value(st, v) == (st, seq![EventView::Error(message)]),
{
}

/// A response that failed is told of with the provider's own words.
pub proof fn a_failed_response_is_told(st: ResponsesState, v: JsonSpec, message: Seq<char>)
    requires
        json::string_field(v, "type"@) == Some("response.failed"@),
        json::string_field(
            json::field_or_null(json::field_or_null(v, "response"@), "error"@),
            "message"@,
        ) == Some(message),
    ensures
        openai_responses::after_value(st, v) == (st, seq![EventView::Error(message)]),
{
    reveal_strlit("response.failed");
    reveal_strlit("response.output_text.delta");
    reveal_strlit("response.reasoning_summary_text.delta");
    reveal_strlit("response.reasoning_text.delta");
    reveal_strlit("response.output_item.added");
    reveal_strlit("response.function_call_arguments.delta");
    reveal_strlit("response.output_item.done");
    reveal_strlit("response.completed");
    reveal_strlit("response.incomplete");
    assert("response.failed"@.len() == 15 && "response.output_text.delta"@.len() == 26);
    assert("response.reasoning_summary_text.delta"@.len() == 37);
    assert("response.reasoning_text.delta"@.len() == 29);
    assert("response.output_item.added"@.len() == 26);
    assert("response.function_call_arguments.delta"@.len() == 38);
    assert("response.output_item.done"@.len() == 25);
    assert("response.completed"@.len() == 18 && "response.incomplete"@.len() == 19);
}

/// What is shown of a refused request is the reason that the provider gives, up to four hundred
/// characters of it; without one it is the body of the answer.
pub proof fn the_reason_given_is_shown(v: JsonSpec, reason: Seq<char>, body: Seq<char>)
    requires
        reason.len() > 0,
        json::string_field(json::field_or_null(v, "error"@), "message"@) == Some(reason),
    ensures
        reason.len() <= 400 ==> openai_chat::reason_of(Some(v), body) == reason,
        reason.len() > 400 ==> openai_chat::reason_of(Some(v), body) == reason.take(400),
        0 < text::trimmed(body).len() <= 400 ==> openai_chat::reason_of(None, body)
            == text::trimmed(body),
{
    if reason.len() > 400 {
        assert(text::first_chars(reason, 400) =~= reason.take(400));
    }
}

// ---- chunks ---------------------------------------------------------------------------------

proof fn lemma_calls_join(st: ChatState, a: Seq<CallView>, b: Seq<CallView>, n: int)
    requires
        0 <= n <= b.len(),
    ensures
        ({
            let (mid, first) = openai_chat::after_calls(st, a, a.len() as int);
            let (end, second) = openai_chat::after_calls(mid, b, n);
            openai_chat::after_calls(st, a + b, a.len() + n) == (end, first + second)
        }),
    decreases n,
{
    let (mid, first) = openai_chat::after_calls(st, a, a.len() as int);
    if n > 0 {
        lemma_calls_join(st, a, b, n - 1);
        assert((a + b)[a.len() + n - 1] == b[n - 1]);
        let (_, before) = openai_chat::after_calls(mid, b, n - 1);
        let (_, second) = openai_chat::after_calls(mid, b, n);
        assert(openai_chat::after_calls(st, a + b, a.len() + n).1 =~= first + second);
    } else {
        lemma_calls_prefix(st, a + b, a, a.len() as int);
        assert(first + Seq::<EventView>::empty() =~= first);
    }
}

proof fn lemma_calls_prefix(st: ChatState, a: Seq<CallView>, b: Seq<CallView>, n: int)
    requires
        0 <= n <= a.len(),
        n <= b.len(),
        forall|i: int| 0 <= i < n ==> a[i] == b[i],
    ensures
        openai_chat::after_calls(st, a, n) == openai_chat::after_calls(st, b, n),
    decreases n,
{
    if n > 0 {
        lemma_calls_prefix(st, a, b, n - 1);
    }
}

/// A choice that holds several things does them one after the other: its text, then its fragments of
/// calls in order. It makes no difference whether they come in one choice or in several.
pub proof fn a_choice_does_all_it_holds(
    st: ChatState,
    said: Seq<char>,
    a: Seq<CallView>,
    b: Seq<CallView>,
)
    requires
        said.len() > 0,
    ensures
        ({
            let whole = openai_chat::after_choice(
                st,
                ChoiceView { content: Some(said), tool_calls: a + b, finish_reason: None },
            );
            let one = openai_chat::after_choice(
                st,
                ChoiceView { content: None, tool_calls: a, finish_reason: None },
            );
            let two = openai_chat::after_choice(
                one.0,
                ChoiceView { content: None, tool_calls: b, finish_reason: None },
            );
            &&& whole.0 == two.0
            &&& whole.1 == seq![EventView::TextDelta(said)] + one.1 + two.1
        }),
{
    lemma_calls_join(st, a, b, b.len() as int);
    let (mid, first) = openai_chat::after_calls(st, a, a.len() as int);
    let (end, second) = openai_chat::after_calls(mid, b, b.len() as int);
    let none = Seq::<EventView>::empty();
    assert(none + first + none =~= first);
    assert(none + second + none =~= second);
    assert(seq![EventView::TextDelta(said)] + (first + second) + none =~= seq![
        EventView::TextDelta(said),
    ] + first + second);
}

/// A chunk with several choices does them one after the other, and tells the usage behind them.
pub proof fn a_chunk_does_all_its_choices(
    st: ChatState,
    a: ChoiceView,
    b: ChoiceView,
    given: u64,
    made: u64,
)
    ensures
        ({
            let whole = openai_chat::after_chunk(
                st,
                ChunkView { choices: seq![a, b], usage: Some((given, made)) },
            );
            let one = openai_chat::after_choice(st, a);
            let two = openai_chat::after_choice(one.0, b);
            &&& whole.0 == two.0
            &&& whole.1 == one.1 + two.1 + seq![
                EventView::Usage(
                    Usage {
                        input_tokens: given,
                        output_tokens: made,
                        cache_read: 0,
                        cache_write: 0,
                    },
                ),
            ]
        }),
{
    reveal_with_fuel(openai_chat::after_choices, 3);
    let one = openai_chat::after_choice(st, a);
    assert(Seq::<EventView>::empty() + one.1 =~= one.1);
}

} // verus!
