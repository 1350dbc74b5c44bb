//! What every adapter keeps to when it normalizes a stream: a tool call is opened before anything is
//! said of it, whatever payloads the provider sends.

use crate::engine::types::EventView;
use crate::json;
use crate::json::JsonSpec;
use crate::provider::anthropic_messages;
use crate::provider::anthropic_messages::AnthropicState;
use crate::provider::openai_chat;
use crate::provider::openai_chat::{CallView, ChatState, ChoiceView};
use crate::provider::openai_responses;
use crate::provider::openai_responses::ResponsesState;
use vstd::prelude::*;
use vstd::string::*;

verus! {

/// A call with this id was opened.
pub open spec fn opened(events: Seq<EventView>, id: Seq<char>) -> bool {
    exists|i: int|
        0 <= i < events.len() && ((#[trigger] events[i]) matches EventView::ToolUseStart {
            id: of,
            ..
        } && of == id)
}

/// The event may come after `events`: the call that it feeds or ends was opened.
pub open spec fn may_follow(events: Seq<EventView>, ev: EventView) -> bool {
    match ev {
        EventView::ToolInputDelta { id, .. } => opened(events, id),
        EventView::ToolUseEnd { id } => opened(events, id),
        _ => true,
    }
}

/// No call is fed or ended before it is opened.
pub open spec fn in_turn(events: Seq<EventView>) -> bool {
    forall|k: int| 0 <= k < events.len() ==> may_follow(events.take(k), #[trigger] events[k])
}

proof fn lemma_opened_stays(events: Seq<EventView>, more: Seq<EventView>, id: Seq<char>)
    requires
        opened(events, id),
    ensures
        opened(events + more, id),
{
    let i = choose|i: int|
        0 <= i < events.len() && ((#[trigger] events[i]) matches EventView::ToolUseStart {
            id: of,
            ..
        } && of == id);
    assert((events + more)[i] == events[i]);
}

proof fn lemma_follow(events: Seq<EventView>, ev: EventView)
    requires
        in_turn(events),
        may_follow(events, ev),
    ensures
        in_turn(events.push(ev)),
{
    let all = events.push(ev);
    assert forall|k: int| 0 <= k < all.len() implies may_follow(
        all.take(k),
        #[trigger] all[k],
    ) by {
        if k < events.len() {
            assert(all[k] == events[k]);
            assert(all.take(k) =~= events.take(k));
        } else {
            assert(all.take(k) =~= events);
        }
    }
}

/// A single event more.
proof fn lemma_one(history: Seq<EventView>, ev: EventView)
    requires
        in_turn(history),
        may_follow(history, ev),
    ensures
        in_turn(history + seq![ev]),
        forall|id: Seq<char>| opened(history, id) ==> #[trigger] opened(history + seq![ev], id),
        ev matches EventView::ToolUseStart { id, .. } ==> opened(history + seq![ev], id),
{
    lemma_follow(history, ev);
    let all = history + seq![ev];
    assert(all =~= history.push(ev));
    assert forall|id: Seq<char>| opened(history, id) implies #[trigger] opened(all, id) by {
        lemma_opened_stays(history, seq![ev], id);
    }
    assert(all[history.len() as int] == ev);
}

// ---- messages -------------------------------------------------------------------------------

/// Every call that the parser remembers was opened.
pub open spec fn messages_knows(st: AnthropicState, history: Seq<EventView>) -> bool {
    forall|index: u64|
        st.tool_ids.dom().contains(index) ==> opened(history, #[trigger] st.tool_ids[index])
}

/// Whatever payload comes next, the Messages parser opens a call before it feeds or ends it.
pub proof fn messages_calls_open_first(st: AnthropicState, history: Seq<EventView>, data: Seq<char>)
    requires
        in_turn(history),
        messages_knows(st, history),
    ensures
        in_turn(history + anthropic_messages::after_payload(st, data).1),
        messages_knows(
            anthropic_messages::after_payload(st, data).0,
            history + anthropic_messages::after_payload(st, data).1,
        ),
{
    let (next, events) = anthropic_messages::after_payload(st, data);
    if events.len() == 0 {
        assert(history + events =~= history);
    } else if events.len() == 1 {
        assert(events =~= seq![events[0]]);
        lemma_one(history, events[0]);
    } else {
        assert(events.len() == 2);
        let mid = history + seq![events[0]];
        lemma_one(history, events[0]);
        lemma_one(mid, events[1]);
        assert(history + events =~= mid + seq![events[1]]);
    }
}

// ---- responses ------------------------------------------------------------------------------

/// Every call that the parser remembers was opened.
pub open spec fn responses_knows(st: ResponsesState, history: Seq<EventView>) -> bool {
    forall|item: Seq<char>|
        st.call_ids.dom().contains(item) ==> opened(history, #[trigger] st.call_ids[item])
}

/// Whatever payload comes next, the Responses parser opens a call before it feeds or ends it.
pub proof fn responses_calls_open_first(
    st: ResponsesState,
    history: Seq<EventView>,
    data: Seq<char>,
)
    requires
        in_turn(history),
        responses_knows(st, history),
    ensures
        in_turn(history + openai_responses::after_payload(st, data).1),
        responses_knows(
            openai_responses::after_payload(st, data).0,
            history + openai_responses::after_payload(st, data).1,
        ),
{
    let (next, events) = openai_responses::after_payload(st, data);
    if events.len() == 0 {
        assert(history + events =~= history);
    } else if events.len() == 1 {
        assert(events =~= seq![events[0]]);
        lemma_one(history, events[0]);
    } else {
        assert(events.len() == 2);
        let mid = history + seq![events[0]];
        lemma_one(history, events[0]);
        lemma_one(mid, events[1]);
        assert(history + events =~= mid + seq![events[1]]);
    }
}

// ---- chat -----------------------------------------------------------------------------------

/// Every call that the parser remembers was opened.
pub open spec fn chat_knows(st: ChatState, history: Seq<EventView>) -> bool {
    forall|index: u64| st.ids.dom().contains(index) ==> opened(history, #[trigger] st.ids[index])
}

proof fn lemma_chat_call(st: ChatState, history: Seq<EventView>, c: CallView)
    requires
        in_turn(history),
        chat_knows(st, history),
    ensures
        in_turn(history + openai_chat::after_call(st, c).1),
        chat_knows(
            openai_chat::after_call(st, c).0,
            history + openai_chat::after_call(st, c).1,
        ),
{
    let (next, events) = openai_chat::after_call(st, c);
    let first = if c.id is Some {
        seq![events[0]]
    } else {
        seq![]
    };
    let mid = history + first;
    if c.id is Some {
        lemma_one(history, events[0]);
    } else {
        assert(mid =~= history);
    }
    assert(chat_knows(next, mid));
    if events.len() == first.len() {
        assert(events =~= first);
    } else {
        let last = events[first.len() as int];
        lemma_one(mid, last);
        assert(events =~= first + seq![last]);
        assert(history + events =~= mid + seq![last]);
    }
}

proof fn lemma_chat_calls(st: ChatState, history: Seq<EventView>, calls: Seq<CallView>, n: int)
    requires
        0 <= n <= calls.len(),
        in_turn(history),
        chat_knows(st, history),
    ensures
        in_turn(history + openai_chat::after_calls(st, calls, n).1),
        chat_knows(
            openai_chat::after_calls(st, calls, n).0,
            history + openai_chat::after_calls(st, calls, n).1,
        ),
    decreases n,
{
    if n > 0 {
        lemma_chat_calls(st, history, calls, n - 1);
        let (mid, events) = openai_chat::after_calls(st, calls, n - 1);
        lemma_chat_call(mid, history + events, calls[n - 1]);
        let more = openai_chat::after_call(mid, calls[n - 1]).1;
        assert(history + (events + more) =~= history + events + more);
    } else {
        assert(history + openai_chat::after_calls(st, calls, n).1 =~= history);
    }
}

proof fn lemma_chat_closing(st: ChatState, history: Seq<EventView>, n: int)
    requires
        0 <= n <= st.order.len(),
        in_turn(history),
        chat_knows(st, history),
    ensures
        in_turn(history + openai_chat::closing(st.ids, st.order, n)),
        chat_knows(st, history + openai_chat::closing(st.ids, st.order, n)),
    decreases n,
{
    if n > 0 {
        lemma_chat_closing(st, history, n - 1);
        let before = openai_chat::closing(st.ids, st.order, n - 1);
        if st.ids.dom().contains(st.order[n - 1]) {
            let ev = EventView::ToolUseEnd { id: st.ids[st.order[n - 1]] };
            lemma_one(history + before, ev);
            assert(history + before.push(ev) =~= history + before + seq![ev]);
        }
    } else {
        assert(history + openai_chat::closing(st.ids, st.order, n) =~= history);
    }
}

proof fn lemma_chat_choice(st: ChatState, history: Seq<EventView>, c: ChoiceView)
    requires
        in_turn(history),
        chat_knows(st, history),
    ensures
        in_turn(history + openai_chat::after_choice(st, c).1),
        chat_knows(
            openai_chat::after_choice(st, c).0,
            history + openai_chat::after_choice(st, c).1,
        ),
{
    let said = match c.content {
        Some(t) => if t.len() > 0 {
            seq![EventView::TextDelta(t)]
        } else {
            seq![]
        },
        None => seq![],
    };
    let spoken = history + said;
    if said.len() > 0 {
        assert(said =~= seq![said[0]]);
        lemma_one(history, said[0]);
    } else {
        assert(spoken =~= history);
    }
    let n = c.tool_calls.len() as int;
    lemma_chat_calls(st, spoken, c.tool_calls, n);
    let (next, called) = openai_chat::after_calls(st, c.tool_calls, n);
    let events = openai_chat::after_choice(st, c).1;
    if c.finish_reason == Some("tool_calls"@) {
        lemma_chat_closing(next, spoken + called, next.order.len() as int);
        let closed = openai_chat::closing(next.ids, next.order, next.order.len() as int);
        assert(history + events =~= spoken + called + closed);
    } else {
        assert(history + events =~= spoken + called);
    }
}

proof fn lemma_chat_choices(
    st: ChatState,
    history: Seq<EventView>,
    choices: Seq<ChoiceView>,
    n: int,
)
    requires
        0 <= n <= choices.len(),
        in_turn(history),
        chat_knows(st, history),
    ensures
        in_turn(history + openai_chat::after_choices(st, choices, n).1),
        chat_knows(
            openai_chat::after_choices(st, choices, n).0,
            history + openai_chat::after_choices(st, choices, n).1,
        ),
    decreases n,
{
    if n > 0 {
        lemma_chat_choices(st, history, choices, n - 1);
        let (mid, events) = openai_chat::after_choices(st, choices, n - 1);
        lemma_chat_choice(mid, history + events, choices[n - 1]);
        let more = openai_chat::after_choice(mid, choices[n - 1]).1;
        assert(history + (events + more) =~= history + events + more);
    } else {
        assert(history + openai_chat::after_choices(st, choices, n).1 =~= history);
    }
}

proof fn lemma_chat_value(st: ChatState, history: Seq<EventView>, v: JsonSpec)
    requires
        in_turn(history),
        chat_knows(st, history),
    ensures
        in_turn(history + openai_chat::after_value(st, v).1),
        chat_knows(
            openai_chat::after_value(st, v).0,
            history + openai_chat::after_value(st, v).1,
        ),
{
    let all = openai_chat::after_value(st, v).1;
    if json::field(v, "error"@) is Some {
        lemma_one(history, all[0]);
        assert(all =~= seq![all[0]]);
    } else {
        let chunk = openai_chat::chunk_of(v);
        let n = chunk.choices.len() as int;
        lemma_chat_choices(st, history, chunk.choices, n);
        let (next, events) = openai_chat::after_choices(st, chunk.choices, n);
        if chunk.usage is Some {
            let counted = all.last();
            lemma_one(history + events, counted);
            assert(history + all =~= history + events + seq![counted]);
        } else {
            assert(all =~= events);
        }
    }
}

/// Whatever payload comes next, the Chat Completions parser opens a call before it feeds or ends it.
pub proof fn chat_calls_open_first(st: ChatState, history: Seq<EventView>, data: Seq<char>)
    requires
        in_turn(history),
        chat_knows(st, history),
    ensures
        in_turn(history + openai_chat::after_payload(st, data).1),
        chat_knows(
            openai_chat::after_payload(st, data).0,
            history + openai_chat::after_payload(st, data).1,
        ),
{
    let t = crate::text::trimmed(data);
    let all = openai_chat::after_payload(st, data).1;
    if t == "[DONE]"@ {
        lemma_one(history, EventView::Done);
        assert(all =~= seq![EventView::Done]);
    } else {
        match json::json_parsed(t) {
            Ok(v) => {
                lemma_chat_value(st, history, v);
            },
            Err(_) => {
                assert(history + all =~= history);
            },
        }
    }
}

} // verus!
