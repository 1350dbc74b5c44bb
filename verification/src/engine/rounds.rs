//! What a turn makes of the model's answer and of the tools' outputs.

use crate::engine::agent;
use crate::engine::agent::{AgentEventView, CallView, Gathered, OutcomeView, Phase, ProgressView, TurnView};
use crate::engine::types::{BlockView, EventView, MessageView, OutputView, Role, Usage};
use crate::json;
use crate::json::JsonSpec;
use crate::text;
use vstd::prelude::*;
use vstd::string::*;

verus! {

// ---- a round of tools -----------------------------------------------------------------------

/// The turn and the history after the first `n` outcomes of a round.
pub open spec fn after_outcomes(
    t: TurnView,
    messages: Seq<MessageView>,
    outcomes: Seq<OutcomeView>,
    n: int,
) -> (TurnView, Seq<MessageView>)
    decreases n,
{
    if n <= 0 {
        (t, messages)
    } else {
        let (u, ms) = after_outcomes(t, messages, outcomes, n - 1);
        (
            agent::turn_after_outcome(u, outcomes[n - 1]),
            agent::messages_after_outcome(ms, u, outcomes[n - 1]),
        )
    }
}

/// What the model is told of a call: what its tool gave, word for word and with its error flag, or
/// that there is no such tool.
pub open spec fn told(call: CallView, o: OutcomeView) -> BlockView {
    BlockView::ToolResult {
        id: call.id,
        out: match o {
            OutcomeView::Output(out) => out,
            OutcomeView::Unknown => OutputView {
                text: "unknown tool: "@ + call.name,
                is_error: true,
                saved: 0,
            },
            OutcomeView::Interrupted => OutputView {
                text: "interrupted"@,
                is_error: true,
                saved: 0,
            },
        },
    }
}

/// A round of these calls that has just begun.
pub open spec fn round_of(calls: Seq<CallView>) -> TurnView {
    TurnView { phase: Phase::Running, calls, results: seq![] }
}

proof fn lemma_round(
    messages: Seq<MessageView>,
    calls: Seq<CallView>,
    outcomes: Seq<OutcomeView>,
    n: int,
)
    requires
        0 <= n < calls.len(),
        calls.len() == outcomes.len(),
        forall|i: int| 0 <= i < n ==> !((#[trigger] outcomes[i]) is Interrupted),
    ensures
        after_outcomes(round_of(calls), messages, outcomes, n) == (
            TurnView {
                phase: Phase::Running,
                calls,
                results: Seq::new(n as nat, |i: int| told(calls[i], outcomes[i])),
            },
            messages,
        ),
    decreases n,
{
    let results = Seq::new(n as nat, |i: int| told(calls[i], outcomes[i]));
    if n == 0 {
        assert(results =~= seq![]);
    } else {
        lemma_round(messages, calls, outcomes, n - 1);
        let before = Seq::new((n - 1) as nat, |i: int| told(calls[i], outcomes[i]));
        assert(!(outcomes[n - 1] is Interrupted));
        assert(before.push(told(calls[n - 1], outcomes[n - 1])) =~= results);
    }
}

/// The outputs of a round go back to the model: once every call has run, one message joins the
/// history, and the result under each call's id is what that call's tool gave, text and error flag
/// alike. Then the model is asked again.
pub proof fn a_round_feeds_every_output_back(
    messages: Seq<MessageView>,
    calls: Seq<CallView>,
    outcomes: Seq<OutcomeView>,
)
    requires
        calls.len() > 0,
        calls.len() == outcomes.len(),
        forall|i: int| 0 <= i < outcomes.len() ==> !((#[trigger] outcomes[i]) is Interrupted),
    ensures
        ({
            let (t, ms) = after_outcomes(
                round_of(calls),
                messages,
                outcomes,
                outcomes.len() as int,
            );
            &&& t.phase == Phase::Asking
            &&& ms.len() == messages.len() + 1
            &&& ms.drop_last() == messages
            &&& ms.last().role == Role::Tool
            &&& ms.last().content.len() == calls.len()
            &&& forall|i: int|
                0 <= i < calls.len() ==> #[trigger] ms.last().content[i] == told(
                    calls[i],
                    outcomes[i],
                )
        }),
{
    let n = calls.len() as int;
    lemma_round(messages, calls, outcomes, n - 1);
    let before = Seq::new((n - 1) as nat, |i: int| told(calls[i], outcomes[i]));
    let all = Seq::new(n as nat, |i: int| told(calls[i], outcomes[i]));
    assert(!(outcomes[n - 1] is Interrupted));
    assert(before.push(told(calls[n - 1], outcomes[n - 1])) =~= all);
    let (t, ms) = after_outcomes(round_of(calls), messages, outcomes, n);
    assert(ms == messages.push(MessageView { role: Role::Tool, content: all }));
    assert(ms.drop_last() =~= messages);
}

proof fn lemma_filled(results: Seq<BlockView>, calls: Seq<CallView>, n: int)
    requires
        0 <= results.len() <= n <= calls.len(),
    ensures
        agent::results_filled(results, calls, n) == Seq::new(
            n as nat,
            |i: int|
                if i < results.len() {
                    results[i]
                } else {
                    told(calls[i], OutcomeView::Interrupted)
                },
        ),
    decreases n,
{
    let want = Seq::new(
        n as nat,
        |i: int|
            if i < results.len() {
                results[i]
            } else {
                told(calls[i], OutcomeView::Interrupted)
            },
    );
    if n > results.len() {
        lemma_filled(results, calls, n - 1);
        assert(agent::results_filled(results, calls, n) =~= want);
    } else {
        assert(want =~= results);
    }
}

/// An interrupted round keeps what was given before, tells the model that the call which ran and
/// every later one were interrupted, and ends the turn.
pub proof fn an_interrupted_round_keeps_what_was_given(
    messages: Seq<MessageView>,
    calls: Seq<CallView>,
    outcomes: Seq<OutcomeView>,
    n: int,
)
    requires
        0 <= n < calls.len(),
        calls.len() == outcomes.len(),
        forall|i: int| 0 <= i < n ==> !((#[trigger] outcomes[i]) is Interrupted),
        outcomes[n] is Interrupted,
    ensures
        ({
            let (t, ms) = after_outcomes(round_of(calls), messages, outcomes, n + 1);
            &&& t.phase == Phase::Over
            &&& ms.len() == messages.len() + 1
            &&& ms.drop_last() == messages
            &&& ms.last().role == Role::Tool
            &&& ms.last().content.len() == calls.len()
            &&& forall|i: int|
                0 <= i < calls.len() ==> #[trigger] ms.last().content[i] == told(
                    calls[i],
                    if i < n {
                        outcomes[i]
                    } else {
                        OutcomeView::Interrupted
                    },
                )
        }),
{
    lemma_round(messages, calls, outcomes, n);
    let given = Seq::new(n as nat, |i: int| told(calls[i], outcomes[i])).push(
        told(calls[n], OutcomeView::Interrupted),
    );
    lemma_filled(given, calls, calls.len() as int);
    let all = agent::results_filled(given, calls, calls.len() as int);
    let (t, ms) = after_outcomes(round_of(calls), messages, outcomes, n + 1);
    assert(ms == messages.push(MessageView { role: Role::Tool, content: all }));
    assert(ms.drop_last() =~= messages);
    assert(all.len() == calls.len());
}

/// The user is shown the output that the model is told, under the name and the id of the call that
/// ran.
pub proof fn the_shown_output_is_the_one_told(
    messages: Seq<MessageView>,
    calls: Seq<CallView>,
    outcomes: Seq<OutcomeView>,
    n: int,
)
    requires
        0 <= n < calls.len(),
        calls.len() == outcomes.len(),
        forall|i: int| 0 <= i < n ==> !((#[trigger] outcomes[i]) is Interrupted),
    ensures
        ({
            let (t, _) = after_outcomes(round_of(calls), messages, outcomes, n);
            let shown = agent::outcome_events(t, outcomes[n]);
            &&& shown.len() > 0
            &&& shown[0] matches AgentEventView::ToolFinished { id, name, output }
            &&& id == calls[n].id
            &&& name == calls[n].name
            &&& told(calls[n], outcomes[n]) == (BlockView::ToolResult { id, out: output })
        }),
{
    lemma_round(messages, calls, outcomes, n);
}

// ---- the model's answer ---------------------------------------------------------------------

/// The calls that a message's blocks are, in order.
pub open spec fn calls_of(content: Seq<BlockView>) -> Seq<CallView> {
    content.filter(|b: BlockView| b is ToolUse).map_values(
        |b: BlockView|
            match b {
                BlockView::ToolUse { id, name, input } => CallView { id, name, input },
                _ => arbitrary(),
            },
    )
}

proof fn lemma_calls_of(content: Seq<BlockView>, n: int)
    requires
        0 <= n <= content.len(),
    ensures
        agent::calls_in(content, n) == calls_of(content.take(n)),
    decreases n,
{
    reveal(Seq::filter);
    if n > 0 {
        lemma_calls_of(content, n - 1);
        assert(content.take(n).drop_last() =~= content.take(n - 1));
        assert(agent::calls_in(content, n) =~= calls_of(content.take(n)));
    } else {
        assert(calls_of(content.take(0)) =~= seq![]);
    }
}

/// An answer that asks for tools starts a round of just those calls, with their names, ids and
/// inputs, in the order in which they stand; it joins the history as it is.
pub proof fn an_answer_runs_the_calls_it_holds(m: MessageView)
    requires
        calls_of(m.content).len() > 0,
    ensures
        agent::response_counted(m) == m,
        agent::turn_after_response(m) == round_of(calls_of(m.content)),
{
    lemma_calls_of(m.content, m.content.len() as int);
    assert(m.content.take(m.content.len() as int) =~= m.content);
}

/// A turn goes on exactly as long as the answer that counts holds a call.
pub proof fn a_turn_ends_when_nothing_is_asked(m: MessageView)
    ensures
        ({
            let calls = calls_of(agent::response_counted(m).content);
            if calls.len() == 0 {
                agent::turn_after_response(m).phase == Phase::Over
            } else {
                agent::turn_after_response(m) == round_of(calls)
            }
        }),
{
    let content = agent::response_counted(m).content;
    lemma_calls_of(content, content.len() as int);
    assert(content.take(content.len() as int) =~= content);
}

/// A turn that ends tells its usage last, and before that an error exactly where the answer holds no
/// word of text.
pub proof fn the_end_of_a_turn_is_told(content: Seq<BlockView>, usage: Usage)
    ensures
        ({
            let told = agent::closing_events(content, usage);
            &&& told.last() == (AgentEventView::TurnComplete { usage })
            &&& told.len() == if exists|i: int|
                0 <= i < content.len() && ((#[trigger] content[i]) matches BlockView::Text { text }
                    && text.len() > 0) {
                1
            } else {
                2int
            }
            &&& told.len() == 2 ==> told[0] is Error
        }),
{
}


// ---- assembling an answer -------------------------------------------------------------------

/// The names and ids of the calls among a message's blocks, in order.
pub open spec fn opened_in(blocks: Seq<BlockView>) -> Seq<(Seq<char>, Seq<char>)> {
    blocks.filter(|b: BlockView| b is ToolUse).map_values(
        |b: BlockView|
            match b {
                BlockView::ToolUse { id, name, .. } => (id, name),
                _ => arbitrary(),
            },
    )
}

/// The names and ids of the calls that the events open, in order.
pub open spec fn opened_by(events: Seq<EventView>) -> Seq<(Seq<char>, Seq<char>)> {
    events.filter(|e: EventView| e is ToolUseStart).map_values(
        |e: EventView|
            match e {
                EventView::ToolUseStart { id, name } => (id, name),
                _ => arbitrary(),
            },
    )
}

proof fn lemma_opened_push(blocks: Seq<BlockView>, b: BlockView)
    ensures
        opened_in(blocks.push(b)) == (match b {
            BlockView::ToolUse { id, name, .. } => opened_in(blocks).push((id, name)),
            _ => opened_in(blocks),
        }),
{
    reveal(Seq::filter);
    assert(blocks.push(b).drop_last() =~= blocks);
    assert(opened_in(blocks.push(b)) =~= (match b {
        BlockView::ToolUse { id, name, .. } => opened_in(blocks).push((id, name)),
        _ => opened_in(blocks),
    }));
}

proof fn lemma_opened_same(a: Seq<BlockView>, b: Seq<BlockView>)
    requires
        a.len() == b.len(),
        forall|k: int|
            0 <= k < a.len() ==> a[k] == b[k] || ((#[trigger] a[k]) matches BlockView::ToolUse {
                id,
                name,
                ..
            } && b[k] matches BlockView::ToolUse { id: id2, name: name2, .. } && id == id2 && name
                == name2),
    ensures
        opened_in(a) == opened_in(b),
    decreases a.len(),
{
    reveal(Seq::filter);
    if a.len() > 0 {
        let (x, y) = (a.drop_last(), b.drop_last());
        assert forall|k: int| 0 <= k < x.len() implies x[k] == y[k] || ((#[trigger] x[k]) matches
            BlockView::ToolUse { id, name, .. } && y[k] matches BlockView::ToolUse {
            id: id2,
            name: name2,
            ..
        } && id == id2 && name == name2) by {
            assert(x[k] == a[k]);
        }
        lemma_opened_same(x, y);
        assert(x.push(a.last()) =~= a);
        assert(y.push(b.last()) =~= b);
        lemma_opened_push(x, a.last());
        lemma_opened_push(y, b.last());
        assert(a[a.len() - 1] == a.last());
    }
}

proof fn lemma_opened_flushed(g: Gathered)
    ensures
        opened_in(agent::flushed(g)) == opened_in(g.blocks),
{
    let thought = if g.think.len() == 0 {
        g.blocks
    } else {
        g.blocks.push(BlockView::Thinking { text: g.think })
    };
    lemma_opened_push(g.blocks, BlockView::Thinking { text: g.think });
    lemma_opened_push(thought, BlockView::Text { text: g.text });
}

proof fn lemma_opened_after(g: Gathered, ev: EventView)
    requires
        agent::calls_point_inside(g),
    ensures
        agent::calls_point_inside(agent::gathered_after(g, ev)),
        opened_in(agent::gathered_after(g, ev).blocks) == (match ev {
            EventView::ToolUseStart { id, name } => opened_in(g.blocks).push((id, name)),
            _ => opened_in(g.blocks),
        }),
{
    let after = agent::gathered_after(g, ev);
    agent::an_event_adds_its_words(g, ev);
    match ev {
        EventView::ToolUseStart { id, name } => {
            lemma_opened_flushed(g);
            lemma_opened_push(
                agent::flushed(g),
                BlockView::ToolUse { id, name, input: JsonSpec::Null },
            );
        },
        EventView::ToolUseEnd { id } => {
            lemma_opened_same(after.blocks, g.blocks);
        },
        _ => {},
    }
}

/// The response goes on through the first `n` events: none of them ends it.
pub open spec fn goes_on(events: Seq<EventView>, n: int) -> bool {
    forall|i: int|
        0 <= i < n ==> !((#[trigger] events[i]) is Done) && !(events[i] is Error)
}

/// What the first `n` events gather.
pub open spec fn gathered(events: Seq<EventView>, n: int) -> Gathered
    decreases n,
{
    if n <= 0 {
        agent::nothing_gathered()
    } else {
        agent::gathered_after(gathered(events, n - 1), events[n - 1])
    }
}

proof fn lemma_gathered(events: Seq<EventView>, n: int, i: int)
    requires
        0 <= i <= n <= events.len(),
        goes_on(events, n),
        n < events.len() ==> events[n] is Done,
    ensures
        agent::assembled_from(gathered(events, i), events, i) == Ok::<
            (MessageView, Usage),
            Seq<char>,
        >(
            (
                MessageView {
                    role: Role::Assistant,
                    content: agent::flushed(gathered(events, n)),
                },
                gathered(events, n).usage,
            ),
        ),
    decreases n - i,
{
    if i < n {
        assert(!(events[i] is Done) && !(events[i] is Error));
        lemma_gathered(events, n, i + 1);
    }
}

proof fn lemma_opened_by(events: Seq<EventView>, n: int)
    requires
        0 <= n <= events.len(),
    ensures
        agent::calls_point_inside(gathered(events, n)),
        opened_in(gathered(events, n).blocks) == opened_by(events.take(n)),
    decreases n,
{
    reveal(Seq::filter);
    if n > 0 {
        lemma_opened_by(events, n - 1);
        lemma_opened_after(gathered(events, n - 1), events[n - 1]);
        assert(events.take(n).drop_last() =~= events.take(n - 1));
        assert(opened_in(gathered(events, n).blocks) =~= opened_by(events.take(n)));
    } else {
        assert(opened_in(gathered(events, 0).blocks) =~= seq![]);
        assert(opened_by(events.take(0)) =~= seq![]);
    }
}

/// An answer that ends well holds the calls that its events open, each once, under its name and id, in
/// the order in which they were opened.
pub proof fn an_answer_holds_the_calls_opened(events: Seq<EventView>, n: int)
    requires
        0 <= n <= events.len(),
        goes_on(events, n),
        n < events.len() ==> events[n] is Done,
    ensures
        agent::assembled_from(agent::nothing_gathered(), events, 0) matches Ok((m, _)) && m.role
            == Role::Assistant && opened_in(m.content) == opened_by(events.take(n)),
{
    lemma_gathered(events, n, 0);
    lemma_opened_by(events, n);
    lemma_opened_flushed(gathered(events, n));
}

/// The usage of an answer is the last that its events told, or none.
pub proof fn an_answer_has_the_last_usage(events: Seq<EventView>, n: int, k: int, u: Usage)
    requires
        0 <= k < n <= events.len(),
        goes_on(events, n),
        n < events.len() ==> events[n] is Done,
        events[k] == EventView::Usage(u),
        forall|i: int| k < i < n ==> !((#[trigger] events[i]) is Usage),
    ensures
        agent::assembled_from(agent::nothing_gathered(), events, 0) matches Ok((_, told)) && told
            == u,
{
    lemma_gathered(events, n, 0);
    lemma_usage(events, k, n, u);
}

proof fn lemma_usage(events: Seq<EventView>, k: int, n: int, u: Usage)
    requires
        0 <= k < n <= events.len(),
        events[k] == EventView::Usage(u),
        forall|i: int| k < i < n ==> !((#[trigger] events[i]) is Usage),
    ensures
        gathered(events, n).usage == u,
    decreases n,
{
    if n > k + 1 {
        lemma_usage(events, k, n - 1, u);
        assert(!(events[n - 1] is Usage));
    }
}

/// A response that breaks off gives its error and no message.
pub proof fn a_broken_answer_is_refused(events: Seq<EventView>, n: int, e: Seq<char>)
    requires
        0 <= n < events.len(),
        goes_on(events, n),
        events[n] == EventView::Error(e),
    ensures
        agent::assembled_from(agent::nothing_gathered(), events, 0) == Err::<
            (MessageView, Usage),
            Seq<char>,
        >(e),
{
    lemma_broken(events, n, 0, e);
}

proof fn lemma_broken(events: Seq<EventView>, n: int, i: int, e: Seq<char>)
    requires
        0 <= i <= n < events.len(),
        goes_on(events, n),
        events[n] == EventView::Error(e),
    ensures
        agent::assembled_from(gathered(events, i), events, i) == Err::<
            (MessageView, Usage),
            Seq<char>,
        >(e),
    decreases n - i,
{
    if i < n {
        assert(!(events[i] is Done) && !(events[i] is Error));
        lemma_broken(events, n, i + 1, e);
    }
}

/// The fragments of a call's arguments among `events[from..n]`, one after the other.
pub open spec fn spelled(events: Seq<EventView>, id: Seq<char>, from: int, n: int) -> Seq<char>
    decreases n - from,
{
    if n <= from {
        seq![]
    } else {
        match events[n - 1] {
            EventView::ToolInputDelta { id: of, json } if of == id => spelled(
                events,
                id,
                from,
                n - 1,
            ) + json,
            _ => spelled(events, id, from, n - 1),
        }
    }
}

/// Every open call points at a block of its own id.
spec fn points_at_itself(g: Gathered) -> bool {
    forall|id: Seq<char>|
        g.calls.dom().contains(id) ==> 0 <= (#[trigger] g.calls[id]).0 < g.blocks.len()
            && g.blocks[g.calls[id].0] is ToolUse && g.blocks[g.calls[id].0]->ToolUse_id == id
}

proof fn lemma_points(g: Gathered, ev: EventView)
    requires
        points_at_itself(g),
    ensures
        points_at_itself(agent::gathered_after(g, ev)),
        forall|k: int|
            0 <= k < g.blocks.len() ==> (#[trigger] agent::gathered_after(g, ev).blocks[k]
                == g.blocks[k] || (ev matches EventView::ToolUseEnd { id } && g.calls.dom().contains(
                id,
            ) && g.calls[id].0 == k)),
        agent::gathered_after(g, ev).blocks.len() >= g.blocks.len(),
{
    let after = agent::gathered_after(g, ev);
    match ev {
        EventView::ToolUseStart { id, name } => {
            let f = agent::flushed(g);
            assert forall|k: int| 0 <= k < g.blocks.len() implies f[k] == g.blocks[k] by {}
            assert forall|i: Seq<char>| after.calls.dom().contains(i) implies 0 <= (
            #[trigger] after.calls[i]).0 < after.blocks.len() && after.blocks[after.calls[i].0]
                is ToolUse && after.blocks[after.calls[i].0]->ToolUse_id == i by {
                if i != id {
                    assert(after.calls[i] == g.calls[i]);
                }
            }
        },
        EventView::ToolInputDelta { id, json } => {
            assert forall|i: Seq<char>| after.calls.dom().contains(i) implies 0 <= (
            #[trigger] after.calls[i]).0 < after.blocks.len() && after.blocks[after.calls[i].0]
                is ToolUse && after.blocks[after.calls[i].0]->ToolUse_id == i by {
                assert(g.calls.dom().contains(i));
                assert(after.calls[i].0 == g.calls[i].0);
            }
        },
        EventView::ToolUseEnd { id } => {
            assert forall|i: Seq<char>| after.calls.dom().contains(i) implies 0 <= (
            #[trigger] after.calls[i]).0 < after.blocks.len() && after.blocks[after.calls[i].0]
                is ToolUse && after.blocks[after.calls[i].0]->ToolUse_id == i by {
                assert(after.calls[i] == g.calls[i]);
            }
        },
        _ => {
            assert(after.calls == g.calls);
            assert(after.blocks == g.blocks);
        },
    }
}

proof fn lemma_points_all(events: Seq<EventView>, n: int)
    requires
        0 <= n <= events.len(),
    ensures
        points_at_itself(gathered(events, n)),
    decreases n,
{
    if n > 0 {
        lemma_points_all(events, n - 1);
        lemma_points(gathered(events, n - 1), events[n - 1]);
    }
}

/// While its fragments come, a call keeps its block and gathers its arguments.
proof fn lemma_spelling(events: Seq<EventView>, id: Seq<char>, name: Seq<char>, i: int, n: int)
    requires
        0 <= i < n <= events.len(),
        events[i] == (EventView::ToolUseStart { id, name }),
        forall|k: int|
            i < k < n ==> !((#[trigger] events[k]) matches EventView::ToolUseStart { id: of, .. }
                && of == id),
    ensures
        ({
            let g = gathered(events, n);
            &&& g.calls.dom().contains(id)
            &&& g.calls[id] == (g.calls[id].0, spelled(events, id, i, n))
            &&& g.calls[id].0 == agent::flushed(gathered(events, i)).len()
            &&& g.calls[id].0 < g.blocks.len()
            &&& g.blocks[g.calls[id].0] matches BlockView::ToolUse { id: of, name: called, .. }
            &&& of == id
            &&& called == name
        }),
    decreases n,
{
    let g = gathered(events, n - 1);
    lemma_points_all(events, n - 1);
    lemma_points_all(events, n);
    if n > i + 1 {
        lemma_spelling(events, id, name, i, n - 1);
        lemma_points(g, events[n - 1]);
        let b = g.calls[id].0;
        let after = gathered(events, n);
        assert(!(events[n - 1] matches EventView::ToolUseStart { id: of, .. } && of == id));
        assert(after.blocks[b] == g.blocks[b] || after.blocks[b] is ToolUse);
    } else {
        assert(spelled(events, id, i, i) =~= seq![]);
        assert(spelled(events, id, i, n) =~= seq![]);
    }
}

/// Once ended, with no more fragments to come, a call keeps its input.
proof fn lemma_ended(
    events: Seq<EventView>,
    id: Seq<char>,
    name: Seq<char>,
    i: int,
    j: int,
    n: int,
)
    requires
        0 <= i < j < n <= events.len(),
        events[i] == (EventView::ToolUseStart { id, name }),
        events[j] == (EventView::ToolUseEnd { id }),
        forall|k: int|
            i < k < n ==> !((#[trigger] events[k]) matches EventView::ToolUseStart { id: of, .. }
                && of == id),
        forall|k: int|
            j < k < n ==> !((#[trigger] events[k]) matches EventView::ToolInputDelta { id: of, .. }
                && of == id),
    ensures
        spelled(events, id, i, n) == spelled(events, id, i, j),
        gathered(events, n).blocks[agent::flushed(gathered(events, i)).len() as int] == (
        BlockView::ToolUse { id, name, input: agent::input_of(spelled(events, id, i, j)) }),
    decreases n,
{
    lemma_spelling(events, id, name, i, n - 1);
    lemma_points_all(events, n - 1);
    let g = gathered(events, n - 1);
    lemma_points(g, events[n - 1]);
    if n > j + 1 {
        lemma_ended(events, id, name, i, j, n - 1);
        assert(!(events[n - 1] matches EventView::ToolInputDelta { id: of, .. } && of == id));
        if let EventView::ToolUseEnd { id: of } = events[n - 1] {
            if of == id {
                assert(g.calls[id].1 == spelled(events, id, i, n - 1));
            } else if g.calls.dom().contains(of) {
                assert(g.blocks[g.calls[of].0]->ToolUse_id == of);
            }
        }
    }
}

/// The message holds each call with the arguments that its fragments spell: where a call is opened
/// once and ended behind its last fragment, its input is the JSON that the fragments make, put one
/// after the other, or null where they make none.
pub proof fn a_call_gets_the_arguments_spelled(
    events: Seq<EventView>,
    n: int,
    id: Seq<char>,
    name: Seq<char>,
    i: int,
    j: int,
)
    requires
        0 <= i < j < n <= events.len(),
        goes_on(events, n),
        n < events.len() ==> events[n] is Done,
        events[i] == (EventView::ToolUseStart { id, name }),
        events[j] == (EventView::ToolUseEnd { id }),
        forall|k: int|
            i < k < n ==> !((#[trigger] events[k]) matches EventView::ToolUseStart { id: of, .. }
                && of == id),
        forall|k: int|
            j < k < n ==> !((#[trigger] events[k]) matches EventView::ToolInputDelta { id: of, .. }
                && of == id),
    ensures
        ({
            let args = spelled(events, id, i, j);
            let said = match json::json_parsed(args) {
                Ok(v) if text::trimmed(args).len() > 0 => v,
                _ => JsonSpec::Null,
            };
            agent::assembled_from(agent::nothing_gathered(), events, 0) matches Ok((m, _))
                && m.content.contains(BlockView::ToolUse { id, name, input: said })
        }),
{
    lemma_gathered(events, n, 0);
    lemma_ended(events, id, name, i, j, n);
    lemma_spelling(events, id, name, i, n);
    let g = gathered(events, n);
    let b = agent::flushed(gathered(events, i)).len() as int;
    let content = agent::flushed(g);
    assert(content[b] == g.blocks[b]);
}

} // verus!
