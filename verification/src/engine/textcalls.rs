//! What is recovered of tool calls that a model wrote out as text.

use crate::engine::toolcall_text;
use crate::engine::toolcall_text::TextCallView;
use crate::engine::types::BlockView;
use crate::json;
use crate::json::JsonSpec;
use crate::text;
use vstd::prelude::*;
use vstd::string::*;

verus! {

// ---- a text with calls in it ----------------------------------------------------------------

/// A call between its marks, and the prose in front of it.
pub struct Written {
    pub prose: Seq<char>,
    pub inner: Seq<char>,
}

/// The text holds none of this character.
pub open spec fn without(s: Seq<char>, c: char) -> bool {
    forall|i: int| 0 <= i < s.len() ==> #[trigger] s[i] != c
}

/// The prose and the calls as they are written, each call between `open` and `close`, and what follows
/// the last.
pub open spec fn written(
    calls: Seq<Written>,
    tail: Seq<char>,
    open: Seq<char>,
    close: Seq<char>,
) -> Seq<char>
    decreases calls.len(),
{
    if calls.len() == 0 {
        tail
    } else {
        calls[0].prose + open + calls[0].inner + close + written(
            calls.drop_first(),
            tail,
            open,
            close,
        )
    }
}

/// The prose alone.
pub open spec fn prose_of(calls: Seq<Written>, tail: Seq<char>) -> Seq<char>
    decreases calls.len(),
{
    if calls.len() == 0 {
        tail
    } else {
        calls[0].prose + prose_of(calls.drop_first(), tail)
    }
}

/// What the calls alone mean, in order.
pub open spec fn calls_of(calls: Seq<Written>) -> Seq<TextCallView>
    decreases calls.len(),
{
    if calls.len() == 0 {
        seq![]
    } else {
        (match toolcall_text::tagged_call(calls[0].inner) {
            Some(c) => seq![c],
            None => seq![],
        }) + calls_of(calls.drop_first())
    }
}

/// The prose and the calls hold none of this character.
pub open spec fn all_without(calls: Seq<Written>, tail: Seq<char>, c: char) -> bool {
    &&& without(tail, c)
    &&& forall|i: int|
        0 <= i < calls.len() ==> without((#[trigger] calls[i]).prose, c) && without(calls[i].inner, c)
}

proof fn lemma_found_at(s: Seq<char>, a: Seq<char>, p: Seq<char>, b: Seq<char>, i: int)
    requires
        s == a + p + b,
        p.len() > 0,
        0 <= i <= a.len(),
        forall|k: int| i <= k < a.len() ==> #[trigger] a[k] != p[0],
    ensures
        text::found_from(s, p, i) == Some(a.len() as int),
{
    text::lemma_found_from(s, p, i);
    let at = a.len() as int;
    assert(s.subrange(at, at + p.len()) =~= p);
    assert(text::occurs_at(s, p, at));
    if let Some(k) = text::found_from(s, p, i) {
        if k < at {
            assert(s.subrange(k, k + p.len())[0] == p[0]);
            assert(s[k] == a[k]);
        }
    }
}

proof fn lemma_untagged(calls: Seq<Written>, tail: Seq<char>, open: Seq<char>, close: Seq<char>)
    requires
        open.len() > 0,
        close.len() > 0,
        open[0] == close[0],
        all_without(calls, tail, open[0]),
    ensures
        toolcall_text::untagged(written(calls, tail, open, close), open, close) == (
            prose_of(calls, tail),
            calls_of(calls),
        ),
    decreases calls.len(),
{
    let s = written(calls, tail, open, close);
    let f = open[0];
    if calls.len() == 0 {
        text::lemma_found_from(s, open, 0);
        if let Some(k) = text::found(s, open) {
            assert(s.subrange(k, k + open.len())[0] == open[0]);
            assert(s[k] == tail[k]);
        }
    } else {
        let first = calls[0];
        let more = calls.drop_first();
        let rest = written(more, tail, open, close);
        assert(without(first.prose, f) && without(first.inner, f));
        assert(s == first.prose + open + first.inner + close + rest);
        assert(s =~= first.prose + open + (first.inner + close + rest));
        lemma_found_at(s, first.prose, open, first.inner + close + rest, 0);
        let start = (first.prose.len() + open.len()) as int;
        let front = first.prose + open + first.inner;
        assert(s =~= front + close + rest);
        assert forall|k: int| start <= k < front.len() implies #[trigger] front[k] != close[0] by {
            assert(front[k] == first.inner[k - start]);
        }
        lemma_found_at(s, front, close, rest, start);
        let c = front.len() as int;
        assert(s.subrange(start, c) =~= first.inner);
        assert(s.subrange(0, first.prose.len() as int) =~= first.prose);
        assert(text::after(s, c + close.len()) =~= rest);
        let joined = first.prose + rest;
        assert forall|i: int| 0 <= i < more.len() implies without((#[trigger] more[i]).prose, f)
            && without(more[i].inner, f) by {
            assert(more[i] == calls[i + 1]);
        }
        if more.len() == 0 {
            let end = first.prose + tail;
            assert(without(end, f)) by {
                assert forall|i: int| 0 <= i < end.len() implies #[trigger] end[i] != f by {
                    if i < first.prose.len() {
                        assert(end[i] == first.prose[i]);
                    } else {
                        assert(end[i] == tail[i - first.prose.len()]);
                    }
                }
            }
            lemma_untagged(seq![], end, open, close);
            assert(written(Seq::<Written>::empty(), end, open, close) == joined);
            assert(calls_of(more) =~= seq![]);
            assert(calls_of(Seq::<Written>::empty()) =~= seq![]);
        } else {
            let second = Written { prose: first.prose + more[0].prose, inner: more[0].inner };
            let merged = more.update(0, second);
            assert(merged.drop_first() =~= more.drop_first());
            assert(written(merged, tail, open, close) =~= joined);
            assert(prose_of(merged, tail) =~= first.prose + prose_of(more, tail));
            assert(calls_of(merged) == calls_of(more));
            assert forall|i: int| 0 <= i < merged.len() implies without(
                (#[trigger] merged[i]).prose,
                f,
            ) && without(merged[i].inner, f) by {
                assert(without(more[i].prose, f) && without(more[i].inner, f));
                if i == 0 {
                    let p = second.prose;
                    assert forall|k: int| 0 <= k < p.len() implies #[trigger] p[k] != f by {
                        if k < first.prose.len() {
                            assert(p[k] == first.prose[k]);
                        } else {
                            assert(p[k] == more[0].prose[k - first.prose.len()]);
                        }
                    }
                }
            }
            lemma_untagged(merged, tail, open, close);
        }
        let (clean, found) = toolcall_text::untagged(joined, open, close);
        assert(clean == first.prose + prose_of(more, tail));
        assert(found == calls_of(more));
    }
}

/// Every call written between a pair of marks is taken out of the text, in order, and the prose around
/// the calls is all that stays of it.
pub proof fn marked_calls_are_taken_out(
    calls: Seq<Written>,
    tail: Seq<char>,
    open: Seq<char>,
    close: Seq<char>,
)
    requires
        open.len() > 0,
        close.len() > 0,
        open[0] == close[0],
        all_without(calls, tail, open[0]),
    ensures
        toolcall_text::untagged(written(calls, tail, open, close), open, close) == (
            prose_of(calls, tail),
            calls_of(calls),
        ),
{
    lemma_untagged(calls, tail, open, close);
}

/// Every `c` in the text is followed by one of the two characters.
spec fn followed(s: Seq<char>, c: char, a: char, b: char) -> bool {
    forall|i: int|
        0 <= i < s.len() && #[trigger] s[i] == c ==> i + 1 < s.len() && (s[i + 1] == a || s[i + 1]
            == b)
}

proof fn lemma_followed(
    calls: Seq<Written>,
    tail: Seq<char>,
    open: Seq<char>,
    close: Seq<char>,
    a: char,
    b: char,
)
    requires
        open.len() > 1,
        close.len() > 1,
        open[0] == close[0],
        open[1] == a,
        close[1] == b,
        forall|i: int| 1 <= i < open.len() ==> #[trigger] open[i] != open[0],
        forall|i: int| 1 <= i < close.len() ==> #[trigger] close[i] != open[0],
        all_without(calls, tail, open[0]),
    ensures
        followed(written(calls, tail, open, close), open[0], a, b),
    decreases calls.len(),
{
    let s = written(calls, tail, open, close);
    let f = open[0];
    if calls.len() == 0 {
        assert forall|i: int| 0 <= i < s.len() && #[trigger] s[i] == f implies i + 1 < s.len() && (
        s[i + 1] == a || s[i + 1] == b) by {
            assert(tail[i] != f);
        }
    } else {
        let first = calls[0];
        let more = calls.drop_first();
        let rest = written(more, tail, open, close);
        assert forall|i: int| 0 <= i < more.len() implies without((#[trigger] more[i]).prose, f)
            && without(more[i].inner, f) by {
            assert(more[i] == calls[i + 1]);
        }
        lemma_followed(more, tail, open, close, a, b);
        assert(without(first.prose, f) && without(first.inner, f));
        let p = first.prose.len() as int;
        let q = p + open.len();
        let r = q + first.inner.len();
        let t = r + close.len();
        assert forall|i: int| 0 <= i < s.len() && #[trigger] s[i] == f implies i + 1 < s.len() && (
        s[i + 1] == a || s[i + 1] == b) by {
            if i < p {
                assert(s[i] == first.prose[i]);
            } else if i < q {
                assert(s[i] == open[i - p]);
                assert(i == p);
                assert(s[i + 1] == open[1]);
            } else if i < r {
                assert(s[i] == first.inner[i - q]);
            } else if i < t {
                assert(s[i] == close[i - r]);
                assert(i == r);
                assert(s[i + 1] == close[1]);
            } else {
                assert(s[i] == rest[i - t]);
                assert(rest[i - t + 1] == s[i + 1]);
            }
        }
    }
}

proof fn lemma_prose_without(calls: Seq<Written>, tail: Seq<char>, c: char)
    requires
        without(tail, c),
        forall|i: int| 0 <= i < calls.len() ==> without((#[trigger] calls[i]).prose, c),
    ensures
        without(prose_of(calls, tail), c),
    decreases calls.len(),
{
    if calls.len() > 0 {
        let more = calls.drop_first();
        assert forall|i: int| 0 <= i < more.len() implies without((#[trigger] more[i]).prose, c) by {
            assert(more[i] == calls[i + 1]);
        }
        lemma_prose_without(more, tail, c);
        let all = prose_of(calls, tail);
        let rest = prose_of(more, tail);
        let own = calls[0].prose;
        assert(without(own, c));
        assert forall|i: int| 0 <= i < all.len() implies #[trigger] all[i] != c by {
            if i < own.len() {
                assert(all[i] == own[i]);
            } else {
                assert(all[i] == rest[i - own.len()]);
            }
        }
    }
}

proof fn lemma_no_mark(s: Seq<char>, p: Seq<char>)
    requires
        p.len() > 0,
        without(s, p[0]),
    ensures
        text::found(s, p) is None,
        !text::holds(s, p),
{
    text::lemma_found_from(s, p, 0);
    if let Some(k) = text::found(s, p) {
        assert(s.subrange(k, k + p.len())[0] == p[0]);
    }
}

/// The calls that a model writes between `<tool_call>` and `</tool_call>` are recovered, each in its
/// turn, and the prose around them is kept without them.
pub proof fn tool_call_tags_are_read(calls: Seq<Written>, tail: Seq<char>)
    requires
        all_without(calls, tail, '<'),
        without(tail, '[') && without(tail, '`'),
        forall|i: int|
            0 <= i < calls.len() ==> without((#[trigger] calls[i]).prose, '[') && without(
                calls[i].prose,
                '`',
            ),
    ensures
        toolcall_text::extracted(
            written(calls, tail, "<tool_call>"@, "</tool_call>"@),
        ) == (prose_of(calls, tail), calls_of(calls)),
{
    let open = "<tool_call>"@;
    let close = "</tool_call>"@;
    reveal_strlit("<tool_call>");
    reveal_strlit("</tool_call>");
    reveal_strlit("<|tool_call>");
    reveal_strlit("<tool_call|>");
    reveal_strlit("[TOOL_CALL]");
    reveal_strlit("[/TOOL_CALL]");
    reveal_strlit("[TOOL_CALLS]");
    reveal_strlit("[/TOOL_CALLS]");
    reveal_strlit("```tool_code");
    let s = written(calls, tail, open, close);
    lemma_followed(calls, tail, open, close, 't', '/');
    let other = "<|tool_call>"@;
    text::lemma_found_from(s, other, 0);
    if let Some(k) = text::found(s, other) {
        assert(s.subrange(k, k + other.len())[0] == '<');
        assert(s.subrange(k, k + other.len())[1] == '|');
        assert(s[k] == '<' && s[k + 1] == '|');
    }
    lemma_untagged(calls, tail, open, close);
    let clean = prose_of(calls, tail);
    assert forall|i: int| 0 <= i < calls.len() implies without((#[trigger] calls[i]).prose, '[') by {}
    lemma_prose_without(calls, tail, '[');
    assert forall|i: int| 0 <= i < calls.len() implies without((#[trigger] calls[i]).prose, '`') by {}
    lemma_prose_without(calls, tail, '`');
    lemma_no_mark(clean, "[TOOL_CALL]"@);
    lemma_no_mark(clean, "[TOOL_CALLS]"@);
    lemma_no_mark(clean, toolcall_text::FENCE@);
    let none = Seq::<TextCallView>::empty();
    let found = calls_of(calls);
    assert(none + found + none + none + toolcall_text::fenced_calls(seq![], 0) =~= found);
}

// ---- what a call says -----------------------------------------------------------------------

/// A call written as JSON says the tool's name and what it is given, under any of the names that are
/// in use for them.
pub proof fn a_json_call_says_its_tool(v: JsonSpec, name: Seq<char>, arguments: JsonSpec)
    requires
        !(arguments is Str),
        json::field(v, "name"@) == Some(JsonSpec::Str(name)) || (json::field(v, "name"@) is None
            && json::field(v, "function"@) == Some(JsonSpec::Str(name))),
        json::field(v, "arguments"@) == Some(arguments) || (json::field(v, "arguments"@) is None && (
        json::field(v, "parameters"@) == Some(arguments) || (json::field(v, "parameters"@) is None
            && json::field(v, "args"@) == Some(arguments)))),
    ensures
        toolcall_text::json_call(v) == Some(TextCallView { name, input: arguments }),
{
}

/// Arguments that are written out as JSON text are read as what they say.
pub proof fn arguments_written_out_are_read(
    v: JsonSpec,
    name: Seq<char>,
    spelled: Seq<char>,
    arguments: JsonSpec,
)
    requires
        json::field(v, "name"@) == Some(JsonSpec::Str(name)),
        json::field(v, "arguments"@) == Some(JsonSpec::Str(spelled)),
        json::json_parsed(spelled) == Ok::<JsonSpec, Seq<char>>(arguments),
    ensures
        toolcall_text::json_call(v) == Some(TextCallView { name, input: arguments }),
{
}

/// What stands between the marks is read as JSON where it begins with a brace.
pub proof fn a_braced_call_is_read_as_json(inner: Seq<char>, v: JsonSpec)
    requires
        text::trimmed(inner).len() > 0,
        text::trimmed(inner)[0] == '{',
        json::json_parsed(text::trimmed(inner)) == Ok::<JsonSpec, Seq<char>>(v),
    ensures
        toolcall_text::tagged_call(inner) == toolcall_text::json_call(v),
{
}

// ---- blocks ---------------------------------------------------------------------------------

proof fn lemma_numbered(calls: Seq<TextCallView>, first: nat, n: int)
    requires
        0 <= n <= calls.len(),
    ensures
        toolcall_text::numbered(calls, first, n) == Seq::new(
            n as nat,
            |i: int|
                BlockView::ToolUse {
                    id: "call_"@ + text::decimal((first + i) as nat),
                    name: calls[i].name,
                    input: calls[i].input,
                },
        ),
    decreases n,
{
    let all = Seq::new(
        n as nat,
        |i: int|
            BlockView::ToolUse {
                id: "call_"@ + text::decimal((first + i) as nat),
                name: calls[i].name,
                input: calls[i].input,
            },
    );
    if n > 0 {
        lemma_numbered(calls, first, n - 1);
        assert(toolcall_text::numbered(calls, first, n) =~= all);
    } else {
        assert(toolcall_text::numbered(calls, first, n) =~= all);
    }
}

/// A text block becomes the prose that is left of it, where any is, and behind it a call for each that
/// it held, in order: the same tool, given the same, under an id of its own.
pub proof fn a_recovered_block_holds_its_calls(
    said: Seq<char>,
    count: nat,
    clean: Seq<char>,
    calls: Seq<TextCallView>,
)
    requires
        toolcall_text::extracted(said) == (clean, calls),
    ensures
        ({
            let blocks = toolcall_text::recovered_block(BlockView::Text { text: said }, count);
            let prose = text::trimmed(clean);
            let skip: int = if prose.len() > 0 {
                1
            } else {
                0
            };
            &&& blocks.len() == skip + calls.len()
            &&& prose.len() > 0 ==> blocks[0] == (BlockView::Text { text: prose })
            &&& forall|i: int|
                0 <= i < calls.len() ==> {
                    &&& #[trigger] blocks[skip + i] is ToolUse
                    &&& blocks[skip + i]->ToolUse_name == calls[i].name
                    &&& blocks[skip + i]->ToolUse_input == calls[i].input
                    &&& blocks[skip + i]->ToolUse_id == "call_"@ + text::decimal(
                        (count + i) as nat,
                    )
                }
        }),
{
    lemma_numbered(calls, count, calls.len() as int);
}

/// Two recovered calls never share an id.
pub proof fn recovered_ids_differ(m: nat, n: nat)
    requires
        m != n,
    ensures
        "call_"@ + text::decimal(m) != "call_"@ + text::decimal(n),
{
    text::lemma_decimal_differs(m, n);
    let a = text::decimal(m);
    let b = text::decimal(n);
    if "call_"@ + a == "call_"@ + b {
        assert(a =~= ("call_"@ + a).skip("call_"@.len() as int));
        assert(b =~= ("call_"@ + b).skip("call_"@.len() as int));
    }
}

} // verus!
