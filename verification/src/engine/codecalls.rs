//! What is recovered of tool calls that a model wrote out as code.

use crate::engine::textcalls;
use crate::engine::toolcall_text;
use crate::engine::toolcall_text::{ScanState, TextCallView};
use crate::json;
use crate::json::JsonSpec;
use crate::text;
use crate::text_laws;
use vstd::prelude::*;
use vstd::string::*;

verus! {

/// A name that an argument can have.
pub open spec fn is_key(k: Seq<char>) -> bool {
    &&& k.len() > 0
    &&& forall|i: int| 0 <= i < k.len() ==> is_key_char(#[trigger] k[i])
}

/// A character that a name can hold: no space, no quote, no bracket, no comma and no sign of equality.
pub open spec fn is_key_char(c: char) -> bool {
    &&& !text::is_ws(c)
    &&& c != '=' && c != ',' && c != '"' && c != '\''
    &&& c != '(' && c != ')' && c != '[' && c != ']' && c != '{' && c != '}'
}

/// The arguments have names, no two of them the same, and their values hold no quote.
pub open spec fn are_arguments(args: Seq<(Seq<char>, Seq<char>)>) -> bool {
    &&& forall|i: int|
        0 <= i < args.len() ==> is_key((#[trigger] args[i]).0) && textcalls::without(
            args[i].1,
            '"',
        )
    &&& forall|i: int, j: int|
        0 <= i < j < args.len() ==> (#[trigger] args[i]).0 != (#[trigger] args[j]).0
}

/// An argument as it is written.
pub open spec fn argument(arg: (Seq<char>, Seq<char>)) -> Seq<char> {
    arg.0 + seq!['=', '"'] + arg.1 + seq!['"']
}

/// The arguments as they are written, with commas between them.
pub open spec fn arguments(args: Seq<(Seq<char>, Seq<char>)>) -> Seq<char>
    decreases args.len(),
{
    if args.len() == 0 {
        seq![]
    } else if args.len() == 1 {
        argument(args[0])
    } else {
        arguments(args.drop_last()) + seq![','] + argument(args.last())
    }
}

spec fn each_argument(args: Seq<(Seq<char>, Seq<char>)>) -> Seq<Seq<char>> {
    Seq::new(args.len(), |i: int| argument(args[i]))
}

spec fn outside() -> ScanState {
    ScanState { quote: None, depth: 0 }
}

proof fn lemma_scan_prefix(a: Seq<char>, b: Seq<char>, n: int)
    requires
        0 <= n <= a.len(),
    ensures
        toolcall_text::scan(a + b, n) == toolcall_text::scan(a, n),
    decreases n,
{
    if n > 0 {
        lemma_scan_prefix(a, b, n - 1);
        assert((a + b)[n - 1] == a[n - 1]);
    }
}

proof fn lemma_separators_prefix(a: Seq<char>, b: Seq<char>, n: int)
    requires
        0 <= n <= a.len(),
    ensures
        -1 <= toolcall_text::last_separator(a, n) < n,
        toolcall_text::last_separator(a + b, n) == toolcall_text::last_separator(a, n),
        toolcall_text::ended_arguments(a + b, n) == toolcall_text::ended_arguments(a, n),
    decreases n,
{
    if n > 0 {
        lemma_separators_prefix(a, b, n - 1);
        lemma_scan_prefix(a, b, n - 1);
        assert((a + b)[n - 1] == a[n - 1]);
        let from = toolcall_text::last_separator(a, n - 1) + 1;
        assert((a + b).subrange(from, n - 1) =~= a.subrange(from, n - 1));
    }
}

proof fn lemma_argument_scan(a: Seq<char>, arg: (Seq<char>, Seq<char>), j: int)
    requires
        is_key(arg.0),
        textcalls::without(arg.1, '"'),
        toolcall_text::scan(a, a.len() as int) == outside(),
        0 <= j <= argument(arg).len(),
    ensures
        ({
            let s = a + argument(arg);
            let n = a.len() as int;
            &&& toolcall_text::scan(s, n + j) == (if arg.0.len() + 2 <= j < argument(arg).len() {
                ScanState { quote: Some('"'), depth: 0 }
            } else {
                outside()
            })
            &&& toolcall_text::last_separator(s, n + j) == toolcall_text::last_separator(s, n)
            &&& toolcall_text::ended_arguments(s, n + j) == toolcall_text::ended_arguments(s, n)
        }),
    decreases j,
{
    let s = a + argument(arg);
    let n = a.len() as int;
    if j == 0 {
        lemma_scan_prefix(a, argument(arg), n);
    } else {
        lemma_argument_scan(a, arg, j - 1);
        let c = s[n + j - 1];
        assert(c == argument(arg)[j - 1]);
        let k = arg.0.len() as int;
        if j - 1 < k {
            assert(c == arg.0[j - 1]);
            assert(is_key_char(c));
        } else if j - 1 == k {
            assert(c == '=');
        } else if j - 1 == k + 1 {
            assert(c == '"');
        } else if j < argument(arg).len() {
            assert(c == arg.1[j - 1 - k - 2]);
            assert(c != '"');
        } else {
            assert(c == '"');
        }
    }
}

proof fn lemma_arguments(args: Seq<(Seq<char>, Seq<char>)>)
    requires
        are_arguments(args),
        args.len() > 0,
    ensures
        ({
            let s = arguments(args);
            let n = s.len() as int;
            let p = argument(args.last());
            &&& p.len() <= n
            &&& s.subrange(n - p.len(), n) == p
            &&& toolcall_text::scan(s, n) == outside()
            &&& toolcall_text::last_separator(s, n) == n - p.len() - 1
            &&& toolcall_text::ended_arguments(s, n) == each_argument(args.drop_last())
        }),
    decreases args.len(),
{
    let s = arguments(args);
    let p = argument(args.last());
    let some = args.drop_last();
    if args.len() == 1 {
        let a = Seq::<char>::empty();
        assert(s =~= a + p);
        assert(toolcall_text::scan(a, 0) == outside());
        lemma_argument_scan(a, args.last(), p.len() as int);
        assert(each_argument(some) =~= seq![]);
        assert(s.subrange(0, s.len() as int) =~= p);
    } else {
        assert(are_arguments(some));
        lemma_arguments(some);
        let t = arguments(some);
        let m = t.len() as int;
        let q = argument(some.last());
        let a = t + seq![','];
        assert(s =~= a + p);
        lemma_scan_prefix(t, seq![','], m);
        lemma_separators_prefix(t, seq![','], m);
        assert(a[m] == ',');
        assert(toolcall_text::is_separator(a, m));
        assert(toolcall_text::scan(a, m + 1) == outside());
        assert(toolcall_text::last_separator(a, m + 1) == m);
        assert(a.subrange(m - q.len(), m) =~= t.subrange(m - q.len(), m));
        assert(toolcall_text::ended_arguments(a, m + 1) == each_argument(some.drop_last()).push(q));
        assert(each_argument(some.drop_last()).push(q) =~= each_argument(some));
        lemma_separators_prefix(a, p, m + 1);
        lemma_argument_scan(a, args.last(), p.len() as int);
        assert(s.subrange(m + 1, s.len() as int) =~= p);
    }
}

proof fn lemma_arguments_in(args: Seq<(Seq<char>, Seq<char>)>)
    requires
        are_arguments(args),
    ensures
        toolcall_text::arguments_in(arguments(args)) == each_argument(args),
{
    let s = arguments(args);
    let n = s.len() as int;
    let none = Seq::<char>::empty();
    if args.len() == 0 {
        assert(s.subrange(0, 0) =~= none);
        text_laws::trimming_finds_the_text(none, none, none);
        assert(none + none + none =~= none);
        assert(each_argument(args) =~= seq![]);
    } else {
        lemma_arguments(args);
        let p = argument(args.last());
        let k = args.last().0;
        assert(is_key_char(k[0]));
        assert(p[0] == k[0] && p.last() == '"');
        assert(none + p + none =~= p);
        text_laws::trimming_finds_the_text(none, p, none);
        assert(each_argument(args.drop_last()).push(p) =~= each_argument(args));
    }
}

proof fn lemma_new_key(members: Seq<(Seq<char>, JsonSpec)>, key: Seq<char>, i: int)
    requires
        0 <= i <= members.len(),
        forall|k: int| 0 <= k < members.len() ==> (#[trigger] members[k]).0 != key,
    ensures
        json::key_index(members, key, i) == members.len(),
    decreases members.len() - i,
{
    if i < members.len() {
        assert(members[i].0 != key);
        lemma_new_key(members, key, i + 1);
    }
}

/// What the arguments say.
pub open spec fn meant(args: Seq<(Seq<char>, Seq<char>)>) -> Seq<(Seq<char>, JsonSpec)> {
    Seq::new(args.len(), |i: int| (args[i].0, JsonSpec::Str(args[i].1)))
}

proof fn lemma_keywords(args: Seq<(Seq<char>, Seq<char>)>, n: int)
    requires
        are_arguments(args),
        0 <= n <= args.len(),
    ensures
        toolcall_text::keyword_arguments(each_argument(args), n) == meant(args).take(n),
    decreases n,
{
    let parts = each_argument(args);
    if n == 0 {
        assert(meant(args).take(0) =~= seq![]);
    } else {
        lemma_keywords(args, n - 1);
        let arg = args[n - 1];
        let part = parts[n - 1];
        let k = arg.0.len() as int;
        text::lemma_next_char(part, '=', 0);
        let eq = text::next_char(part, '=', 0);
        assert(part[k] == '=');
        if eq < k {
            assert(part[eq] == arg.0[eq]);
            assert(is_key_char(arg.0[eq]));
        }
        assert(eq == k);
        let none = Seq::<char>::empty();
        assert(part.subrange(0, k) =~= arg.0);
        assert(is_key_char(arg.0[0]) && is_key_char(arg.0[k - 1]));
        assert(none + arg.0 + none =~= arg.0);
        text_laws::trimming_finds_the_text(none, arg.0, none);
        let v = text::after(part, k + 1);
        assert(v =~= seq!['"'] + arg.1 + seq!['"']);
        assert(none + v + none =~= v);
        text_laws::trimming_finds_the_text(none, v, none);
        assert(v.subrange(1, v.len() - 1) =~= arg.1);
        let before = meant(args).take(n - 1);
        assert forall|i: int| 0 <= i < before.len() implies (#[trigger] before[i]).0 != arg.0 by {
            assert(before[i].0 == args[i].0);
        }
        lemma_new_key(before, arg.0, 0);
        assert(before.push((arg.0, JsonSpec::Str(arg.1))) =~= meant(args).take(n));
    }
}

/// A call that is written as code, with quoted arguments under their names, is read as what it says:
/// the tool's name, and each argument with its value, in order.
pub proof fn a_call_written_as_code_is_read(name: Seq<char>, args: Seq<(Seq<char>, Seq<char>)>)
    requires
        toolcall_text::is_identifier(name),
        is_key(name),
        name != "print"@,
        are_arguments(args),
    ensures
        toolcall_text::python_call(name + seq!['('] + arguments(args) + seq![')']) == Some(
            TextCallView { name, input: JsonSpec::Object(meant(args)) },
        ),
{
    let line = name + seq!['('] + arguments(args) + seq![')'];
    let n = name.len() as int;
    let none = Seq::<char>::empty();
    assert(is_key_char(name[0]) && is_key_char(name[n - 1]));
    assert(line[0] == name[0] && line.last() == ')');
    assert(none + line + none =~= line);
    text_laws::trimming_finds_the_text(none, line, none);
    assert(none + name + none =~= name);
    text_laws::trimming_finds_the_text(none, name, none);
    let said = "print("@;
    reveal_strlit("print(");
    reveal_strlit("print");
    if text::begins(line, said) {
        assert forall|i: int| 0 <= i < 6 implies line[i] == #[trigger] said[i] by {
            assert(line.subrange(0, 6)[i] == line[i]);
        }
        assert(said[0] == 'p' && said[1] == 'r' && said[2] == 'i' && said[3] == 'n');
        assert(said[4] == 't' && said[5] == '(');
        if n > 5 {
            assert(is_key_char(name[5]));
        } else if n < 5 {
            assert(line[n] == '(' && said[n] == line[n]);
        } else {
            assert(name =~= "print"@);
        }
    }
    text::lemma_next_char(line, '(', 0);
    let paren = text::next_char(line, '(', 0);
    assert(line[n] == '(');
    if paren < n {
        assert(line[paren] == name[paren]);
        assert(is_key_char(name[paren]));
    }
    assert(paren == n);
    assert(line.subrange(0, n) =~= name);
    assert(text::last_char(line, ')', line.len() as int) == line.len() - 1);
    assert(line.subrange(n + 1, line.len() - 1) =~= arguments(args));
    lemma_arguments_in(args);
    lemma_keywords(args, args.len() as int);
    assert(meant(args).take(args.len() as int) =~= meant(args));
}

/// An argument without quotes is a truth value or a whole number where it is written as one.
pub proof fn plain_values_are_read(v: Seq<char>, n: i64)
    requires
        v.len() > 0,
        !text::is_ws(v[0]) && !text::is_ws(v.last()),
        v[0] != '"' && v[0] != '\'',
    ensures
        v == "True"@ || v == "true"@ ==> toolcall_text::python_value(v) == JsonSpec::Bool(true),
        v == "False"@ || v == "false"@ ==> toolcall_text::python_value(v) == JsonSpec::Bool(false),
        text::i64_spelled(v) == Some(n as int) && v[0] != 'T' && v[0] != 't' && v[0] != 'F' && v[0]
            != 'f' ==> toolcall_text::python_value(v) == json::int_spec(n),
{
    let none = Seq::<char>::empty();
    assert(none + v + none =~= v);
    text_laws::trimming_finds_the_text(none, v, none);
    reveal_strlit("True");
    reveal_strlit("true");
    reveal_strlit("False");
    reveal_strlit("false");
    assert("True"@[0] == 'T' && "true"@[0] == 't' && "False"@[0] == 'F' && "false"@[0] == 'f');
}

// ---- calls between quoted marks --------------------------------------------------------------

/// The mark in front of a value and behind it.
pub open spec fn mark() -> Seq<char> {
    seq!['<', '|', '"', '>']
}

/// The arguments `args[..n]` as they are written between marks.
pub open spec fn marked(args: Seq<(Seq<char>, Seq<char>)>, n: int) -> Seq<char>
    decreases n,
{
    if n <= 0 {
        seq![]
    } else {
        marked(args, n - 1) + name_piece(args, n - 1) + mark() + args[n - 1].1 + mark()
    }
}

/// What stands in front of a value: the argument's name, behind a comma where another one precedes.
pub open spec fn name_piece(args: Seq<(Seq<char>, Seq<char>)>, i: int) -> Seq<char> {
    if i == 0 {
        args[i].0 + seq![':']
    } else {
        seq![','] + args[i].0 + seq![':']
    }
}

/// The arguments can stand between marks.
pub open spec fn are_markable(args: Seq<(Seq<char>, Seq<char>)>) -> bool {
    &&& forall|i: int|
        0 <= i < args.len() ==> {
            &&& is_key((#[trigger] args[i]).0)
            &&& args[i].0.last() != ':'
            &&& textcalls::without(args[i].0, '<')
            &&& textcalls::without(args[i].1, '<')
        }
    &&& forall|i: int, j: int|
        0 <= i < j < args.len() ==> (#[trigger] args[i]).0 != (#[trigger] args[j]).0
}

spec fn pieces(args: Seq<(Seq<char>, Seq<char>)>, n: int) -> Seq<Seq<char>> {
    Seq::new(
        (2 * n + 1) as nat,
        |i: int|
            if i == 2 * n {
                seq![]
            } else if i % 2 == 0 {
                name_piece(args, i / 2)
            } else {
                args[i / 2].1
            },
    )
}

proof fn lemma_marked(args: Seq<(Seq<char>, Seq<char>)>, n: int)
    requires
        0 <= n <= args.len(),
    ensures
        text::joined(pieces(args, n), mark()) == marked(args, n),
    decreases n,
{
    let m = mark();
    let all = pieces(args, n);
    if n > 0 {
        lemma_marked(args, n - 1);
        let a = name_piece(args, n - 1);
        let v = args[n - 1].1;
        let q = pieces(args, n - 1).drop_last();
        let new = seq![a, v, Seq::<char>::empty()];
        assert(all =~= q + new);
        assert(new.drop_last() =~= seq![a, v]);
        assert(seq![a, v].drop_last() =~= seq![a]);
        assert(text::joined(seq![a], m) == a);
        assert(text::joined(seq![a, v], m) == a + m + v);
        assert(text::joined(new, m) =~= a + m + v + m);
        if n == 1 {
            assert(q.len() == 0);
            assert(all =~= new);
            assert(marked(args, 0) =~= seq![]);
            assert(marked(args, 1) =~= a + m + v + m);
        } else {
            text_laws::joined_lists_join(q, new, m);
            assert(pieces(args, n - 1).last() =~= seq![]);
            assert(marked(args, n - 1) =~= text::joined(q, m) + m);
            assert(marked(args, n) =~= text::joined(q, m) + m + (a + m + v + m));
        }
    } else {
        assert(all =~= seq![Seq::<char>::empty()]);
    }
}

proof fn lemma_name_piece(args: Seq<(Seq<char>, Seq<char>)>, i: int)
    requires
        are_markable(args),
        0 <= i < args.len(),
    ensures
        toolcall_text::dsl_key(name_piece(args, i)) == args[i].0,
{
    let none = Seq::<char>::empty();
    let k = args[i].0;
    let ended = k + seq![':'];
    let piece = name_piece(args, i);
    assert(is_key_char(k[0]) && is_key_char(k.last()));
    assert(none + piece + none =~= piece);
    text_laws::trimming_finds_the_text(none, piece, none);
    reveal_with_fuel(text::without_leading, 3);
    if i > 0 {
        assert(piece.subrange(1, piece.len() as int) =~= ended);
    }
    assert(ended[0] == k[0]);
    assert(text::without_leading(piece, ',') == ended);
    assert(none + ended + none =~= ended);
    text_laws::trimming_finds_the_text(none, ended, none);
    reveal_with_fuel(text::without_trailing, 3);
    assert(ended.subrange(0, ended.len() - 1) =~= k);
    assert(none + k + none =~= k);
    text_laws::trimming_finds_the_text(none, k, none);
}

proof fn lemma_marked_arguments(args: Seq<(Seq<char>, Seq<char>)>, n: int)
    requires
        are_markable(args),
        0 <= n <= args.len(),
    ensures
        toolcall_text::dsl_arguments(pieces(args, args.len() as int), n) == meant(args).take(n),
    decreases n,
{
    if n == 0 {
        assert(meant(args).take(0) =~= seq![]);
    } else {
        lemma_marked_arguments(args, n - 1);
        lemma_name_piece(args, n - 1);
        let arg = args[n - 1];
        let before = meant(args).take(n - 1);
        assert forall|i: int| 0 <= i < before.len() implies (#[trigger] before[i]).0 != arg.0 by {
            assert(before[i].0 == args[i].0);
        }
        lemma_new_key(before, arg.0, 0);
        assert(before.push((arg.0, JsonSpec::Str(arg.1))) =~= meant(args).take(n));
    }
}

/// A call whose values stand between marks is read as what it says: the tool's name, and each argument
/// with its value, in order. A value may hold quotes, braces and commas.
pub proof fn a_call_between_marks_is_read(name: Seq<char>, args: Seq<(Seq<char>, Seq<char>)>)
    requires
        is_key(name),
        are_markable(args),
    ensures
        toolcall_text::tagged_call(
            "call:"@ + name + seq!['{'] + marked(args, args.len() as int) + seq!['}'],
        ) == Some(TextCallView { name, input: JsonSpec::Object(meant(args)) }),
{
    let body = marked(args, args.len() as int);
    let rest = name + seq!['{'] + body + seq!['}'];
    let s = "call:"@ + name + seq!['{'] + body + seq!['}'];
    let none = Seq::<char>::empty();
    let n = name.len() as int;
    reveal_strlit("call:");
    assert(s =~= "call:"@ + rest);
    assert(s[0] == 'c' && s.last() == '}');
    assert(none + s + none =~= s);
    text_laws::trimming_finds_the_text(none, s, none);
    assert(s.subrange(0, 5) =~= "call:"@);
    assert(text::after(s, 5) =~= rest);
    text::lemma_next_char(rest, '{', 0);
    let brace = text::next_char(rest, '{', 0);
    assert(rest[n] == '{');
    if brace < n {
        assert(rest[brace] == name[brace]);
        assert(is_key_char(name[brace]));
    }
    assert(brace == n);
    assert(text::last_char(rest, '}', rest.len() as int) == rest.len() - 1);
    assert(rest.subrange(0, n) =~= name);
    assert(is_key_char(name[0]) && is_key_char(name.last()));
    assert(none + name + none =~= name);
    text_laws::trimming_finds_the_text(none, name, none);
    assert(rest.subrange(n + 1, rest.len() - 1) =~= body);
    reveal_strlit("<|\">");
    assert("<|\">"@ =~= mark());
    lemma_marked(args, args.len() as int);
    let all = pieces(args, args.len() as int);
    assert forall|i: int, j: int|
        0 <= i < all.len() && 0 <= j < all[i].len() implies #[trigger] all[i][j] != mark()[0] by {
        if i < 2 * args.len() {
            let arg = args[i / 2];
            assert(is_key(arg.0));
            if i % 2 == 0 {
                let at: int = if i == 0 {
                    j
                } else {
                    j - 1
                };
                if 0 <= at < arg.0.len() {
                    assert(all[i][j] == arg.0[at]);
                }
            }
        }
    }
    text_laws::marked_texts_are_found_again(all, mark());
    lemma_marked_arguments(args, args.len() as int);
    assert(all.len() as int / 2 == args.len());
    assert(meant(args).take(args.len() as int) =~= meant(args));
}

} // verus!
