//! Recover tool calls that a model emitted as plain TEXT instead of the structured `tool_calls`
//! API field. Some model families (Gemma, Qwen/Hermes-style, and OpenAI-compatible endpoints whose
//! chat template renders tool calls as literal text) don't populate `tool_calls`; the call arrives
//! inside the assistant's `content` as one of a few conventions:
//!
//! - `<tool_call>{"name":"f","arguments":{...}}</tool_call>` (Gemma-alt / Qwen / Hermes / Mistral),
//!   including the pipe-delimited `<|tool_call> ... <tool_call|>` variant some templates print,
//! - a ```` ```tool_code ```` fenced Python call, e.g. `write(path="a", content="b")`,
//! - the `<|tool_call>call:NAME{key:<|">value<|">,...}<tool_call|>` DSL (string values delimited by
//!   the literal token `<|">`).
//!
//! [`recover_text_tool_calls`] runs only when a turn produced no structured tool call, so it never
//! interferes with providers that do function calling properly.

use crate::engine::types::{BlockView, ContentBlock, Message, MessageView};
use crate::json;
use crate::json::{Json, JsonSpec};
use crate::text;
use vstd::prelude::*;
use vstd::string::*;

verus! {

broadcast use crate::text::views_push;

/// A recovered call: the tool's name and its input.
pub struct TextCall {
    pub name: String,
    pub input: Json,
}

/// The mathematical value of a [`TextCall`].
pub struct TextCallView {
    pub name: Seq<char>,
    pub input: JsonSpec,
}

impl View for TextCall {
    type V = TextCallView;

    open spec fn view(&self) -> TextCallView {
        TextCallView { name: self.name@, input: self.input.model() }
    }
}

pub open spec fn opt_call(c: Option<TextCall>) -> Option<TextCallView> {
    match c {
        Some(x) => Some(x@),
        None => None,
    }
}

// ---- what the conventions mean --------------------------------------------------------------

/// The first of two optional values that is there.
pub open spec fn first_of(a: Option<JsonSpec>, b: Option<JsonSpec>) -> Option<JsonSpec> {
    if a is Some {
        a
    } else {
        b
    }
}

/// Arguments, which some emitters encode once more as a JSON string.
pub open spec fn decoded_arguments(v: JsonSpec) -> JsonSpec {
    match v {
        JsonSpec::Str(s) => match json::json_parsed(s) {
            Ok(inner) => inner,
            Err(_) => v,
        },
        _ => v,
    }
}

/// The call that a JSON value says: `{"name":"f","arguments":{...}}`.
pub open spec fn json_call(v: JsonSpec) -> Option<TextCallView> {
    let name = match first_of(json::field(v, "name"@), json::field(v, "function"@)) {
        Some(n) => json::string_in(n),
        None => None,
    };
    let args = first_of(
        first_of(json::field(v, "arguments"@), json::field(v, "parameters"@)),
        json::field(v, "args"@),
    );
    match name {
        None => None,
        Some(n) => Some(
            TextCallView {
                name: n,
                input: match args {
                    Some(a) => decoded_arguments(a),
                    None => JsonSpec::Object(seq![]),
                },
            },
        ),
    }
}

/// A key of the DSL: between a comma and a colon.
pub open spec fn dsl_key(piece: Seq<char>) -> Seq<char> {
    text::trimmed(
        text::without_trailing(
            text::trimmed(text::without_leading(text::trimmed(piece), ',')),
            ':',
        ),
    )
}

/// The arguments in the first `n` pairs of pieces: a key, then its value.
pub open spec fn dsl_arguments(pieces: Seq<Seq<char>>, n: int) -> Seq<(Seq<char>, JsonSpec)>
    decreases n,
{
    if n <= 0 {
        seq![]
    } else {
        let before = dsl_arguments(pieces, n - 1);
        let key = dsl_key(pieces[2 * n - 2]);
        if key.len() == 0 {
            before
        } else {
            json::with_key(before, key, JsonSpec::Str(pieces[2 * n - 1]))
        }
    }
}

/// The call that `NAME{key:<|">value<|">,...}` says. Every value is a string. A closing brace
/// before the opening one closes nothing, and the text says no call.
pub open spec fn dsl_call(rest: Seq<char>) -> Option<TextCallView> {
    let brace = text::next_char(rest, '{', 0);
    let last = text::last_char(rest, '}', rest.len() as int);
    let end = if last < 0 {
        rest.len() as int
    } else {
        last
    };
    let name = text::trimmed(rest.subrange(0, brace));
    if brace >= rest.len() || name.len() == 0 || end <= brace {
        None
    } else {
        let pieces = text::pieces_from(rest.subrange(brace + 1, end), "<|\">"@, 0);
        Some(
            TextCallView {
                name,
                input: JsonSpec::Object(dsl_arguments(pieces, pieces.len() as int / 2)),
            },
        )
    }
}

/// Where a scan of arguments stands: the open quote, the depth of brackets.
pub struct ScanState {
    pub quote: Option<char>,
    pub depth: int,
}

/// The scan after one more character.
pub open spec fn scanned(st: ScanState, c: char) -> ScanState {
    match st.quote {
        Some(q) => ScanState {
            quote: if c == q {
                None
            } else {
                st.quote
            },
            ..st
        },
        None => if c == '"' || c == '\'' {
            ScanState { quote: Some(c), ..st }
        } else if c == '[' || c == '{' || c == '(' {
            ScanState { depth: st.depth + 1, ..st }
        } else if c == ']' || c == '}' || c == ')' {
            ScanState { depth: st.depth - 1, ..st }
        } else {
            st
        },
    }
}

/// The scan after the first `n` characters.
pub open spec fn scan(s: Seq<char>, n: int) -> ScanState
    decreases n,
{
    if n <= 0 {
        ScanState { quote: None, depth: 0 }
    } else {
        scanned(scan(s, n - 1), s[n - 1])
    }
}

/// The character at `i` is a comma outside quotes and brackets.
pub open spec fn is_separator(s: Seq<char>, i: int) -> bool {
    s[i] == ',' && scan(s, i).quote is None && scan(s, i).depth == 0
}

/// The last separator before `n`, or `-1`.
pub open spec fn last_separator(s: Seq<char>, n: int) -> int
    decreases n,
{
    if n <= 0 {
        -1
    } else if is_separator(s, n - 1) {
        n - 1
    } else {
        last_separator(s, n - 1)
    }
}

/// The arguments that the separators among `s[..n]` end.
pub open spec fn ended_arguments(s: Seq<char>, n: int) -> Seq<Seq<char>>
    decreases n,
{
    if n <= 0 {
        seq![]
    } else if is_separator(s, n - 1) {
        ended_arguments(s, n - 1).push(s.subrange(last_separator(s, n - 1) + 1, n - 1))
    } else {
        ended_arguments(s, n - 1)
    }
}

/// The arguments: what the separators part. A blank last one does not count.
pub open spec fn arguments_in(s: Seq<char>) -> Seq<Seq<char>> {
    let n = s.len() as int;
    let rest = s.subrange(last_separator(s, n) + 1, n);
    if text::trimmed(rest).len() == 0 {
        ended_arguments(s, n)
    } else {
        ended_arguments(s, n).push(rest)
    }
}

/// The text begins and ends with the quote `q`.
pub open spec fn is_quoted(v: Seq<char>, q: char) -> bool {
    v.len() >= 2 && v[0] == q && v.last() == q
}

/// The JSON value of a Python literal: a string, a boolean, an integer, another number, or else the
/// text itself.
pub open spec fn python_value(raw: Seq<char>) -> JsonSpec {
    let v = text::trimmed(raw);
    if is_quoted(v, '"') || is_quoted(v, '\'') {
        JsonSpec::Str(v.subrange(1, v.len() - 1))
    } else if v == "True"@ || v == "true"@ {
        JsonSpec::Bool(true)
    } else if v == "False"@ || v == "false"@ {
        JsonSpec::Bool(false)
    } else {
        match text::i64_spelled(v) {
            Some(n) => json::int_spec(n as i64),
            None => match json::float_printed(v) {
                Some(t) => JsonSpec::Number(json::NumberSpec::Float(t)),
                None => JsonSpec::Str(v),
            },
        }
    }
}

/// The object that the arguments `parts[..n]` say. One without `=` or without a key is passed over.
pub open spec fn keyword_arguments(parts: Seq<Seq<char>>, n: int) -> Seq<(Seq<char>, JsonSpec)>
    decreases n,
{
    if n <= 0 {
        seq![]
    } else {
        let before = keyword_arguments(parts, n - 1);
        let part = parts[n - 1];
        let eq = text::next_char(part, '=', 0);
        let key = text::trimmed(part.subrange(0, eq));
        if eq >= part.len() || key.len() == 0 {
            before
        } else {
            json::with_key(before, key, python_value(text::after(part, eq + 1)))
        }
    }
}

/// A Python identifier, loosely: letters, digits and underscores.
pub open spec fn is_identifier(s: Seq<char>) -> bool {
    s.len() > 0 && forall|i: int|
        0 <= i < s.len() ==> text::alphanumeric(#[trigger] s[i]) || s[i] == '_'
}

/// The last character of `s` is a `)` whose opening bracket stands before `s`.
pub open spec fn closes_outside(s: Seq<char>) -> bool {
    s.len() > 0 && s.last() == ')' && scan(s, s.len() - 1).quote is None && scan(
        s,
        s.len() - 1,
    ).depth == 0
}

/// `line` without a `print(...)` around the call.
pub open spec fn unprinted(line: Seq<char>) -> Seq<char> {
    let t = text::trimmed(line);
    if text::begins(t, "print("@) {
        let rest = text::after(t, "print("@.len() as int);
        if closes_outside(rest) {
            rest.subrange(0, rest.len() - 1)
        } else {
            rest
        }
    } else {
        t
    }
}

/// The call that a line of Python says: `func(k="v", n=1)`.
pub open spec fn python_call(raw: Seq<char>) -> Option<TextCallView> {
    let line = unprinted(raw);
    let paren = text::next_char(line, '(', 0);
    let close = text::last_char(line, ')', line.len() as int);
    let name = text::trimmed(line.subrange(0, paren));
    if paren >= line.len() || close < paren || !is_identifier(name) {
        None
    } else {
        let parts = arguments_in(line.subrange(paren + 1, close));
        Some(
            TextCallView {
                name,
                input: JsonSpec::Object(keyword_arguments(parts, parts.len() as int)),
            },
        )
    }
}

/// The calls among the lines `lines[..n]`.
pub open spec fn python_calls(lines: Seq<Seq<char>>, n: int) -> Seq<TextCallView>
    decreases n,
{
    if n <= 0 {
        seq![]
    } else {
        match python_call(lines[n - 1]) {
            Some(c) => python_calls(lines, n - 1).push(c),
            None => python_calls(lines, n - 1),
        }
    }
}

/// The Python calls in a text.
pub open spec fn python_calls_in(s: Seq<char>) -> Seq<TextCallView> {
    python_calls(text::lines_of(s), text::lines_of(s).len() as int)
}

/// The call between the tags of a tool call: a JSON object, the `call:NAME{...}` DSL, or a bare
/// Python-style call.
pub open spec fn tagged_call(inner: Seq<char>) -> Option<TextCallView> {
    let s = text::trimmed(inner);
    if s.len() > 0 && s[0] == '{' {
        match json::json_parsed(s) {
            Ok(v) => json_call(v),
            Err(_) => None,
        }
    } else if text::begins(s, "call:"@) {
        dsl_call(text::after(s, "call:"@.len() as int))
    } else if python_calls_in(s).len() > 0 {
        Some(python_calls_in(s)[0])
    } else {
        None
    }
}

pub open spec fn opt_seq(c: Option<TextCallView>) -> Seq<TextCallView> {
    match c {
        Some(x) => seq![x],
        None => seq![],
    }
}

/// The text without the regions between `open` and `close`, and the calls in them.
pub open spec fn untagged(s: Seq<char>, open: Seq<char>, close: Seq<char>) -> (
    Seq<char>,
    Seq<TextCallView>,
)
    decreases s.len(),
{
    match text::found(s, open) {
        None => (s, seq![]),
        Some(o) => {
            let start = o + open.len();
            match text::found_from(s, close, start) {
                None => (s, seq![]),
                Some(c) => {
                    let rest = s.subrange(0, o) + text::after(s, c + close.len());
                    proof {
                        text::lemma_found_from(s, open, 0);
                        text::lemma_found_from(s, close, start);
                    }
                    if open.len() == 0 {
                        (s, seq![])
                    } else {
                        let (clean, calls) = untagged(rest, open, close);
                        (clean, opt_seq(tagged_call(s.subrange(start, c))) + calls)
                    }
                },
            }
        },
    }
}

/// The trimmed inner texts of the fences from `i` on that begin with `open`.
pub open spec fn fences_from(s: Seq<char>, open: Seq<char>, i: int) -> Seq<Seq<char>>
    decreases s.len() - i,
{
    if i < 0 || i > s.len() {
        seq![]
    } else {
        match text::found_from(s, open, i) {
            None => seq![],
            Some(o) => {
                let start = o + open.len();
                match text::found_from(s, "```"@, start) {
                    None => seq![],
                    Some(c) => {
                        proof {
                            reveal_strlit("```");
                            text::lemma_found_from(s, open, i);
                            text::lemma_found_from(s, "```"@, start);
                        }
                        seq![text::trimmed(s.subrange(start, c))] + fences_from(s, open, c + 3)
                    },
                }
            },
        }
    }
}

/// The span of the first fence that begins with `open`.
pub open spec fn first_fence(s: Seq<char>, open: Seq<char>) -> Option<(int, int)> {
    match text::found(s, open) {
        None => None,
        Some(o) => match text::found_from(s, "```"@, o + open.len()) {
            None => None,
            Some(c) => Some((o, c + 3)),
        },
    }
}

/// The text without its fences that begin with `open`.
pub open spec fn unfenced(s: Seq<char>, open: Seq<char>) -> Seq<char>
    decreases s.len(),
{
    match first_fence(s, open) {
        None => s,
        Some((a, b)) => {
            proof {
                reveal_strlit("```");
                text::lemma_found_from(s, open, 0);
                text::lemma_found_from(s, "```"@, a + open.len());
            }
            unfenced(s.subrange(0, a) + text::after(s, b), open)
        },
    }
}

/// The calls in the fences `fences[..n]`.
pub open spec fn fenced_calls(fences: Seq<Seq<char>>, n: int) -> Seq<TextCallView>
    decreases n,
{
    if n <= 0 {
        seq![]
    } else {
        fenced_calls(fences, n - 1) + python_calls_in(fences[n - 1])
    }
}

/// The opening of a fence of Python calls.
pub const FENCE: &'static str = "```tool_code";

/// The prose of a text without its call regions, and the calls in them.
pub open spec fn extracted(s: Seq<char>) -> (Seq<char>, Seq<TextCallView>) {
    let (s1, c1) = untagged(s, "<|tool_call>"@, "<tool_call|>"@);
    let (s2, c2) = untagged(s1, "<tool_call>"@, "</tool_call>"@);
    let (s3, c3) = untagged(s2, "[TOOL_CALL]"@, "[/TOOL_CALL]"@);
    let (s4, c4) = untagged(s3, "[TOOL_CALLS]"@, "[/TOOL_CALLS]"@);
    let fences = fences_from(s4, FENCE@, 0);
    (unfenced(s4, FENCE@), c1 + c2 + c3 + c4 + fenced_calls(fences, fences.len() as int))
}

/// The tool-use blocks of `calls[..n]`, numbered from `first` on.
pub open spec fn numbered(calls: Seq<TextCallView>, first: nat, n: int) -> Seq<BlockView>
    decreases n,
{
    if n <= 0 {
        seq![]
    } else {
        numbered(calls, first, n - 1).push(
            BlockView::ToolUse {
                id: "call_"@ + text::decimal((first + n - 1) as nat),
                name: calls[n - 1].name,
                input: calls[n - 1].input,
            },
        )
    }
}

/// What one block becomes, when `count` calls were recovered before it: a text becomes its prose,
/// unless that is blank, and then its calls.
pub open spec fn recovered_block(b: BlockView, count: nat) -> Seq<BlockView> {
    match b {
        BlockView::Text { text } => {
            let (clean, calls) = extracted(text);
            let prose = text::trimmed(clean);
            (if prose.len() == 0 {
                seq![]
            } else {
                seq![BlockView::Text { text: prose }]
            }) + numbered(calls, count, calls.len() as int)
        },
        _ => seq![b],
    }
}

/// How many calls a block holds as text.
pub open spec fn calls_in(b: BlockView) -> nat {
    match b {
        BlockView::Text { text } => extracted(text).1.len(),
        _ => 0,
    }
}

/// How many calls the blocks `content[..n]` hold as text.
pub open spec fn calls_before(content: Seq<BlockView>, n: int) -> nat
    decreases n,
{
    if n <= 0 {
        0
    } else {
        calls_before(content, n - 1) + calls_in(content[n - 1])
    }
}

/// What the blocks `content[..n]` become.
pub open spec fn recovered(content: Seq<BlockView>, n: int) -> Seq<BlockView>
    decreases n,
{
    if n <= 0 {
        seq![]
    } else {
        recovered(content, n - 1) + recovered_block(content[n - 1], calls_before(content, n - 1))
    }
}

/// A text without any of the markers says no call, and nothing is taken out of it.
pub proof fn text_without_markers_holds_no_calls(s: Seq<char>)
    requires
        !text::holds(s, "<|tool_call>"@),
        !text::holds(s, "<tool_call>"@),
        !text::holds(s, "[TOOL_CALL]"@),
        !text::holds(s, "[TOOL_CALLS]"@),
        !text::holds(s, FENCE@),
    ensures
        extracted(s).0 == s,
        extracted(s).1.len() == 0,
{
}

proof fn lemma_recovered_by_text(content: Seq<BlockView>, n: int)
    requires
        0 <= n <= content.len(),
        forall|i: int| 0 <= i < n ==> !((#[trigger] content[i]) is Text),
    ensures
        recovered(content, n) == content.take(n),
        calls_before(content, n) == 0,
    decreases n,
{
    if n > 0 {
        lemma_recovered_by_text(content, n - 1);
        assert(!(content[n - 1] is Text));
        assert(content.take(n) =~= content.take(n - 1).push(content[n - 1]));
        assert(recovered(content, n) =~= content.take(n));
    } else {
        assert(recovered(content, n) =~= content.take(n));
    }
}

/// Blocks that are no text stay as they are.
pub proof fn other_blocks_are_kept(content: Seq<BlockView>)
    requires
        forall|i: int| 0 <= i < content.len() ==> !((#[trigger] content[i]) is Text),
    ensures
        recovered(content, content.len() as int) == content,
{
    lemma_recovered_by_text(content, content.len() as int);
    assert(content.take(content.len() as int) =~= content);
}

// ---- the parsers ----------------------------------------------------------------------------

/// The call that a JSON value says.
pub fn call_from_json(v: &Json) -> (r: Option<TextCall>)
    ensures
        opt_call(r) == json_call(v.model()),
{
    let named = match v.get("name") {
        Some(n) => Some(n),
        None => v.get("function"),
    };
    let name = match named {
        Some(n) => match n.as_str() {
            Some(s) => s.to_string(),
            None => {
                return None;
            },
        },
        None => {
            return None;
        },
    };
    let args = match v.get("arguments") {
        Some(a) => Some(a),
        None => match v.get("parameters") {
            Some(a) => Some(a),
            None => v.get("args"),
        },
    };
    let input = match args {
        Some(a) => match a.as_str() {
            // Some emitters double-encode the arguments as a JSON string.
            Some(s) => match json::parse(s) {
                Ok(inner) => inner,
                Err(_) => json::string(s),
            },
            None => a.copy(),
        },
        None => json::object(json::members()),
    };
    Some(TextCall { name, input })
}

/// `{"name":"f","arguments":{...}}`, where `arguments`/`parameters` may itself be a JSON string.
fn parse_json_call(s: &str) -> (r: Option<TextCall>)
    ensures
        opt_call(r) == (match json::json_parsed(s@) {
            Ok(v) => json_call(v),
            Err(_) => None,
        }),
{
    match json::parse(s) {
        Ok(v) => call_from_json(&v),
        Err(_) => None,
    }
}

/// `NAME{key:<|">value<|">,key:<|">value<|">}`: every value is a string literal delimited by the
/// `<|">` token, so commas/braces inside a value (e.g. pasted JSON) are safe.
pub fn parse_dsl_call(rest: &str) -> (r: Option<TextCall>)
    ensures
        opt_call(r) == dsl_call(rest@),
{
    let brace = match text::find_char(rest, '{') {
        Some(b) => b,
        None => {
            return None;
        },
    };
    let name = text::trim(rest.substring_char(0, brace)).to_string();
    if name.as_str().unicode_len() == 0 {
        return None;
    }
    let end = match text::rfind_char(rest, '}') {
        Some(e) => e,
        None => rest.unicode_len(),
    };
    if end <= brace {
        return None;
    }
    let body = rest.substring_char(brace + 1, end);
    proof {
        reveal_strlit("<|\">");
    }
    let parts = text::split_str(body, "<|\">");
    let ghost pieces = text::views(parts@);
    let mut args = json::members();
    let mut i: usize = 0;
    let n = parts.len() / 2;
    while i < n
        invariant
            0 <= i <= n,
            n == parts@.len() as int / 2,
            2 * n <= parts.len(),
            pieces == text::views(parts@),
            json::members_model(args@) == dsl_arguments(pieces, i as int),
        decreases n - i,
    {
        assert(pieces[2 * i] == parts@[2 * i]@);
        assert(pieces[2 * i + 1] == parts@[2 * i + 1]@);
        let key = text::trim(
            text::trim_end_matches(
                text::trim(text::trim_start_matches(text::trim(parts[2 * i]), ',')),
                ':',
            ),
        );
        if key.unicode_len() > 0 {
            // Values are string literals; keep them as strings (a write's `content` is file text).
            json::set(&mut args, key, json::string(parts[2 * i + 1]));
        }
        i += 1;
    }
    Some(TextCall { name, input: json::object(args) })
}

/// Split on top-level commas only (ignoring commas inside single/double quotes or brackets).
fn split_top_level(s: &str) -> (r: Vec<String>)
    ensures
        text::views(r@) == arguments_in(s@),
{
    let v = text::chars_of(s);
    let mut parts: Vec<String> = Vec::new();
    proof {
        text::views_empty(parts@);
    }
    let mut start: usize = 0;
    let mut quote: Option<char> = None;
    let mut depth: i128 = 0;
    let mut i: usize = 0;
    while i < v.len()
        invariant
            0 <= i <= v.len(),
            v@ == s@,
            start == last_separator(s@, i as int) + 1,
            start <= i,
            quote == scan(s@, i as int).quote,
            depth == scan(s@, i as int).depth,
            -(i as int) <= depth <= i,
            text::views(parts@) == ended_arguments(s@, i as int),
        decreases v@.len() - i,
    {
        let c = v[i];
        match quote {
            Some(q) => {
                if c == q {
                    quote = None;
                }
            },
            None => {
                if c == '"' || c == '\'' {
                    quote = Some(c);
                } else if c == '[' || c == '{' || c == '(' {
                    depth = depth + 1;
                } else if c == ']' || c == '}' || c == ')' {
                    depth = depth - 1;
                } else if c == ',' && depth == 0 {
                    parts.push(text::string_of(&v, start, i));
                    start = i + 1;
                }
            },
        }
        i += 1;
    }
    let rest = text::string_of(&v, start, v.len());
    if text::trim(rest.as_str()).unicode_len() > 0 {
        parts.push(rest);
    }
    parts
}

/// A Python literal as a JSON value (string, int, float, bool, else raw string).
pub fn py_value(v: &str) -> (r: Json)
    ensures
        r.model() == python_value(v@),
{
    let v = text::trim(v);
    let n = v.unicode_len();
    if n >= 2 {
        let first = v.get_char(0);
        let last = v.get_char(n - 1);
        if (first == '"' && last == '"') || (first == '\'' && last == '\'') {
            return json::string(v.substring_char(1, n - 1));
        }
    }
    if text::same(v, "True") || text::same(v, "true") {
        return json::boolean(true);
    }
    if text::same(v, "False") || text::same(v, "false") {
        return json::boolean(false);
    }
    match text::parse_i64(v) {
        Some(i) => json::sint(i),
        None => match json::print_float(v) {
            Some(t) => Json::Number(json::Number::Float(t)),
            None => json::string(v),
        },
    }
}

/// Parse `k="v", n=1, b=true` into the members of a JSON object, respecting quotes so a comma
/// inside a string doesn't split an argument.
fn parse_kwargs(s: &str) -> (r: Vec<(String, Json)>)
    ensures
        json::members_model(r@) == keyword_arguments(
            arguments_in(s@),
            arguments_in(s@).len() as int,
        ),
{
    let parts = split_top_level(s);
    let ghost pv = text::views(parts@);
    let mut members = json::members();
    let mut i: usize = 0;
    while i < parts.len()
        invariant
            0 <= i <= parts@.len(),
            pv == text::views(parts@),
            json::members_model(members@) == keyword_arguments(pv, i as int),
        decreases parts@.len() - i,
    {
        let part = parts[i].as_str();
        let len = part.unicode_len();
        assert(pv[i as int] == part@);
        if let Some(eq) = text::find_char(part, '=') {
            let key = text::trim(part.substring_char(0, eq));
            if key.unicode_len() > 0 {
                let val = part.substring_char(eq + 1, len);
                json::set(&mut members, key, py_value(val));
            }
        }
        i += 1;
    }
    members
}

fn identifier(s: &str) -> (r: bool)
    ensures
        r == is_identifier(s@),
{
    let v = text::chars_of(s);
    if v.len() == 0 {
        return false;
    }
    let mut i: usize = 0;
    while i < v.len()
        invariant
            0 <= i <= v@.len(),
            v@ == s@,
            forall|k: int| 0 <= k < i ==> text::alphanumeric(#[trigger] s@[k]) || s@[k] == '_',
        decreases v@.len() - i,
    {
        if !(text::is_alphanumeric(v[i]) || v[i] == '_') {
            assert(!(text::alphanumeric(s@[i as int]) || s@[i as int] == '_'));
            return false;
        }
        i += 1;
    }
    true
}

/// Whether `s` ends with the `)` of a bracket that was opened before `s`.
fn ends_outside(s: &str) -> (r: bool)
    ensures
        r == closes_outside(s@),
{
    let v = text::chars_of(s);
    if v.len() == 0 || v[v.len() - 1] != ')' {
        return false;
    }
    let n = v.len() - 1;
    let mut quote: Option<char> = None;
    let mut depth: i128 = 0;
    let mut i: usize = 0;
    while i < n
        invariant
            0 <= i <= n,
            n < v.len(),
            v@ == s@,
            quote == scan(s@, i as int).quote,
            depth == scan(s@, i as int).depth,
            -(i as int) <= depth <= i,
        decreases n - i,
    {
        let c = v[i];
        match quote {
            Some(q) => {
                if c == q {
                    quote = None;
                }
            },
            None => {
                if c == '"' || c == '\'' {
                    quote = Some(c);
                } else if c == '[' || c == '{' || c == '(' {
                    depth = depth + 1;
                } else if c == ']' || c == '}' || c == ')' {
                    depth = depth - 1;
                }
            },
        }
        i += 1;
    }
    quote.is_none() && depth == 0
}

/// The line without a `print(...)` around the call.
fn without_print<'a>(raw: &'a str) -> (r: &'a str)
    ensures
        r@ == unprinted(raw@),
{
    let line = text::trim(raw);
    match text::strip_prefix(line, "print(") {
        Some(rest) => if ends_outside(rest) {
            rest.substring_char(0, rest.unicode_len() - 1)
        } else {
            rest
        },
        None => line,
    }
}

fn parse_python_call(raw: &str) -> (r: Option<TextCall>)
    ensures
        opt_call(r) == python_call(raw@),
{
    let line = without_print(raw);
    let paren = match text::find_char(line, '(') {
        Some(p) => p,
        None => {
            return None;
        },
    };
    let name = text::trim(line.substring_char(0, paren));
    if !identifier(name) {
        return None;
    }
    let close = match text::rfind_char(line, ')') {
        Some(c) => c,
        None => {
            return None;
        },
    };
    if close < paren {
        return None;
    }
    proof {
        text::lemma_next_char(line@, '(', 0);
        lemma_last_char(line@, ')', line@.len() as int);
    }
    let args = parse_kwargs(line.substring_char(paren + 1, close));
    Some(TextCall { name: name.to_string(), input: json::object(args) })
}

proof fn lemma_last_char(s: Seq<char>, c: char, n: int)
    requires
        0 <= n <= s.len(),
    ensures
        text::last_char(s, c, n) < n,
        text::last_char(s, c, n) >= 0 ==> s[text::last_char(s, c, n)] == c,
    decreases n,
{
    if n > 0 && s[n - 1] != c {
        lemma_last_char(s, c, n - 1);
    }
}

/// Parse one or more Python-style calls: `func(k="v", n=1)`, optionally wrapped in `print(...)`.
pub fn parse_python_calls(s: &str) -> (r: Vec<TextCall>)
    ensures
        text::views(r@) == python_calls_in(s@),
{
    let lines = text::lines(s);
    let ghost lv = text::views(lines@);
    let mut out: Vec<TextCall> = Vec::new();
    proof {
        text::views_empty(out@);
    }
    let mut i: usize = 0;
    while i < lines.len()
        invariant
            0 <= i <= lines@.len(),
            lv == text::views(lines@),
            text::views(out@) == python_calls(lv, i as int),
        decreases lines@.len() - i,
    {
        assert(lv[i as int] == lines@[i as int]@);
        if let Some(call) = parse_python_call(lines[i]) {
            out.push(call);
        }
        i += 1;
    }
    out
}

/// Parse the inside of a tool-call tag: JSON object, or the `call:NAME{...}` DSL, or a bare
/// Python-style call.
fn parse_inner(inner: &str) -> (r: Option<TextCall>)
    ensures
        opt_call(r) == tagged_call(inner@),
{
    let s = text::trim(inner);
    if s.unicode_len() > 0 && s.get_char(0) == '{' {
        return parse_json_call(s);
    }
    if let Some(rest) = text::strip_prefix(s, "call:") {
        return parse_dsl_call(rest);
    }
    let mut calls = parse_python_calls(s);
    let ghost cv = text::views(calls@);
    if calls.len() > 0 {
        assert(cv[0] == calls@[0]@);
        Some(calls.remove(0))
    } else {
        assert(cv.len() == 0);
        None
    }
}

/// Strips the regions between `open` and `close`, appending the calls in them.
fn strip_tags(clean: String, open: &str, close: &str, calls: &mut Vec<TextCall>) -> (r: String)
    requires
        open@.len() > 0,
    ensures
        ({
            let (rest, found) = untagged(clean@, open@, close@);
            r@ == rest && text::views(final(calls)@) == text::views(old(calls)@) + found
        }),
{
    let ghost before = text::views(calls@);
    let ghost meant = untagged(clean@, open@, close@);
    let mut clean = clean;
    assert(before + meant.1 == text::views(calls@) + meant.1);
    loop
        invariant_except_break
            open@.len() > 0,
            meant.0 == untagged(clean@, open@, close@).0,
            before + meant.1 == text::views(calls@) + untagged(clean@, open@, close@).1,
        ensures
            clean@ == meant.0,
            text::views(calls@) == before + meant.1,
        decreases clean@.len(),
    {
        let v = text::chars_of(clean.as_str());
        let len = v.len();
        let w = text::chars_of(close);
        let ghost s = clean@;
        let ghost sofar = text::views(calls@);
        assert(sofar + Seq::<TextCallView>::empty() =~= sofar);
        let o = match text::find(clean.as_str(), open) {
            Some(o) => o,
            None => {
                break;
            },
        };
        let start = o + open.unicode_len();
        let c = match text::find_from(&v, &w, start) {
            Some(c) => c,
            None => {
                break;
            },
        };
        proof {
            text::lemma_found_from(s, open@, 0);
            text::lemma_found_from(s, close@, start as int);
        }
        let inner = text::string_of(&v, start, c);
        let found = parse_inner(inner.as_str());
        let ghost fv = opt_call(found);
        if let Some(call) = found {
            calls.push(call);
        }
        assert(text::views(calls@) =~= sofar + opt_seq(fv));
        let mut rest = text::string_of(&v, 0, o);
        rest.append(text::string_of(&v, c + w.len(), len).as_str());
        proof {
            let more = untagged(rest@, open@, close@).1;
            assert(sofar + (opt_seq(fv) + more) =~= sofar + opt_seq(fv) + more);
        }
        clean = rest;
    }
    clean
}

/// The inner text of every fence that begins with `open`.
fn fenced(s: &str, open: &str) -> (r: Vec<String>)
    ensures
        text::views(r@) == fences_from(s@, open@, 0),
{
    let v = text::chars_of(s);
    let w = text::chars_of(open);
    let tick = text::chars_of("```");
    let mut out: Vec<String> = Vec::new();
    proof {
        text::views_empty(out@);
        reveal_strlit("```");
    }
    let ghost meant = fences_from(s@, open@, 0);
    assert(text::views(out@) + meant =~= meant);
    let mut i: usize = 0;
    loop
        invariant_except_break
            text::views(out@) + fences_from(s@, open@, i as int) == meant,
        invariant
            0 <= i <= v.len(),
            v@ == s@,
            w@ == open@,
            tick@ == "```"@,
            "```"@.len() == 3,
        ensures
            text::views(out@) == meant,
        decreases v@.len() - i,
    {
        let ghost sofar = text::views(out@);
        assert(sofar + Seq::<Seq<char>>::empty() =~= sofar);
        proof {
            text::lemma_found_from(s@, open@, i as int);
        }
        let o = match text::find_from(&v, &w, i) {
            Some(o) => o,
            None => {
                break;
            },
        };
        let start = o + w.len();
        let c = match text::find_from(&v, &tick, start) {
            Some(c) => c,
            None => {
                break;
            },
        };
        proof {
            text::lemma_found_from(s@, "```"@, start as int);
        }
        let inner = text::string_of(&v, start, c);
        out.push(text::trim(inner.as_str()).to_string());
        proof {
            let rest = fences_from(s@, open@, c + 3);
            let one = seq![text::trimmed(s@.subrange(start as int, c as int))];
            assert(sofar + (one + rest) =~= text::views(out@) + rest);
        }
        i = c + 3;
    }
    out
}

/// The text without its fences that begin with `open`.
fn strip_fences(clean: String, open: &str) -> (r: String)
    ensures
        r@ == unfenced(clean@, open@),
{
    let ghost meant = unfenced(clean@, open@);
    let mut clean = clean;
    let w = text::chars_of(open);
    let tick = text::chars_of("```");
    proof {
        reveal_strlit("```");
    }
    loop
        invariant_except_break
            unfenced(clean@, open@) == meant,
        invariant
            w@ == open@,
            tick@ == "```"@,
            "```"@.len() == 3,
        ensures
            clean@ == meant,
        decreases clean@.len(),
    {
        let v = text::chars_of(clean.as_str());
        let len = v.len();
        let ghost s = clean@;
        proof {
            text::lemma_found_from(s, open@, 0);
        }
        let o = match text::find_from(&v, &w, 0) {
            Some(o) => o,
            None => {
                break;
            },
        };
        let start = o + w.len();
        let c = match text::find_from(&v, &tick, start) {
            Some(c) => c,
            None => {
                break;
            },
        };
        proof {
            text::lemma_found_from(s, "```"@, start as int);
        }
        let mut rest = text::string_of(&v, 0, o);
        rest.append(text::string_of(&v, c + 3, len).as_str());
        clean = rest;
    }
    clean
}

/// Split `s` into the leftover prose (call regions removed) and the parsed calls.
pub fn extract(s: &str) -> (r: (String, Vec<TextCall>))
    ensures
        r.0@ == extracted(s@).0,
        text::views(r.1@) == extracted(s@).1,
{
    let mut calls: Vec<TextCall> = Vec::new();
    proof {
        text::views_empty(calls@);
        reveal_strlit("<|tool_call>");
        reveal_strlit("<tool_call>");
        reveal_strlit("[TOOL_CALL]");
        reveal_strlit("[TOOL_CALLS]");
    }
    // Tagged blocks.
    let s1 = strip_tags(s.to_string(), "<|tool_call>", "<tool_call|>", &mut calls);
    let s2 = strip_tags(s1, "<tool_call>", "</tool_call>", &mut calls);
    let s3 = strip_tags(s2, "[TOOL_CALL]", "[/TOOL_CALL]", &mut calls);
    let s4 = strip_tags(s3, "[TOOL_CALLS]", "[/TOOL_CALLS]", &mut calls);
    let ghost tagged = text::views(calls@);
    // Fenced ```tool_code python-style calls.
    let fences = fenced(s4.as_str(), FENCE);
    let ghost fv = text::views(fences@);
    let mut i: usize = 0;
    assert(tagged + fenced_calls(fv, 0) =~= tagged);
    while i < fences.len()
        invariant
            0 <= i <= fences@.len(),
            fv == text::views(fences@),
            text::views(calls@) == tagged + fenced_calls(fv, i as int),
        decreases fences@.len() - i,
    {
        assert(fv[i as int] == fences@[i as int]@);
        let ghost had = calls@;
        let mut found = parse_python_calls(fences[i].as_str());
        let ghost more = found@;
        calls.append(&mut found);
        i += 1;
        proof {
            assert(text::views(calls@) =~= text::views(had) + text::views(more));
            assert(tagged + fenced_calls(fv, i - 1) + text::views(more) =~= tagged + (fenced_calls(
                fv,
                i - 1,
            ) + text::views(more)));
        }
    }
    assert(text::views(calls@) =~= extracted(s@).1);
    // Strip the fences from the prose once parsed.
    (strip_fences(s4, FENCE), calls)
}

/// Convert any text-encoded tool calls in `msg`'s text blocks into [`ContentBlock::ToolUse`] blocks
/// (with synthetic ids) and strip them from the surrounding text. Returns how many were recovered.
pub fn recover_text_tool_calls(msg: &mut Message) -> (r: usize)
    ensures
        r == calls_before(old(msg)@.content, old(msg)@.content.len() as int),
        final(msg)@ == (MessageView {
            role: old(msg)@.role,
            content: recovered(old(msg)@.content, old(msg)@.content.len() as int),
        }),
{
    let ghost cv = msg@.content;
    let mut count: usize = 0;
    let mut blocks: Vec<ContentBlock> = Vec::new();
    proof {
        text::views_empty(blocks@);
    }
    let mut i: usize = 0;
    while i < msg.content.len()
        invariant
            0 <= i <= msg.content@.len(),
            cv == text::views(msg.content@),
            msg@ == old(msg)@,
            count == calls_before(cv, i as int),
            count <= blocks@.len(),
            text::views(blocks@) == recovered(cv, i as int),
        decreases msg.content@.len() - i,
    {
        let block = &msg.content[i];
        assert(cv[i as int] == block@);
        let ghost before = text::views(blocks@);
        let ghost first = count as nat;
        match block {
            ContentBlock::Text { text } => {
                let (clean, calls) = extract(text.as_str());
                let ghost fv = text::views(calls@);
                let prose = text::trim(clean.as_str());
                if prose.unicode_len() > 0 {
                    blocks.push(ContentBlock::text(prose));
                }
                let ghost said = text::views(blocks@);
                let mut k: usize = 0;
                assert(said + numbered(fv, first, 0) =~= said);
                while k < calls.len()
                    invariant
                        0 <= k <= calls@.len(),
                        fv == text::views(calls@),
                        count == first + k,
                        count <= blocks@.len(),
                        text::views(blocks@) == said + numbered(fv, first, k as int),
                    decreases calls@.len() - k,
                {
                    assert(fv[k as int] == calls@[k as int]@);
                    let ghost sofar = numbered(fv, first, k as int);
                    let block = ContentBlock::ToolUse {
                        id: text::concat2("call_", text::decimal_of(count as u64).as_str()),
                        name: calls[k].name.clone(),
                        input: calls[k].input.copy(),
                    };
                    blocks.push(block);
                    assert((said + sofar).push(block@) =~= said + sofar.push(block@));
                    let total = blocks.len();
                    assert(count < total);
                    count += 1;
                    k += 1;
                }
                proof {
                    assert(text::views(blocks@) =~= before + recovered_block(cv[i as int], first));
                }
            },
            other => {
                blocks.push(other.copy());
                proof {
                    assert(text::views(blocks@) =~= before + recovered_block(cv[i as int], first));
                }
            },
        }
        i += 1;
    }
    msg.content = blocks;
    count
}

} // verus!
