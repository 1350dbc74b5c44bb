//! The JSON form of messages: what is written of a conversation, and how it is read again.

use super::types;
use super::types::{
    BlockView,
    ContentBlock,
    Message,
    MessageView,
    OutputView,
    Role,
    ToolOutput,
};
use crate::json;
use crate::json::{Json, JsonSpec, NumberSpec};
use crate::text;
use vstd::prelude::*;
use vstd::string::*;

verus! {

// ---- writing --------------------------------------------------------------------------------

pub open spec fn role_name(role: Role) -> Seq<char> {
    match role {
        Role::System => "system"@,
        Role::User => "user"@,
        Role::Assistant => "assistant"@,
        Role::Tool => "tool"@,
    }
}

/// The JSON form of a tool's output.
pub open spec fn output_json(out: OutputView) -> JsonSpec {
    JsonSpec::Object(
        json::pairs3(
            "is_error"@,
            JsonSpec::Bool(out.is_error),
            "saved"@,
            JsonSpec::Number(NumberSpec::PosInt(out.saved)),
            "text"@,
            JsonSpec::Str(out.text),
        ),
    )
}

/// The JSON form of a block.
pub open spec fn block_json(block: BlockView) -> JsonSpec {
    match block {
        BlockView::Text { text } => JsonSpec::Object(
            json::pairs2("text"@, JsonSpec::Str(text), "type"@, JsonSpec::Str("text"@)),
        ),
        BlockView::Thinking { text } => JsonSpec::Object(
            json::pairs2("text"@, JsonSpec::Str(text), "type"@, JsonSpec::Str("thinking"@)),
        ),
        BlockView::ToolUse { id, name, input } => JsonSpec::Object(
            json::pairs4(
                "id"@,
                JsonSpec::Str(id),
                "input"@,
                input,
                "name"@,
                JsonSpec::Str(name),
                "type"@,
                JsonSpec::Str("tool_use"@),
            ),
        ),
        BlockView::ToolResult { id, out } => JsonSpec::Object(
            json::pairs3(
                "id"@,
                JsonSpec::Str(id),
                "out"@,
                output_json(out),
                "type"@,
                JsonSpec::Str("tool_result"@),
            ),
        ),
        BlockView::Image { media_type, data } => JsonSpec::Object(
            json::pairs3(
                "data"@,
                JsonSpec::Str(data),
                "media_type"@,
                JsonSpec::Str(media_type),
                "type"@,
                JsonSpec::Str("image"@),
            ),
        ),
    }
}

/// The JSON forms of a message's blocks.
pub open spec fn blocks_json(blocks: Seq<BlockView>) -> Seq<JsonSpec> {
    blocks.map_values(|b: BlockView| block_json(b))
}

/// The JSON form of a message.
pub open spec fn message_json(m: MessageView) -> JsonSpec {
    JsonSpec::Object(
        json::pairs2(
            "content"@,
            JsonSpec::Array(blocks_json(m.content)),
            "role"@,
            JsonSpec::Str(role_name(m.role)),
        ),
    )
}

/// The name under which a role is written.
pub fn role_text(role: Role) -> (r: &'static str)
    ensures
        r@ == role_name(role),
{
    match role {
        Role::System => "system",
        Role::User => "user",
        Role::Assistant => "assistant",
        Role::Tool => "tool",
    }
}

fn output_to_json(out: &ToolOutput) -> (r: Json)
    ensures
        r.model() == output_json(out@),
{
    let mut m = json::members();
    json::put(&mut m, "is_error", json::boolean(out.is_error));
    json::put(&mut m, "saved", json::uint(out.saved));
    json::put(&mut m, "text", json::string(out.text.as_str()));
    json::object(m)
}

fn block_to_json(block: &ContentBlock) -> (r: Json)
    ensures
        r.model() == block_json(block@),
{
    let mut m = json::members();
    match block {
        ContentBlock::Text { text } => {
            json::put(&mut m, "text", json::string(text.as_str()));
            json::put(&mut m, "type", json::string("text"));
        },
        ContentBlock::Thinking { text } => {
            json::put(&mut m, "text", json::string(text.as_str()));
            json::put(&mut m, "type", json::string("thinking"));
        },
        ContentBlock::ToolUse { id, name, input } => {
            json::put(&mut m, "id", json::string(id.as_str()));
            json::put(&mut m, "input", input.copy());
            json::put(&mut m, "name", json::string(name.as_str()));
            json::put(&mut m, "type", json::string("tool_use"));
        },
        ContentBlock::ToolResult { id, out } => {
            json::put(&mut m, "id", json::string(id.as_str()));
            json::put(&mut m, "out", output_to_json(out));
            json::put(&mut m, "type", json::string("tool_result"));
        },
        ContentBlock::Image { media_type, data } => {
            json::put(&mut m, "data", json::string(data.as_str()));
            json::put(&mut m, "media_type", json::string(media_type.as_str()));
            json::put(&mut m, "type", json::string("image"));
        },
    }
    json::object(m)
}

/// The JSON form of a message.
pub fn message_to_json(m: &Message) -> (r: Json)
    ensures
        r.model() == message_json(m@),
{
    let mut items = json::items();
    let ghost blocks = text::views(m.content@);
    let mut i: usize = 0;
    assert(blocks_json(blocks.take(0)) =~= Seq::empty());
    while i < m.content.len()
        invariant
            0 <= i <= m.content@.len(),
            blocks == text::views(m.content@),
            json::items_model(items@) == blocks_json(blocks.take(i as int)),
        decreases m.content@.len() - i,
    {
        let ghost before = json::items_model(items@);
        json::add_item(&mut items, block_to_json(&m.content[i]));
        i += 1;
        assert(blocks_json(blocks.take(i as int)) =~= before.push(block_json(blocks[i - 1])));
    }
    assert(blocks.take(i as int) =~= blocks);
    let mut members = json::members();
    json::put(&mut members, "content", json::array(items));
    json::put(&mut members, "role", json::string(role_text(m.role)));
    json::object(members)
}

// ---- reading --------------------------------------------------------------------------------

/// The role of a name.
pub open spec fn role_named(name: Seq<char>) -> Option<Role> {
    if name == "system"@ {
        Some(Role::System)
    } else if name == "user"@ {
        Some(Role::User)
    } else if name == "assistant"@ {
        Some(Role::Assistant)
    } else if name == "tool"@ {
        Some(Role::Tool)
    } else {
        None
    }
}

/// The role that a value holds: its name, or an object that holds null under its name.
pub open spec fn role_in(j: JsonSpec) -> Option<Role> {
    match j {
        JsonSpec::Str(name) => role_named(name),
        JsonSpec::Object(members) => if members.len() == 1 && members[0].1 is Null {
            role_named(members[0].0)
        } else {
            None
        },
        _ => None,
    }
}

/// The string that a record's field must hold.
pub open spec fn text_slot(j: JsonSpec, name: Seq<char>, pos: int) -> Option<Seq<char>> {
    match json::slot(j, name, pos) {
        Some(v) => json::string_in(v),
        None => None,
    }
}

/// The output that a value holds. All but the text may be left out.
pub open spec fn output_in(j: JsonSpec) -> Option<OutputView> {
    let is_error = match json::slot(j, "is_error"@, 1) {
        None => Some(false),
        Some(v) => json::bool_in(v),
    };
    let saved = match json::slot(j, "saved"@, 2) {
        None => Some(0u64),
        Some(v) => json::u64_in(v),
    };
    match (text_slot(j, "text"@, 0), is_error, saved) {
        (Some(text), Some(is_error), Some(saved)) => if json::is_record(j, 3) {
            Some(OutputView { text, is_error, saved })
        } else {
            None
        },
        _ => None,
    }
}

/// The block that a value holds. Its type comes first where the fields are listed in order.
pub open spec fn block_in(j: JsonSpec) -> Option<BlockView> {
    match text_slot(j, "type"@, 0) {
        None => None,
        Some(kind) => if kind == "text"@ {
            match text_slot(j, "text"@, 1) {
                Some(text) if json::is_record(j, 2) => Some(BlockView::Text { text }),
                _ => None,
            }
        } else if kind == "thinking"@ {
            match text_slot(j, "text"@, 1) {
                Some(text) if json::is_record(j, 2) => Some(BlockView::Thinking { text }),
                _ => None,
            }
        } else if kind == "tool_use"@ {
            match (text_slot(j, "id"@, 1), text_slot(j, "name"@, 2), json::slot(j, "input"@, 3)) {
                (Some(id), Some(name), Some(input)) if json::is_record(j, 4) => Some(
                    BlockView::ToolUse { id, name, input },
                ),
                _ => None,
            }
        } else if kind == "tool_result"@ {
            match (text_slot(j, "id"@, 1), json::slot(j, "out"@, 2)) {
                (Some(id), Some(out)) if json::is_record(j, 3) => match output_in(out) {
                    Some(out) => Some(BlockView::ToolResult { id, out }),
                    None => None,
                },
                _ => None,
            }
        } else if kind == "image"@ {
            match (text_slot(j, "media_type"@, 1), text_slot(j, "data"@, 2)) {
                (Some(media_type), Some(data)) if json::is_record(j, 3) => Some(
                    BlockView::Image { media_type, data },
                ),
                _ => None,
            }
        } else {
            None
        },
    }
}

/// The blocks that the first `n` items hold, all of them.
pub open spec fn blocks_in(items: Seq<JsonSpec>, n: int) -> Option<Seq<BlockView>>
    decreases n,
{
    if n <= 0 {
        Some(seq![])
    } else {
        match (blocks_in(items, n - 1), block_in(items[n - 1])) {
            (Some(before), Some(block)) => Some(before.push(block)),
            _ => None,
        }
    }
}

/// The message that a value holds.
pub open spec fn message_in(j: JsonSpec) -> Option<MessageView> {
    match (json::slot(j, "role"@, 0), json::slot(j, "content"@, 1)) {
        (Some(role), Some(JsonSpec::Array(items))) if json::is_record(j, 2) => match (
            role_in(role),
            blocks_in(items, items.len() as int),
        ) {
            (Some(role), Some(content)) => Some(MessageView { role, content }),
            _ => None,
        },
        _ => None,
    }
}

fn role_of(name: &str) -> (r: Option<Role>)
    ensures
        r == role_named(name@),
{
    if text::same(name, "system") {
        Some(Role::System)
    } else if text::same(name, "user") {
        Some(Role::User)
    } else if text::same(name, "assistant") {
        Some(Role::Assistant)
    } else if text::same(name, "tool") {
        Some(Role::Tool)
    } else {
        None
    }
}

fn role_from_json(j: &Json) -> (r: Option<Role>)
    ensures
        r == role_in(j.model()),
{
    match j {
        Json::Str(name) => role_of(name.as_str()),
        Json::Object(members) => if members.len() == 1 && members[0].1.is_null() {
            role_of(members[0].0.as_str())
        } else {
            None
        },
        _ => None,
    }
}

/// The string that a record's field must hold.
pub fn text_at(j: &Json, name: &str, pos: usize) -> (r: Option<String>)
    ensures
        text::opt_view(r) == text_slot(j.model(), name@, pos as int),
{
    match j.slot(name, pos) {
        Some(v) => match v.as_str() {
            Some(s) => Some(s.to_string()),
            None => None,
        },
        None => None,
    }
}

fn output_from_json(j: &Json) -> (r: Option<ToolOutput>)
    ensures
        match r {
            Some(out) => output_in(j.model()) == Some(out@),
            None => output_in(j.model()) is None,
        },
{
    if !j.is_record(3) {
        return None;
    }
    let text = text_at(j, "text", 0)?;
    let is_error = match j.slot("is_error", 1) {
        None => false,
        Some(v) => v.as_bool()?,
    };
    let saved = match j.slot("saved", 2) {
        None => 0,
        Some(v) => v.as_u64()?,
    };
    Some(ToolOutput { text, is_error, saved })
}

fn block_from_json(j: &Json) -> (r: Option<ContentBlock>)
    ensures
        match r {
            Some(b) => block_in(j.model()) == Some(b@),
            None => block_in(j.model()) is None,
        },
{
    let kind = text_at(j, "type", 0)?;
    if text::same(kind.as_str(), "text") {
        let text = text_at(j, "text", 1)?;
        if !j.is_record(2) {
            return None;
        }
        Some(ContentBlock::Text { text })
    } else if text::same(kind.as_str(), "thinking") {
        let text = text_at(j, "text", 1)?;
        if !j.is_record(2) {
            return None;
        }
        Some(ContentBlock::Thinking { text })
    } else if text::same(kind.as_str(), "tool_use") {
        let id = text_at(j, "id", 1)?;
        let name = text_at(j, "name", 2)?;
        let input = j.slot("input", 3)?;
        if !j.is_record(4) {
            return None;
        }
        Some(ContentBlock::ToolUse { id, name, input: input.copy() })
    } else if text::same(kind.as_str(), "tool_result") {
        let id = text_at(j, "id", 1)?;
        let out = j.slot("out", 2)?;
        if !j.is_record(3) {
            return None;
        }
        let out = output_from_json(out)?;
        Some(ContentBlock::ToolResult { id, out })
    } else if text::same(kind.as_str(), "image") {
        let media_type = text_at(j, "media_type", 1)?;
        let data = text_at(j, "data", 2)?;
        if !j.is_record(3) {
            return None;
        }
        Some(ContentBlock::Image { media_type, data })
    } else {
        None
    }
}

proof fn lemma_bad_block(items: Seq<JsonSpec>, bad: int, n: int)
    requires
        0 <= bad < n <= items.len(),
        block_in(items[bad]) is None,
    ensures
        blocks_in(items, n) is None,
    decreases n,
{
    if bad < n - 1 {
        lemma_bad_block(items, bad, n - 1);
    }
}

/// The message that a value holds.
pub fn message_from_json(j: &Json) -> (r: Option<Message>)
    ensures
        match r {
            Some(m) => message_in(j.model()) == Some(m@),
            None => message_in(j.model()) is None,
        },
{
    if !j.is_record(2) {
        return None;
    }
    let role = role_from_json(j.slot("role", 0)?)?;
    let items = j.slot("content", 1)?.as_array()?;
    let ghost all = json::items_model(items@);
    let mut content: Vec<ContentBlock> = Vec::new();
    assert(text::views(content@) =~= seq![]);
    let mut i: usize = 0;
    while i < items.len()
        invariant
            0 <= i <= items@.len(),
            all == json::items_model(items@),
            blocks_in(all, i as int) == Some(text::views(content@)),
            message_in(j.model()) is Some ==> blocks_in(all, all.len() as int) is Some,
        decreases items@.len() - i,
    {
        assert(all[i as int] == items@[i as int].model());
        match block_from_json(&items[i]) {
            Some(b) => {
                let ghost before = text::views(content@);
                content.push(b);
                assert(text::views(content@) =~= before.push(b@));
            },
            None => {
                proof {
                    lemma_bad_block(all, i as int, all.len() as int);
                }
                return None;
            },
        }
        i += 1;
    }
    Some(Message { role, content })
}

// ---- what is written reads back -------------------------------------------------------------

/// A block whose tool input, if it has one, is in the form that `serde_json` keeps.
pub open spec fn storable_block(block: BlockView) -> bool {
    match block {
        BlockView::ToolUse { id, name, input } => json::canonical(
            input,
            (json::MAX_DEPTH - 3) as nat,
        ),
        _ => true,
    }
}

/// A message whose tool inputs are in the form that `serde_json` keeps.
pub open spec fn storable(m: MessageView) -> bool {
    forall|i: int| 0 <= i < m.content.len() ==> storable_block(#[trigger] m.content[i])
}

proof fn lemma_role_names()
    ensures
        forall|role: Role| role_named(#[trigger] role_name(role)) == Some(role),
{
    reveal_strlit("system");
    reveal_strlit("user");
    reveal_strlit("assistant");
    reveal_strlit("tool");
    assert("system"@.len() == 6 && "assistant"@.len() == 9);
    assert("user"@[0] == 'u' && "tool"@[0] == 't' && "user"@.len() == 4 && "tool"@.len() == 4);
}

proof fn lemma_keys()
    ensures
        "content"@ != "role"@,
        text::precedes("content"@, "role"@),
        "text"@ != "type"@,
        text::precedes("text"@, "type"@),
        "id"@ != "input"@ && "id"@ != "name"@ && "id"@ != "type"@ && "id"@ != "out"@,
        "input"@ != "name"@ && "input"@ != "type"@ && "name"@ != "type"@ && "out"@ != "type"@,
        text::precedes("id"@, "input"@) && text::precedes("id"@, "name"@) && text::precedes(
            "id"@,
            "type"@,
        ) && text::precedes("id"@, "out"@),
        text::precedes("input"@, "name"@) && text::precedes("input"@, "type"@) && text::precedes(
            "name"@,
            "type"@,
        ) && text::precedes("out"@, "type"@),
        "is_error"@ != "saved"@ && "is_error"@ != "text"@ && "saved"@ != "text"@,
        text::precedes("is_error"@, "saved"@) && text::precedes("is_error"@, "text"@)
            && text::precedes("saved"@, "text"@),
        "data"@ != "media_type"@ && "data"@ != "type"@ && "media_type"@ != "type"@,
        text::precedes("data"@, "media_type"@) && text::precedes("data"@, "type"@)
            && text::precedes("media_type"@, "type"@),
{
    reveal_strlit("content");
    reveal_strlit("role");
    reveal_strlit("text");
    reveal_strlit("type");
    reveal_strlit("id");
    reveal_strlit("input");
    reveal_strlit("name");
    reveal_strlit("out");
    reveal_strlit("is_error");
    reveal_strlit("saved");
    reveal_strlit("data");
    reveal_strlit("media_type");
    reveal_with_fuel(text::precedes_from, 3);
    assert("text"@[1] == 'e' && "type"@[1] == 'y');
    assert("name"@[0] == 'n' && "type"@[0] == 't');
    assert("input"@[0] == 'i' && "input"@[1] == 'n' && "id"@[0] == 'i' && "id"@[1] == 'd');
    assert("content"@[0] == 'c' && "role"@[0] == 'r');
    assert("saved"@[0] == 's' && "text"@[0] == 't' && "is_error"@[0] == 'i');
    assert("data"@[0] == 'd' && "media_type"@[0] == 'm');
    assert("out"@[0] == 'o');
}

proof fn lemma_kinds()
    ensures
        "text"@ != "thinking"@ && "text"@ != "tool_use"@ && "text"@ != "tool_result"@ && "text"@
            != "image"@,
        "thinking"@ != "tool_use"@ && "thinking"@ != "tool_result"@ && "thinking"@ != "image"@,
        "tool_use"@ != "tool_result"@ && "tool_use"@ != "image"@ && "tool_result"@ != "image"@,
{
    reveal_strlit("text");
    reveal_strlit("thinking");
    reveal_strlit("tool_use");
    reveal_strlit("tool_result");
    reveal_strlit("image");
    assert("text"@.len() == 4 && "thinking"@.len() == 8 && "tool_use"@.len() == 8);
    assert("tool_result"@.len() == 11 && "image"@.len() == 5);
    assert("thinking"@[1] == 'h' && "tool_use"@[1] == 'o');
}

proof fn lemma_output_reads_back(out: OutputView)
    ensures
        output_in(output_json(out)) == Some(out),
        json::canonical(output_json(out), (json::MAX_DEPTH - 3) as nat),
{
    lemma_keys();
    reveal_with_fuel(json::member_from, 4);
    let ms = output_json(out)->Object_0;
    assert(ms.len() == 3);
    assert(ms[0].0 == "is_error"@ && ms[1].0 == "saved"@ && ms[2].0 == "text"@);
    let d = (json::MAX_DEPTH - 4) as nat;
    assert(json::canonical(ms[0].1, d) && json::canonical(ms[1].1, d) && json::canonical(
        ms[2].1,
        d,
    ));
}

proof fn lemma_block_is_canonical(block: BlockView)
    requires
        storable_block(block),
    ensures
        json::canonical(block_json(block), (json::MAX_DEPTH - 2) as nat),
{
    lemma_keys();
    let ms = block_json(block)->Object_0;
    let d = (json::MAX_DEPTH - 3) as nat;
    assert(forall|s: Seq<char>| #[trigger] json::canonical(JsonSpec::Str(s), d));
    match block {
        BlockView::Text { .. } | BlockView::Thinking { .. } => {
            assert(ms.len() == 2 && ms[0].0 == "text"@ && ms[1].0 == "type"@);
            assert(json::canonical(ms[0].1, d) && json::canonical(ms[1].1, d));
        },
        BlockView::ToolUse { id, name, input } => {
            assert(ms.len() == 4 && ms[0].0 == "id"@ && ms[1].0 == "input"@);
            assert(ms[2].0 == "name"@ && ms[3].0 == "type"@);
            assert(ms[1].1 == input);
            assert(json::canonical(ms[0].1, d) && json::canonical(ms[2].1, d));
            assert(json::canonical(ms[3].1, d));
        },
        BlockView::ToolResult { id, out } => {
            lemma_output_reads_back(out);
            assert(ms.len() == 3 && ms[0].0 == "id"@ && ms[1].0 == "out"@ && ms[2].0 == "type"@);
            assert(json::canonical(ms[0].1, d) && json::canonical(ms[2].1, d));
        },
        BlockView::Image { .. } => {
            assert(ms.len() == 3 && ms[0].0 == "data"@ && ms[1].0 == "media_type"@);
            assert(ms[2].0 == "type"@);
            assert(json::canonical(ms[0].1, d) && json::canonical(ms[1].1, d));
            assert(json::canonical(ms[2].1, d));
        },
    }
}

proof fn lemma_block_reads_back(block: BlockView)
    ensures
        block_in(block_json(block)) == Some(block),
{
    lemma_keys();
    lemma_kinds();
    reveal_with_fuel(json::member_from, 5);
    if let BlockView::ToolResult { id, out } = block {
        lemma_output_reads_back(out);
    }
}

proof fn lemma_blocks_read_back(blocks: Seq<BlockView>, n: int)
    requires
        0 <= n <= blocks.len(),
    ensures
        blocks_in(blocks_json(blocks), n) == Some(blocks.take(n)),
    decreases n,
{
    if n > 0 {
        lemma_blocks_read_back(blocks, n - 1);
        lemma_block_reads_back(blocks[n - 1]);
        assert(blocks.take(n) =~= blocks.take(n - 1).push(blocks[n - 1]));
    } else {
        assert(blocks.take(n) =~= seq![]);
    }
}

/// The JSON form of a message reads back as that message, and is of the form that `serde_json` keeps
/// where its tool inputs are.
pub proof fn a_message_reads_back(m: MessageView)
    ensures
        message_in(message_json(m)) == Some(m),
        storable(m) ==> json::canonical(message_json(m), json::MAX_DEPTH as nat),
{
    lemma_keys();
    lemma_role_names();
    lemma_blocks_read_back(m.content, m.content.len() as int);
    assert(m.content.take(m.content.len() as int) =~= m.content);
    assert(role_named(role_name(m.role)) == Some(m.role));
    reveal_with_fuel(json::member_from, 3);
    let ms = message_json(m)->Object_0;
    let items = blocks_json(m.content);
    assert(ms.len() == 2 && ms[0].0 == "content"@ && ms[1].0 == "role"@);
    assert(ms[0].1 == JsonSpec::Array(items));
    if storable(m) {
        assert forall|i: int| 0 <= i < items.len() implies json::canonical(
            #[trigger] items[i],
            (json::MAX_DEPTH - 2) as nat,
        ) by {
            lemma_block_is_canonical(m.content[i]);
        }
        let d = (json::MAX_DEPTH - 1) as nat;
        assert((d - 1) as nat == (json::MAX_DEPTH - 2) as nat);
        assert(json::canonical(ms[0].1, d));
        assert(json::canonical(ms[1].1, d));
    }
}

/// A role is read by its name, whether it stands alone or as the one member of an object.
pub proof fn a_role_is_read_by_its_name(role: Role, value: JsonSpec)
    ensures
        role_in(JsonSpec::Str(role_name(role))) == Some(role),
        role_in(JsonSpec::Object(seq![(role_name(role), JsonSpec::Null)])) == Some(role),
        !(value is Null) ==> role_in(JsonSpec::Object(seq![(role_name(role), value)])) is None,
{
    lemma_role_names();
    assert(role_named(role_name(role)) == Some(role));
}

} // verus!
