//! What a request tells a provider of the model and of the tools.

use crate::engine::types::ToolView;
use crate::json;
use crate::json::JsonSpec;
use crate::provider::anthropic_messages;
use crate::provider::openai_chat;
use crate::provider::openai_responses;
use vstd::prelude::*;
use vstd::string::*;

verus! {

/// The model that is asked for is the one used, and the provider's own where none is asked for.
pub proof fn the_asked_model_is_used(own: Seq<char>, asked: Seq<char>)
    ensures
        asked.len() > 0 ==> openai_chat::chosen_model(own, asked) == asked,
        openai_chat::chosen_model(own, Seq::empty()) == own,
{
}

/// The object tells a tool: its name, what it is for and what it takes.
pub open spec fn tells(j: JsonSpec, t: ToolView, schema: Seq<char>) -> bool {
    &&& json::string_field(j, "name"@) == Some(t.name)
    &&& json::string_field(j, "description"@) == Some(t.description)
    &&& json::field(j, schema) == Some(t.input_schema)
}

/// Each provider is told every tool, in order, under the names that it expects.
pub proof fn every_tool_is_told(tools: Seq<ToolView>, i: int)
    requires
        0 <= i < tools.len(),
    ensures
        ({
            &&& openai_chat::rendered_tools(tools) matches JsonSpec::Array(told)
            &&& told.len() == tools.len()
            &&& json::string_field(told[i], "type"@) == Some("function"@)
            &&& tells(json::field_or_null(told[i], "function"@), tools[i], "parameters"@)
        }),
        ({
            &&& openai_responses::rendered_tools(tools) matches JsonSpec::Array(told)
            &&& told.len() == tools.len()
            &&& json::string_field(told[i], "type"@) == Some("function"@)
            &&& tells(told[i], tools[i], "parameters"@)
        }),
        ({
            &&& anthropic_messages::rendered_tools(tools) matches JsonSpec::Array(told)
            &&& told.len() == tools.len()
            &&& tells(told[i], tools[i], "input_schema"@)
            &&& json::field(told[i], "cache_control"@) is Some <==> i == tools.len() - 1
        }),
{
    reveal_strlit("type");
    reveal_strlit("function");
    reveal_strlit("name");
    reveal_strlit("description");
    reveal_strlit("parameters");
    reveal_strlit("input_schema");
    reveal_strlit("cache_control");
    assert("type"@.len() == 4 && "name"@.len() == 4 && "type"@[0] == 't' && "name"@[0] == 'n');
    assert("function"@.len() == 8 && "description"@.len() == 11 && "parameters"@.len() == 10);
    assert("input_schema"@.len() == 12 && "cache_control"@.len() == 13);
    reveal_with_fuel(json::member_from, 6);
}

/// The system prompt is told whole, and nothing is told where there is none.
pub proof fn the_system_prompt_is_told(system: Seq<char>)
    requires
        system.len() > 0,
    ensures
        ({
            &&& anthropic_messages::system_member(system) matches Some(JsonSpec::Array(parts))
            &&& parts.len() == 1
            &&& json::string_field(parts[0], "text"@) == Some(system)
        }),
        anthropic_messages::system_member(Seq::empty()) is None,
{
    reveal_strlit("type");
    reveal_strlit("text");
    assert("type"@[1] == 'y' && "text"@[1] == 'e');
    reveal_with_fuel(json::member_from, 4);
}

} // verus!
