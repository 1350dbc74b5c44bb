//! The JSON form of stream events: what is written of a stream, and how it is read again.

use super::records;
use super::types::{EventView, Usage, WireEvent};
use crate::json;
use crate::json::{Json, JsonSpec, NumberSpec};
use crate::text;
use vstd::prelude::*;
use vstd::string::*;

verus! {

broadcast use crate::text::views_push;

// ---- writing --------------------------------------------------------------------------------

/// The JSON form of a count.
pub open spec fn count_json(n: u64) -> JsonSpec {
    JsonSpec::Number(NumberSpec::PosInt(n))
}

/// The JSON form of token counts.
pub open spec fn usage_json(u: Usage) -> JsonSpec {
    JsonSpec::Object(
        json::pairs4(
            "cache_read"@,
            count_json(u.cache_read),
            "cache_write"@,
            count_json(u.cache_write),
            "input_tokens"@,
            count_json(u.input_tokens),
            "output_tokens"@,
            count_json(u.output_tokens),
        ),
    )
}

/// What stands under the name of an event that says something.
pub open spec fn event_content(ev: EventView) -> JsonSpec {
    match ev {
        EventView::TextDelta(s) => JsonSpec::Str(s),
        EventView::ThinkingDelta(s) => JsonSpec::Str(s),
        EventView::ToolUseStart { id, name } => JsonSpec::Object(
            json::pairs2("id"@, JsonSpec::Str(id), "name"@, JsonSpec::Str(name)),
        ),
        EventView::ToolInputDelta { id, json } => JsonSpec::Object(
            json::pairs2("id"@, JsonSpec::Str(id), "json"@, JsonSpec::Str(json)),
        ),
        EventView::ToolUseEnd { id } => JsonSpec::Object(json::pairs1("id"@, JsonSpec::Str(id))),
        EventView::Usage(u) => usage_json(u),
        EventView::Done => JsonSpec::Null,
        EventView::Error(e) => JsonSpec::Str(e),
    }
}

/// The name under which an event is written.
pub open spec fn event_name(ev: EventView) -> Seq<char> {
    match ev {
        EventView::TextDelta(_) => "TextDelta"@,
        EventView::ThinkingDelta(_) => "ThinkingDelta"@,
        EventView::ToolUseStart { .. } => "ToolUseStart"@,
        EventView::ToolInputDelta { .. } => "ToolInputDelta"@,
        EventView::ToolUseEnd { .. } => "ToolUseEnd"@,
        EventView::Usage(_) => "Usage"@,
        EventView::Done => "Done"@,
        EventView::Error(_) => "Error"@,
    }
}

/// The JSON form of an event: its name with what it says, or the bare name where it says nothing.
pub open spec fn event_json(ev: EventView) -> JsonSpec {
    if ev is Done {
        JsonSpec::Str(event_name(ev))
    } else {
        JsonSpec::Object(json::pairs1(event_name(ev), event_content(ev)))
    }
}

/// The JSON forms of events.
pub open spec fn events_json(events: Seq<EventView>) -> Seq<JsonSpec> {
    events.map_values(|e: EventView| event_json(e))
}

fn usage_to_json(u: &Usage) -> (r: Json)
    ensures
        r.model() == usage_json(*u),
{
    let mut m = json::members();
    json::put(&mut m, "cache_read", json::uint(u.cache_read));
    json::put(&mut m, "cache_write", json::uint(u.cache_write));
    json::put(&mut m, "input_tokens", json::uint(u.input_tokens));
    json::put(&mut m, "output_tokens", json::uint(u.output_tokens));
    json::object(m)
}

/// The JSON form of an event.
pub fn event_to_json(ev: &WireEvent) -> (r: Json)
    ensures
        r.model() == event_json(ev@),
{
    let mut said = json::members();
    let (name, content) = match ev {
        WireEvent::TextDelta(s) => ("TextDelta", json::string(s.as_str())),
        WireEvent::ThinkingDelta(s) => ("ThinkingDelta", json::string(s.as_str())),
        WireEvent::ToolUseStart { id, name } => {
            json::put(&mut said, "id", json::string(id.as_str()));
            json::put(&mut said, "name", json::string(name.as_str()));
            ("ToolUseStart", json::object(said))
        },
        WireEvent::ToolInputDelta { id, json } => {
            json::put(&mut said, "id", json::string(id.as_str()));
            json::put(&mut said, "json", json::string(json.as_str()));
            ("ToolInputDelta", json::object(said))
        },
        WireEvent::ToolUseEnd { id } => {
            json::put(&mut said, "id", json::string(id.as_str()));
            ("ToolUseEnd", json::object(said))
        },
        WireEvent::Usage(u) => ("Usage", usage_to_json(u)),
        WireEvent::Done => {
            return json::string("Done");
        },
        WireEvent::Error(e) => ("Error", json::string(e.as_str())),
    };
    let mut m = json::members();
    json::put(&mut m, name, content);
    json::object(m)
}

// ---- reading --------------------------------------------------------------------------------

/// The count that a record's field must hold.
pub open spec fn count_slot(j: JsonSpec, name: Seq<char>, pos: int) -> Option<u64> {
    match json::slot(j, name, pos) {
        Some(v) => json::u64_in(v),
        None => None,
    }
}

/// The token counts that a value holds.
pub open spec fn usage_in(j: JsonSpec) -> Option<Usage> {
    match (
        count_slot(j, "input_tokens"@, 0),
        count_slot(j, "output_tokens"@, 1),
        count_slot(j, "cache_read"@, 2),
        count_slot(j, "cache_write"@, 3),
    ) {
        (Some(input_tokens), Some(output_tokens), Some(cache_read), Some(cache_write)) =>
            if json::is_record(j, 4) {
                Some(Usage { input_tokens, output_tokens, cache_read, cache_write })
            } else {
                None
            },
        _ => None,
    }
}

/// The event of this name that says `content`.
pub open spec fn event_said(name: Seq<char>, content: JsonSpec) -> Option<EventView> {
    if name == "TextDelta"@ {
        match json::string_in(content) {
            Some(s) => Some(EventView::TextDelta(s)),
            None => None,
        }
    } else if name == "ThinkingDelta"@ {
        match json::string_in(content) {
            Some(s) => Some(EventView::ThinkingDelta(s)),
            None => None,
        }
    } else if name == "ToolUseStart"@ {
        match (records::text_slot(content, "id"@, 0), records::text_slot(content, "name"@, 1)) {
            (Some(id), Some(name)) if json::is_record(content, 2) => Some(
                EventView::ToolUseStart { id, name },
            ),
            _ => None,
        }
    } else if name == "ToolInputDelta"@ {
        match (records::text_slot(content, "id"@, 0), records::text_slot(content, "json"@, 1)) {
            (Some(id), Some(json)) if json::is_record(content, 2) => Some(
                EventView::ToolInputDelta { id, json },
            ),
            _ => None,
        }
    } else if name == "ToolUseEnd"@ {
        match records::text_slot(content, "id"@, 0) {
            Some(id) if json::is_record(content, 1) => Some(EventView::ToolUseEnd { id }),
            _ => None,
        }
    } else if name == "Usage"@ {
        match usage_in(content) {
            Some(u) => Some(EventView::Usage(u)),
            None => None,
        }
    } else if name == "Done"@ {
        if content is Null {
            Some(EventView::Done)
        } else {
            None
        }
    } else if name == "Error"@ {
        match json::string_in(content) {
            Some(e) => Some(EventView::Error(e)),
            None => None,
        }
    } else {
        None
    }
}

/// The event that a value holds: its name with what it says. The bare name will do for the event
/// that says nothing.
pub open spec fn event_in(j: JsonSpec) -> Option<EventView> {
    match j {
        JsonSpec::Str(name) => if name == "Done"@ {
            Some(EventView::Done)
        } else {
            None
        },
        JsonSpec::Object(members) => if members.len() == 1 {
            event_said(members[0].0, members[0].1)
        } else {
            None
        },
        _ => None,
    }
}

/// The events that the first `n` items hold, all of them.
pub open spec fn events_in(items: Seq<JsonSpec>, n: int) -> Option<Seq<EventView>>
    decreases n,
{
    if n <= 0 {
        Some(seq![])
    } else {
        match (events_in(items, n - 1), event_in(items[n - 1])) {
            (Some(before), Some(ev)) => Some(before.push(ev)),
            _ => None,
        }
    }
}

/// The events that a text holds: an array of them.
pub open spec fn events_meant(file: Seq<char>) -> Option<Seq<EventView>> {
    match json::json_parsed(file) {
        Ok(JsonSpec::Array(items)) => events_in(items, items.len() as int),
        _ => None,
    }
}

fn count_at(j: &Json, name: &str, pos: usize) -> (r: Option<u64>)
    ensures
        r == count_slot(j.model(), name@, pos as int),
{
    match j.slot(name, pos) {
        Some(v) => v.as_u64(),
        None => None,
    }
}

fn usage_from_json(j: &Json) -> (r: Option<Usage>)
    ensures
        r == usage_in(j.model()),
{
    if !j.is_record(4) {
        return None;
    }
    let input_tokens = count_at(j, "input_tokens", 0)?;
    let output_tokens = count_at(j, "output_tokens", 1)?;
    let cache_read = count_at(j, "cache_read", 2)?;
    let cache_write = count_at(j, "cache_write", 3)?;
    Some(Usage { input_tokens, output_tokens, cache_read, cache_write })
}

fn said_in(name: &str, content: &Json) -> (r: Option<WireEvent>)
    ensures
        match r {
            Some(ev) => event_said(name@, content.model()) == Some(ev@),
            None => event_said(name@, content.model()) is None,
        },
{
    if text::same(name, "TextDelta") {
        Some(WireEvent::TextDelta(content.as_str()?.to_string()))
    } else if text::same(name, "ThinkingDelta") {
        Some(WireEvent::ThinkingDelta(content.as_str()?.to_string()))
    } else if text::same(name, "ToolUseStart") {
        if !content.is_record(2) {
            return None;
        }
        let id = records::text_at(content, "id", 0)?;
        let name = records::text_at(content, "name", 1)?;
        Some(WireEvent::ToolUseStart { id, name })
    } else if text::same(name, "ToolInputDelta") {
        if !content.is_record(2) {
            return None;
        }
        let id = records::text_at(content, "id", 0)?;
        let json = records::text_at(content, "json", 1)?;
        Some(WireEvent::ToolInputDelta { id, json })
    } else if text::same(name, "ToolUseEnd") {
        if !content.is_record(1) {
            return None;
        }
        let id = records::text_at(content, "id", 0)?;
        Some(WireEvent::ToolUseEnd { id })
    } else if text::same(name, "Usage") {
        Some(WireEvent::Usage(usage_from_json(content)?))
    } else if text::same(name, "Done") {
        if content.is_null() {
            Some(WireEvent::Done)
        } else {
            None
        }
    } else if text::same(name, "Error") {
        Some(WireEvent::Error(content.as_str()?.to_string()))
    } else {
        None
    }
}

/// The event that a value holds.
pub fn event_from_json(j: &Json) -> (r: Option<WireEvent>)
    ensures
        match r {
            Some(ev) => event_in(j.model()) == Some(ev@),
            None => event_in(j.model()) is None,
        },
{
    match j {
        Json::Str(name) => if text::same(name.as_str(), "Done") {
            Some(WireEvent::Done)
        } else {
            None
        },
        Json::Object(members) => if members.len() == 1 {
            said_in(members[0].0.as_str(), &members[0].1)
        } else {
            None
        },
        _ => None,
    }
}

proof fn lemma_bad_event(items: Seq<JsonSpec>, bad: int, n: int)
    requires
        0 <= bad < n <= items.len(),
        event_in(items[bad]) is None,
    ensures
        events_in(items, n) is None,
    decreases n,
{
    if bad < n - 1 {
        lemma_bad_event(items, bad, n - 1);
    }
}

// ---- what is written reads back -------------------------------------------------------------

proof fn lemma_names()
    ensures
        "TextDelta"@.len() == 9 && "ThinkingDelta"@.len() == 13 && "ToolUseStart"@.len() == 12,
        "ToolInputDelta"@.len() == 14 && "ToolUseEnd"@.len() == 10 && "Usage"@.len() == 5,
        "Done"@.len() == 4 && "Error"@.len() == 5,
        "Usage"@ != "Error"@,
{
    reveal_strlit("TextDelta");
    reveal_strlit("ThinkingDelta");
    reveal_strlit("ToolUseStart");
    reveal_strlit("ToolInputDelta");
    reveal_strlit("ToolUseEnd");
    reveal_strlit("Usage");
    reveal_strlit("Done");
    reveal_strlit("Error");
    assert("Usage"@[0] == 'U' && "Error"@[0] == 'E');
}

proof fn lemma_keys()
    ensures
        "id"@ != "name"@ && "id"@ != "json"@,
        text::precedes("id"@, "name"@) && text::precedes("id"@, "json"@),
        "cache_read"@ != "cache_write"@ && "cache_read"@ != "input_tokens"@ && "cache_read"@
            != "output_tokens"@,
        "cache_write"@ != "input_tokens"@ && "cache_write"@ != "output_tokens"@,
        "input_tokens"@ != "output_tokens"@,
        text::precedes("cache_read"@, "cache_write"@) && text::precedes(
            "cache_read"@,
            "input_tokens"@,
        ) && text::precedes("cache_read"@, "output_tokens"@),
        text::precedes("cache_write"@, "input_tokens"@) && text::precedes(
            "cache_write"@,
            "output_tokens"@,
        ) && text::precedes("input_tokens"@, "output_tokens"@),
{
    reveal_strlit("id");
    reveal_strlit("name");
    reveal_strlit("json");
    reveal_strlit("cache_read");
    reveal_strlit("cache_write");
    reveal_strlit("input_tokens");
    reveal_strlit("output_tokens");
    reveal_with_fuel(text::precedes_from, 8);
    assert("id"@[0] == 'i' && "name"@[0] == 'n' && "json"@[0] == 'j');
    assert("cache_read"@[6] == 'r' && "cache_write"@[6] == 'w');
    assert("cache_read"@[0] == 'c' && "cache_write"@[0] == 'c');
    assert("input_tokens"@[0] == 'i' && "output_tokens"@[0] == 'o');
}

proof fn lemma_usage_reads_back(u: Usage)
    ensures
        usage_in(usage_json(u)) == Some(u),
        json::canonical(usage_json(u), (json::MAX_DEPTH - 2) as nat),
{
    lemma_keys();
    reveal_with_fuel(json::member_from, 5);
    let ms = usage_json(u)->Object_0;
    let d = (json::MAX_DEPTH - 3) as nat;
    assert(ms.len() == 4 && ms[0].0 == "cache_read"@ && ms[1].0 == "cache_write"@);
    assert(ms[2].0 == "input_tokens"@ && ms[3].0 == "output_tokens"@);
    assert(json::canonical(ms[0].1, d) && json::canonical(ms[1].1, d));
    assert(json::canonical(ms[2].1, d) && json::canonical(ms[3].1, d));
}

proof fn lemma_event_reads_back(ev: EventView)
    ensures
        event_in(event_json(ev)) == Some(ev),
        json::canonical(event_json(ev), (json::MAX_DEPTH - 1) as nat),
{
    lemma_names();
    lemma_keys();
    reveal_with_fuel(json::member_from, 3);
    let content = event_content(ev);
    let inner = (json::MAX_DEPTH - 3) as nat;
    assert(forall|s: Seq<char>| #[trigger] json::canonical(JsonSpec::Str(s), inner));
    match ev {
        EventView::Usage(u) => {
            lemma_usage_reads_back(u);
        },
        EventView::ToolUseStart { .. } | EventView::ToolInputDelta { .. } => {
            let ms = content->Object_0;
            assert(ms.len() == 2 && ms[0].0 == "id"@);
            assert(json::canonical(ms[0].1, inner) && json::canonical(ms[1].1, inner));
        },
        EventView::ToolUseEnd { .. } => {
            let ms = content->Object_0;
            assert(ms.len() == 1 && ms[0].0 == "id"@);
            assert(json::canonical(ms[0].1, inner));
        },
        _ => {},
    }
    assert(json::canonical(content, (json::MAX_DEPTH - 2) as nat));
    if !(ev is Done) {
        let ms = event_json(ev)->Object_0;
        assert(ms.len() == 1 && ms[0] == (event_name(ev), content));
    }
}

proof fn lemma_events_read_back(events: Seq<EventView>, n: int)
    requires
        0 <= n <= events.len(),
    ensures
        events_in(events_json(events), n) == Some(events.take(n)),
    decreases n,
{
    if n > 0 {
        lemma_events_read_back(events, n - 1);
        lemma_event_reads_back(events[n - 1]);
        assert(events.take(n) =~= events.take(n - 1).push(events[n - 1]));
    } else {
        assert(events.take(n) =~= seq![]);
    }
}

/// The JSON form of a stream reads back as that stream, and is of the form that `serde_json` keeps.
pub proof fn a_stream_reads_back(events: Seq<EventView>)
    ensures
        events_in(events_json(events), events.len() as int) == Some(events),
        json::canonical(JsonSpec::Array(events_json(events)), json::MAX_DEPTH as nat),
{
    lemma_events_read_back(events, events.len() as int);
    assert(events.take(events.len() as int) =~= events);
    let items = events_json(events);
    assert forall|i: int| 0 <= i < items.len() implies json::canonical(
        #[trigger] items[i],
        (json::MAX_DEPTH - 1) as nat,
    ) by {
        lemma_event_reads_back(events[i]);
    }
}

/// The text of a stream's events. It reads back as those events.
pub fn encode(events: &Vec<WireEvent>) -> (r: String)
    ensures
        r@ == json::json_printed(JsonSpec::Array(events_json(text::views(events@)))),
        events_meant(r@) == Some(text::views(events@)),
{
    let ghost all = text::views(events@);
    let mut items = json::items();
    let mut i: usize = 0;
    assert(events_json(all.take(0)) =~= Seq::empty());
    while i < events.len()
        invariant
            0 <= i <= events@.len(),
            all == text::views(events@),
            json::items_model(items@) == events_json(all.take(i as int)),
        decreases events@.len() - i,
    {
        let ghost before = json::items_model(items@);
        json::add_item(&mut items, event_to_json(&events[i]));
        i += 1;
        assert(events_json(all.take(i as int)) =~= before.push(event_json(all[i - 1])));
    }
    proof {
        assert(all.take(i as int) =~= all);
        a_stream_reads_back(all);
    }
    json::print(&json::array(items))
}

/// The events in a text, if it holds events.
pub fn decode(file: &str) -> (r: Option<Vec<WireEvent>>)
    ensures
        match r {
            Some(events) => events_meant(file@) == Some(text::views(events@)),
            None => events_meant(file@) is None,
        },
{
    let parsed = match json::parse(file) {
        Ok(j) => j,
        Err(_) => {
            return None;
        },
    };
    let items = parsed.as_array()?;
    let ghost all = json::items_model(items@);
    let mut events: Vec<WireEvent> = Vec::new();
    assert(text::views(events@) =~= seq![]);
    let mut i: usize = 0;
    while i < items.len()
        invariant
            0 <= i <= items@.len(),
            all == json::items_model(items@),
            events_meant(file@) == events_in(all, all.len() as int),
            events_in(all, i as int) == Some(text::views(events@)),
        decreases items@.len() - i,
    {
        assert(all[i as int] == items@[i as int].model());
        match event_from_json(&items[i]) {
            Some(ev) => {
                events.push(ev);
            },
            None => {
                proof {
                    lemma_bad_event(all, i as int, all.len() as int);
                }
                return None;
            },
        }
        i += 1;
    }
    Some(events)
}

} // verus!
