//! `todo` — a shared task checklist the agent maintains across a turn.
//!
//! Setting the list replaces it; the rendered checklist is returned.

use crate::engine::types;
use crate::engine::types::{OutputView, ToolOutput, ToolSpec, ToolView};
use crate::json;
use crate::json::{Json, JsonSpec};
use crate::text;
use crate::tools;
use crate::tools::Risk;
use vstd::prelude::*;
use vstd::string::*;

verus! {

broadcast use crate::text::views_push;

/// A task of the checklist.
#[derive(Clone)]
pub struct Item {
    pub content: String,
    pub status: String,
}

/// The mathematical value of an [`Item`].
pub struct ItemView {
    pub content: Seq<char>,
    pub status: Seq<char>,
}

impl View for Item {
    type V = ItemView;

    open spec fn view(&self) -> ItemView {
        ItemView { content: self.content@, status: self.status@ }
    }
}

/// The checklist.
pub struct TodoList {
    pub items: Vec<Item>,
}

impl Default for TodoList {
    fn default() -> (r: TodoList)
        ensures
            r.items@.len() == 0,
    {
        TodoList { items: Vec::new() }
    }
}

pub struct Todo {
    list: TodoList,
}

impl View for Todo {
    type V = Seq<ItemView>;

    closed spec fn view(&self) -> Seq<ItemView> {
        text::views(self.list.items@)
    }
}

/// What the tool is advertised as.
pub open spec fn todo_spec() -> ToolView {
    ToolView {
        name: "todo"@,
        description: "Set the task checklist for the current work. Replaces the list; returns it rendered."@,
        input_schema: tools::object_spec(
            json::pairs1(
                "todos"@,
                JsonSpec::Object(
                    json::pairs2(
                        "type"@,
                        JsonSpec::Str("array"@),
                        "items"@,
                        tools::object_spec(
                            json::pairs2(
                                "content"@,
                                tools::typed_spec("string"@),
                                "status"@,
                                tools::choice_spec(
                                    Seq::empty().push("pending"@).push("in_progress"@).push(
                                        "done"@,
                                    ),
                                ),
                            ),
                            Seq::empty().push("content"@).push("status"@),
                        ),
                    ),
                ),
            ),
            Seq::empty().push("todos"@),
        ),
    }
}

/// The tasks among the first `n` entries: those with a content. One without a status is pending.
pub open spec fn items_to(entries: Seq<JsonSpec>, n: int) -> Seq<ItemView>
    decreases n,
{
    if n <= 0 {
        seq![]
    } else {
        let before = items_to(entries, n - 1);
        match json::string_field(entries[n - 1], "content"@) {
            Some(content) => before.push(
                ItemView {
                    content,
                    status: match json::string_field(entries[n - 1], "status"@) {
                        Some(s) => s,
                        None => "pending"@,
                    },
                },
            ),
            None => before,
        }
    }
}

/// A task as it is shown.
pub open spec fn task_line(item: ItemView) -> Seq<char> {
    (if item.status == "done"@ {
        "[x]"@
    } else if item.status == "in_progress"@ {
        "[~]"@
    } else {
        "[ ]"@
    }) + " "@ + item.content
}

/// The checklist as it is shown.
pub open spec fn rendered(items: Seq<ItemView>) -> Seq<char> {
    if items.len() == 0 {
        "(no tasks)"@
    } else {
        text::joined(items.map_values(|i: ItemView| task_line(i)), "\n"@)
    }
}

/// The checklist after a call, and what the model is told.
pub open spec fn replaced(list: Seq<ItemView>, input: JsonSpec) -> (Seq<ItemView>, OutputView) {
    match json::items_in(json::field_or_null(input, "todos"@)) {
        None => (list, types::output_error("todo: `todos` must be an array"@)),
        Some(entries) => {
            let items = items_to(entries, entries.len() as int);
            (items, types::output_ok(rendered(items)))
        },
    }
}

fn render(items: &Vec<Item>) -> (r: String)
    ensures
        r@ == rendered(text::views(items@)),
{
    let ghost all = text::views(items@);
    if items.len() == 0 {
        return "(no tasks)".to_string();
    }
    let mut lines: Vec<String> = Vec::new();
    let mut i: usize = 0;
    while i < items.len()
        invariant
            0 <= i <= items@.len(),
            lines@.len() == i,
            forall|k: int| 0 <= k < i ==> (#[trigger] lines@[k])@ == task_line(items@[k]@),
        decreases items@.len() - i,
    {
        let mark = if text::same(items[i].status.as_str(), "done") {
            "[x]"
        } else if text::same(items[i].status.as_str(), "in_progress") {
            "[~]"
        } else {
            "[ ]"
        };
        lines.push(text::concat3(mark, " ", items[i].content.as_str()));
        i += 1;
    }
    assert(text::views(lines@) =~= all.map_values(|i: ItemView| task_line(i)));
    text::join(&lines, "\n")
}

impl Todo {
    pub fn new(list: TodoList) -> (r: Todo)
        ensures
            r@ == text::views(list.items@),
    {
        Todo { list }
    }

    pub fn spec(&self) -> (r: ToolSpec)
        ensures
            r@ == todo_spec(),
    {
        let names = text::to_strings(&tools::three_names("pending", "in_progress", "done"));
        let mut item = json::members();
        json::put(&mut item, "content", tools::typed("string"));
        json::put(&mut item, "status", tools::choice(&names));
        let item = tools::object_schema(item, &tools::two_names("content", "status"));
        let mut list = json::members();
        json::put(&mut list, "type", json::string("array"));
        json::put(&mut list, "items", item);
        let mut p = json::members();
        json::put(&mut p, "todos", json::object(list));
        tools::advertise(
            "todo",
            "Set the task checklist for the current work. Replaces the list; returns it rendered.",
            tools::object_schema(p, &tools::one_name("todos")),
        )
    }

    pub fn risk(&self) -> (r: Risk)
        ensures
            r == Risk::ReadOnly,
    {
        Risk::ReadOnly
    }

    /// The tasks of the list.
    pub fn items(&self) -> (r: &Vec<Item>)
        ensures
            text::views(r@) == self@,
    {
        &self.list.items
    }

    pub fn run(&mut self, input: &Json) -> (r: ToolOutput)
        ensures
            (final(self)@, r@) == replaced(old(self)@, input.model()),
    {
        let entries = match input.array_field("todos") {
            Some(e) => e,
            None => return ToolOutput::error("todo: `todos` must be an array"),
        };
        let ghost all = json::items_model(entries@);
        let mut items: Vec<Item> = Vec::new();
        assert(text::views(items@) =~= seq![]);
        let mut i: usize = 0;
        while i < entries.len()
            invariant
                0 <= i <= entries@.len(),
                all == json::items_model(entries@),
                text::views(items@) == items_to(all, i as int),
            decreases entries@.len() - i,
        {
            assert(all[i as int] == entries@[i as int].model());
            if let Some(content) = entries[i].str_field("content") {
                let status = match entries[i].str_field("status") {
                    Some(s) => s.to_string(),
                    None => "pending".to_string(),
                };
                items.push(Item { content: content.to_string(), status });
            }
            i += 1;
        }
        let shown = render(&items);
        self.list = TodoList { items };
        ToolOutput::ok(shown.as_str())
    }
}

// ---- what holds of the checklist ------------------------------------------------------------

proof fn lemma_items(entries: Seq<JsonSpec>, n: int)
    requires
        0 <= n <= entries.len(),
        forall|i: int|
            0 <= i < entries.len() ==> json::string_field(#[trigger] entries[i], "content"@) is Some,
    ensures
        items_to(entries, n).len() == n,
        forall|i: int|
            0 <= i < n ==> (#[trigger] items_to(entries, n)[i]).content == json::string_field(
                entries[i],
                "content"@,
            )->0,
        forall|i: int|
            0 <= i < n && json::string_field(entries[i], "status"@) is Some ==> (
            #[trigger] items_to(entries, n)[i]).status == json::string_field(
                entries[i],
                "status"@,
            )->0,
        forall|i: int|
            0 <= i < n && json::string_field(entries[i], "status"@) is None ==> (
            #[trigger] items_to(entries, n)[i]).status == "pending"@,
    decreases n,
{
    if n > 0 {
        lemma_items(entries, n - 1);
        assert(json::string_field(entries[n - 1], "content"@) is Some);
    }
}

/// The checklist is replaced by the one given: each task in its place, with what it says and its
/// status, or pending where none is given. Nothing of the old list stays.
pub proof fn the_list_is_the_one_given(list: Seq<ItemView>, entries: Seq<JsonSpec>, input: JsonSpec)
    requires
        json::items_in(json::field_or_null(input, "todos"@)) == Some(entries),
        forall|i: int|
            0 <= i < entries.len() ==> json::string_field(#[trigger] entries[i], "content"@) is Some,
    ensures
        ({
            let (after, told) = replaced(list, input);
            &&& after.len() == entries.len()
            &&& forall|i: int|
                0 <= i < after.len() ==> {
                    &&& (#[trigger] after[i]).content == json::string_field(
                        entries[i],
                        "content"@,
                    )->0
                    &&& after[i].status == (if json::string_field(entries[i], "status"@) is Some {
                        json::string_field(entries[i], "status"@)->0
                    } else {
                        "pending"@
                    })
                }
            &&& !told.is_error
        }),
{
    lemma_items(entries, entries.len() as int);
}

/// The checklist is shown with a task to a line, in order, each behind a mark that tells how far it is.
pub proof fn the_list_is_shown_task_by_task(items: Seq<ItemView>)
    requires
        items.len() > 0,
        forall|i: int, k: int|
            0 <= i < items.len() && 0 <= k < items[i].content.len()
                ==> #[trigger] items[i].content[k] != '\n',
    ensures
        ({
            let lines = text::split(rendered(items), '\n');
            &&& lines.len() == items.len()
            &&& forall|i: int|
                0 <= i < lines.len() ==> (#[trigger] lines[i]) == (if items[i].status == "done"@ {
                    seq!['[', 'x', ']', ' ']
                } else if items[i].status == "in_progress"@ {
                    seq!['[', '~', ']', ' ']
                } else {
                    seq!['[', ' ', ']', ' ']
                }) + items[i].content
        }),
{
    reveal_strlit("[x]");
    reveal_strlit("[~]");
    reveal_strlit("[ ]");
    reveal_strlit(" ");
    reveal_strlit("\n");
    assert("\n"@ =~= seq!['\n']);
    let lines = items.map_values(|i: ItemView| task_line(i));
    assert("[x]"@ + " "@ =~= seq!['[', 'x', ']', ' ']);
    assert("[~]"@ + " "@ =~= seq!['[', '~', ']', ' ']);
    assert("[ ]"@ + " "@ =~= seq!['[', ' ', ']', ' ']);
    assert forall|i: int, k: int|
        0 <= i < lines.len() && 0 <= k < lines[i].len() implies #[trigger] lines[i][k] != '\n' by {
        if k >= 4 {
            assert(lines[i][k] == items[i].content[k - 4]);
        }
    }
    text::joined_parts_split_again(lines, '\n');
}

} // verus!
