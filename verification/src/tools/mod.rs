//! Tool layer: what builtins, MCP tools and sub-agents have in common.
//!
//! The agent loop resolves tools through the [`Registry`] and never distinguishes their source.

use crate::engine::checkpoint::CheckpointStore;
use crate::engine::types::{ToolSpec, ToolView};
use crate::json;
use crate::json::{Json, JsonSpec};
use crate::paths;
use crate::table::Table;
use crate::text;
use vstd::prelude::*;
use vstd::string::*;

pub mod apply_patch;
pub mod builtins;
pub mod diff;
pub mod optimize;
pub mod subagent;

verus! {

broadcast use crate::text::views_push;

/// Coarse risk class a tool declares; drives the permission engine's defaults.
#[derive(Debug, Clone, Copy, PartialEq, Eq, Structural)]
pub enum Risk {
    ReadOnly,
    Write,
    Exec,
    Network,
}

/// A request to perform a risky tool action. `key` is the matchable target (a command, a path)
/// used by rule engines; `summary` is the human-readable detail (a diff, the command line).
pub struct PermissionRequest<'a> {
    pub risk: Risk,
    pub tool: &'a str,
    pub key: &'a str,
    pub summary: &'a str,
}

/// The mathematical value of a [`PermissionRequest`].
pub struct AskView {
    pub risk: Risk,
    pub tool: Seq<char>,
    pub key: Seq<char>,
    pub summary: Seq<char>,
}

impl<'a> View for PermissionRequest<'a> {
    type V = AskView;

    open spec fn view(&self) -> AskView {
        AskView { risk: self.risk, tool: self.tool@, key: self.key@, summary: self.summary@ }
    }
}

/// A request that a tool is about to make.
pub struct Ask {
    pub risk: Risk,
    pub tool: &'static str,
    pub key: String,
    pub summary: String,
}

impl View for Ask {
    type V = AskView;

    open spec fn view(&self) -> AskView {
        AskView { risk: self.risk, tool: self.tool@, key: self.key@, summary: self.summary@ }
    }
}

impl Ask {
    /// The request to hand to the permission gate.
    pub fn request<'a>(&'a self) -> (r: PermissionRequest<'a>)
        ensures
            r@ == self@,
    {
        PermissionRequest {
            risk: self.risk,
            tool: self.tool,
            key: self.key.as_str(),
            summary: self.summary.as_str(),
        }
    }
}

/// Decides whether a risky tool action may proceed. Implementations range from a headless
/// auto-approver to a rule engine wrapping an interactive prompt, which shows the summary and waits
/// for an answer.
pub trait Permission {
    fn request(&self, req: &PermissionRequest<'_>) -> bool;
}

/// Approves everything. Used in tests and headless mode.
pub struct AutoApprove;

impl Permission for AutoApprove {
    fn request(&self, req: &PermissionRequest<'_>) -> (r: bool)
        ensures
            r,
    {
        true
    }
}

/// Denies everything: read-only mode.
pub struct DenyAll;

impl Permission for DenyAll {
    fn request(&self, req: &PermissionRequest<'_>) -> (r: bool)
        ensures
            !r,
    {
        false
    }
}

/// Execution context of a tool: the working directory, the permission gate that writing and running
/// tools consult before they change anything, and the checkpoints that they leave behind.
pub struct ToolCtx<P: Permission> {
    pub cwd: String,
    pub permission: P,
    pub checkpoints: CheckpointStore,
}

impl ToolCtx<AutoApprove> {
    /// Context with an auto-approving permission gate (tests / non-interactive use).
    pub fn new(cwd: &str) -> (r: ToolCtx<AutoApprove>)
        ensures
            r.cwd@ == cwd@,
            r.checkpoints@.len() == 0,
            r.checkpoints.next() == 0,
    {
        ToolCtx { cwd: cwd.to_string(), permission: AutoApprove, checkpoints: CheckpointStore::new() }
    }
}

impl<P: Permission> ToolCtx<P> {
    pub fn with_permission(cwd: &str, permission: P) -> (r: ToolCtx<P>)
        ensures
            r.cwd@ == cwd@,
            r.permission == permission,
            r.checkpoints@.len() == 0,
            r.checkpoints.next() == 0,
    {
        ToolCtx { cwd: cwd.to_string(), permission, checkpoints: CheckpointStore::new() }
    }

    /// Records what `path` holds before it is modified, for a later rewind. `content` is none where
    /// there is no such file.
    pub fn checkpoint(&mut self, label: &str, path: &str, content: Option<String>)
        requires
            old(self).checkpoints.next() < usize::MAX,
        ensures
            final(self).cwd == old(self).cwd,
            final(self).permission == old(self).permission,
            final(self).checkpoints.next() == old(self).checkpoints.next() + 1,
            final(self).checkpoints@ == old(self).checkpoints@.push(
                crate::engine::checkpoint::CheckpointView {
                    id: old(self).checkpoints.next(),
                    label: label@,
                    files: seq![(path@, text::opt_view(content))],
                },
            ),
    {
        let mut files: Vec<(String, Option<String>)> = Vec::new();
        files.push((path.to_string(), content));
        assert(crate::engine::checkpoint::files_view(files@) =~= seq![
            (path@, text::opt_view(content)),
        ]);
        let _ = self.checkpoints.snapshot(label, files);
    }

    /// Resolve a possibly-relative path against the working directory.
    pub fn resolve(&self, path: &str) -> (r: String)
        ensures
            r@ == paths::joined_path(self.cwd@, path@),
    {
        paths::join(self.cwd.as_str(), path)
    }
}

// ---- registry -------------------------------------------------------------------------------

/// Name -> tool lookup shared across builtin, MCP, and sub-agent sources. `T` is what runs a tool.
pub struct Registry<T> {
    tools: Table<(ToolSpec, T)>,
}

impl<T> View for Registry<T> {
    type V = Map<Seq<char>, (ToolSpec, T)>;

    closed spec fn view(&self) -> Map<Seq<char>, (ToolSpec, T)> {
        self.tools@
    }
}

impl<T> Registry<T> {
    /// The names in the order in which they were first registered.
    pub closed spec fn names(&self) -> Seq<Seq<char>> {
        self.tools.keys()
    }

    pub fn new() -> (r: Registry<T>)
        ensures
            r@ == Map::<Seq<char>, (ToolSpec, T)>::empty(),
            r.names() == Seq::<Seq<char>>::empty(),
    {
        Registry { tools: Table::new() }
    }

    /// Registers a tool under the name that it is advertised by; a tool of that name is replaced.
    pub fn register(&mut self, spec: ToolSpec, tool: T)
        ensures
            final(self)@ == old(self)@.insert(spec.name@, (spec, tool)),
            final(self).names() == (if old(self)@.dom().contains(spec.name@) {
                old(self).names()
            } else {
                old(self).names().push(spec.name@)
            }),
    {
        let name = spec.name.clone();
        self.tools.insert(name.as_str(), (spec, tool));
    }

    pub fn get(&self, name: &str) -> (r: Option<&T>)
        ensures
            match r {
                Some(t) => self@.dom().contains(name@) && *t == self@[name@].1,
                None => !self@.dom().contains(name@),
            },
    {
        match self.tools.get(name) {
            Some(entry) => Some(&entry.1),
            None => None,
        }
    }

    pub fn len(&self) -> (r: usize)
        ensures
            r == self@.dom().len(),
            self@.dom().finite(),
            r == self.names().len(),
    {
        self.tools.len()
    }

    pub fn is_empty(&self) -> (r: bool)
        ensures
            r == (self@.dom().len() == 0),
    {
        self.tools.len() == 0
    }

    /// Specs for every registered tool, for advertising to a provider.
    pub fn specs(&self) -> (r: Vec<ToolSpec>)
        ensures
            r@.len() == self.names().len(),
            forall|i: int| 0 <= i < r@.len() ==> self@.dom().contains(#[trigger] self.names()[i]),
            forall|i: int| 0 <= i < r@.len() ==> (#[trigger] r@[i])@ == self@[self.names()[i]].0@,
    {
        let mut out: Vec<ToolSpec> = Vec::new();
        let n = self.tools.len();
        let mut i: usize = 0;
        while i < n
            invariant
                0 <= i <= n,
                n == self.tools.keys().len(),
                out@.len() == i,
                forall|k: int| 0 <= k < i ==> self@.dom().contains(#[trigger] self.names()[k]),
                forall|k: int| 0 <= k < i ==> (#[trigger] out@[k])@ == self@[self.names()[k]].0@,
            decreases n - i,
        {
            let entry = self.tools.entry(i);
            out.push(entry.1.0.copy());
            i += 1;
        }
        out
    }
}

// ---- schemas --------------------------------------------------------------------------------

/// The schema of a value of the given type.
pub open spec fn typed_spec(kind: Seq<char>) -> JsonSpec {
    JsonSpec::Object(json::pairs1("type"@, JsonSpec::Str(kind)))
}

/// The schema of a value of the given type, with a description.
pub open spec fn described_spec(kind: Seq<char>, description: Seq<char>) -> JsonSpec {
    JsonSpec::Object(
        json::pairs2("type"@, JsonSpec::Str(kind), "description"@, JsonSpec::Str(description)),
    )
}

/// The schema of an object with these properties, of which `required` must be there.
pub open spec fn object_spec(
    properties: Seq<(Seq<char>, JsonSpec)>,
    required: Seq<Seq<char>>,
) -> JsonSpec {
    JsonSpec::Object(
        json::pairs3(
            "type"@,
            JsonSpec::Str("object"@),
            "properties"@,
            JsonSpec::Object(properties),
            "required"@,
            json::strings_spec(required),
        ),
    )
}

/// The schema of an object with these properties, none of them required.
pub open spec fn open_object_spec(properties: Seq<(Seq<char>, JsonSpec)>) -> JsonSpec {
    JsonSpec::Object(
        json::pairs2(
            "type"@,
            JsonSpec::Str("object"@),
            "properties"@,
            JsonSpec::Object(properties),
        ),
    )
}

/// The schema of an object with these properties and no others, of which `required` must be there.
pub open spec fn closed_object_spec(
    properties: Seq<(Seq<char>, JsonSpec)>,
    required: Seq<Seq<char>>,
) -> JsonSpec {
    JsonSpec::Object(
        json::pairs4(
            "type"@,
            JsonSpec::Str("object"@),
            "properties"@,
            JsonSpec::Object(properties),
            "required"@,
            json::strings_spec(required),
            "additionalProperties"@,
            JsonSpec::Bool(false),
        ),
    )
}

/// The schema of a string that is one of `names`.
pub open spec fn choice_spec(names: Seq<Seq<char>>) -> JsonSpec {
    JsonSpec::Object(
        json::pairs2("type"@, JsonSpec::Str("string"@), "enum"@, json::strings_spec(names)),
    )
}

/// The schema of a value of the given type.
pub fn typed(kind: &str) -> (r: Json)
    ensures
        r.model() == typed_spec(kind@),
{
    let mut m = json::members();
    json::put(&mut m, "type", json::string(kind));
    json::object(m)
}

/// The schema of a value of the given type, with a description.
pub fn described(kind: &str, description: &str) -> (r: Json)
    ensures
        r.model() == described_spec(kind@, description@),
{
    let mut m = json::members();
    json::put(&mut m, "type", json::string(kind));
    json::put(&mut m, "description", json::string(description));
    json::object(m)
}

/// The schema of an object with these properties, of which `required` must be there.
pub fn object_schema(properties: Vec<(String, Json)>, required: &Vec<&str>) -> (r: Json)
    ensures
        r.model() == object_spec(json::members_model(properties@), text::views(required@)),
{
    let names = text::to_strings(required);
    let mut m = json::members();
    json::put(&mut m, "type", json::string("object"));
    json::put(&mut m, "properties", json::object(properties));
    json::put(&mut m, "required", json::strings(&names));
    json::object(m)
}

/// The schema of an object with these properties, none of them required.
pub fn open_object(properties: Vec<(String, Json)>) -> (r: Json)
    ensures
        r.model() == open_object_spec(json::members_model(properties@)),
{
    let mut m = json::members();
    json::put(&mut m, "type", json::string("object"));
    json::put(&mut m, "properties", json::object(properties));
    json::object(m)
}

/// The schema of an object with these properties and no others, of which `required` must be there.
pub fn closed_object(properties: Vec<(String, Json)>, required: &Vec<&str>) -> (r: Json)
    ensures
        r.model() == closed_object_spec(json::members_model(properties@), text::views(required@)),
{
    let names = text::to_strings(required);
    let mut m = json::members();
    json::put(&mut m, "type", json::string("object"));
    json::put(&mut m, "properties", json::object(properties));
    json::put(&mut m, "required", json::strings(&names));
    json::put(&mut m, "additionalProperties", json::boolean(false));
    json::object(m)
}

/// The schema of a string that is one of `names`.
pub fn choice(names: &Vec<String>) -> (r: Json)
    ensures
        r.model() == choice_spec(text::views(names@)),
{
    let mut m = json::members();
    json::put(&mut m, "type", json::string("string"));
    json::put(&mut m, "enum", json::strings(names));
    json::object(m)
}

/// A list of one name.
pub fn one_name<'a>(a: &'a str) -> (r: Vec<&'a str>)
    ensures
        text::views(r@) == Seq::empty().push(a@),
{
    let mut v: Vec<&str> = Vec::new();
    v.push(a);
    assert(text::views(v@) =~= Seq::empty().push(a@));
    v
}

/// A list of two names.
pub fn two_names<'a>(a: &'a str, b: &'a str) -> (r: Vec<&'a str>)
    ensures
        text::views(r@) == Seq::empty().push(a@).push(b@),
{
    let mut v = one_name(a);
    v.push(b);
    v
}

/// A list of three names.
pub fn three_names<'a>(a: &'a str, b: &'a str, c: &'a str) -> (r: Vec<&'a str>)
    ensures
        text::views(r@) == Seq::empty().push(a@).push(b@).push(c@),
{
    let mut v = two_names(a, b);
    v.push(c);
    v
}

/// What is advertised of a tool.
pub fn advertise(name: &str, description: &str, input_schema: Json) -> (r: ToolSpec)
    ensures
        r@ == (ToolView {
            name: name@,
            description: description@,
            input_schema: input_schema.model(),
        }),
{
    ToolSpec { name: name.to_string(), description: description.to_string(), input_schema }
}

/// A schema tells the properties of an object and which of them are required, in their order.
pub proof fn a_schema_tells_its_properties(
    properties: Seq<(Seq<char>, JsonSpec)>,
    required: Seq<Seq<char>>,
    k: int,
)
    requires
        0 <= k < required.len(),
    ensures
        forall|schema: JsonSpec|
            schema == object_spec(properties, required) || schema == closed_object_spec(
                properties,
                required,
            ) ==> {
                &&& #[trigger] json::string_field(schema, "type"@) == Some("object"@)
                &&& json::field(schema, "properties"@) == Some(JsonSpec::Object(properties))
                &&& json::field(schema, "required"@) matches Some(JsonSpec::Array(names))
                    && names.len() == required.len() && names[k] == JsonSpec::Str(required[k])
            },
        json::field(closed_object_spec(properties, required), "additionalProperties"@) == Some(
            JsonSpec::Bool(false),
        ),
        json::field(open_object_spec(properties), "properties"@) == Some(
            JsonSpec::Object(properties),
        ),
        json::field(open_object_spec(properties), "required"@) is None,
{
    reveal_strlit("type");
    reveal_strlit("properties");
    reveal_strlit("required");
    reveal_strlit("additionalProperties");
    assert("type"@.len() == 4 && "properties"@.len() == 10 && "required"@.len() == 8);
    assert("additionalProperties"@.len() == 20);
    reveal_with_fuel(json::member_from, 5);
}

/// A choice tells each of its names, in order.
pub proof fn a_choice_tells_its_names(names: Seq<Seq<char>>, k: int)
    requires
        0 <= k < names.len(),
    ensures
        json::string_field(choice_spec(names), "type"@) == Some("string"@),
        json::field(choice_spec(names), "enum"@) matches Some(JsonSpec::Array(told)) && told.len()
            == names.len() && told[k] == JsonSpec::Str(names[k]),
{
    reveal_strlit("type");
    reveal_strlit("enum");
    assert("type"@[0] == 't' && "enum"@[0] == 'e');
    reveal_with_fuel(json::member_from, 3);
}

} // verus!
