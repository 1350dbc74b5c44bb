//! MCP client — the tools of Model Context Protocol servers.
//!
//! A server's tools are discovered on connect; each gets a name namespaced `server__tool` to avoid
//! collisions, and calling it forwards to the server.

use crate::engine::capability::CapabilitySource;
use crate::engine::types;
use crate::engine::types::{OutputView, ToolOutput, ToolSpec, ToolView};
use crate::json::Json;
use crate::text;
use crate::tools::{AskView, PermissionRequest, Risk};
use vstd::prelude::*;
use vstd::string::*;

verus! {

broadcast use crate::text::views_push;

/// The namespaced name of a server's tool.
pub open spec fn qualified(server: Seq<char>, tool: Seq<char>) -> Seq<char> {
    server + "__"@ + tool
}

/// Namespaced tool name to avoid collisions across servers.
pub fn qualify(server: &str, tool: &str) -> (r: String)
    ensures
        r@ == qualified(server@, tool@),
{
    text::concat3(server, "__", tool)
}

/// Tools of one server never share a qualified name.
pub proof fn names_stay_apart(server: Seq<char>, a: Seq<char>, b: Seq<char>)
    ensures
        qualified(server, a) == qualified(server, b) ==> a == b,
{
    let n = (server.len() + "__"@.len()) as int;
    let x = qualified(server, a);
    let y = qualified(server, b);
    assert(x.subrange(n, x.len() as int) =~= a);
    assert(y.subrange(n, y.len() as int) =~= b);
}

/// Tools never share a qualified name, whichever servers they are of, unless the name of one server
/// followed by an underscore begins with the name of the other followed by two.
pub proof fn servers_stay_apart(
    server: Seq<char>,
    tool: Seq<char>,
    other: Seq<char>,
    other_tool: Seq<char>,
)
    requires
        !(other + "__"@).is_prefix_of(server + "_"@),
        !(server + "__"@).is_prefix_of(other + "_"@),
    ensures
        qualified(server, tool) == qualified(other, other_tool) ==> server == other && tool
            == other_tool,
{
    if qualified(server, tool) == qualified(other, other_tool) {
        if server.len() <= other.len() {
            lemma_prefix_collision(server, tool, other, other_tool);
        } else {
            lemma_prefix_collision(other, other_tool, server, tool);
        }
        names_stay_apart(server, tool, other_tool);
    }
}

proof fn lemma_prefix_collision(
    short: Seq<char>,
    tool: Seq<char>,
    long: Seq<char>,
    other_tool: Seq<char>,
)
    requires
        short.len() <= long.len(),
        qualified(short, tool) == qualified(long, other_tool),
        !(short + "__"@).is_prefix_of(long + "_"@),
    ensures
        short == long,
{
    reveal_strlit("_");
    reveal_strlit("__");
    let a = qualified(short, tool);
    let b = qualified(long, other_tool);
    let n = short.len() as int;
    assert forall|i: int| 0 <= i < n implies short[i] == long[i] by {
        assert(a[i] == short[i] && b[i] == long[i]);
    }
    assert(a[n] == '_' && a[n + 1] == '_');
    if short.len() < long.len() {
        let p = short + "__"@;
        let l = long + "_"@;
        assert forall|i: int| 0 <= i < p.len() implies l[i] == p[i] by {
            assert(b[i] == l[i]);
            assert(a[i] == p[i]);
        }
        assert(p =~= l.subrange(0, p.len() as int));
    }
    assert(short.len() == long.len() ==> short =~= long);
}

/// A tool as a server describes it.
pub struct RemoteTool {
    pub name: String,
    pub description: Option<String>,
    pub schema: Json,
}

/// A tool provided by an MCP server.
pub struct McpTool {
    /// Real tool name on the server.
    pub real: String,
    /// What is advertised to the model, under the namespaced name.
    pub spec: ToolSpec,
}

/// What is advertised of a server's tool.
pub open spec fn advertised(server: Seq<char>, tool: RemoteTool) -> ToolView {
    ToolView {
        name: qualified(server, tool.name@),
        description: match tool.description {
            Some(d) => d@,
            None => seq![],
        },
        input_schema: tool.schema.model(),
    }
}

impl McpTool {
    /// The tool of a server.
    pub fn wrap(server: &str, tool: RemoteTool) -> (r: McpTool)
        ensures
            r.real@ == tool.name@,
            r.spec@ == advertised(server@, tool),
    {
        let name = qualify(server, tool.name.as_str());
        let description = match tool.description {
            Some(d) => d,
            None => {
                let none = String::new();
                assert(none@ =~= seq![]);
                none
            },
        };
        McpTool { real: tool.name, spec: ToolSpec { name, description, input_schema: tool.schema } }
    }

    /// Unknown side effects; treated as network so that it is permission-gated.
    pub fn risk(&self) -> (r: Risk)
        ensures
            r == Risk::Network,
    {
        Risk::Network
    }

    /// What is put to the permission gate before a call: the tool under its namespaced name.
    pub fn ask<'a>(&'a self) -> (r: PermissionRequest<'a>)
        ensures
            r@ == (AskView {
                risk: Risk::Network,
                tool: self.spec.name@,
                key: self.spec.name@,
                summary: self.spec.name@,
            }),
    {
        PermissionRequest {
            risk: self.risk(),
            tool: self.spec.name.as_str(),
            key: self.spec.name.as_str(),
            summary: self.spec.name.as_str(),
        }
    }

    /// The output where the call was not allowed.
    pub fn denied(&self) -> (r: ToolOutput)
        ensures
            r@ == types::output_error(self.spec.name@ + ": denied"@),
    {
        let s = text::concat2(self.spec.name.as_str(), ": denied");
        ToolOutput::error(s.as_str())
    }

    /// The arguments that a call sends: those of an object; anything else sends none.
    pub fn sends_arguments(input: &Json) -> (r: bool)
        ensures
            r == (input.model() is Object),
    {
        input.is_object()
    }

    /// The output for a server's answer: its texts, one to a line.
    pub fn answered(texts: &Vec<String>, is_error: Option<bool>) -> (r: ToolOutput)
        ensures
            r@ == (OutputView {
                text: text::joined(text::views(texts@), "\n"@),
                is_error: is_error == Some(true),
                saved: 0,
            }),
    {
        let text = text::join(texts, "\n");
        let is_error = match is_error {
            Some(b) => b,
            None => false,
        };
        ToolOutput { text, is_error, saved: 0 }
    }

    /// The output where the call failed.
    pub fn failed(&self, error: &str) -> (r: ToolOutput)
        ensures
            r@ == types::output_error("mcp "@ + self.spec.name@ + ": "@ + error@),
    {
        let mut s = text::concat3("mcp ", self.spec.name.as_str(), ": ");
        s.append(error);
        ToolOutput::error(s.as_str())
    }
}

/// The words that start a server's command. On Windows the launchers that npm ships are scripts,
/// which only `cmd /c` can start.
pub open spec fn launched(windows: bool, command: Seq<char>, args: Seq<Seq<char>>) -> (
    Seq<char>,
    Seq<Seq<char>>,
) {
    if windows {
        ("cmd"@, Seq::empty().push("/c"@).push(command) + args)
    } else {
        (command, args)
    }
}

/// The program to start for a server's command, with its arguments.
pub fn launch(windows: bool, command: &str, args: &[String]) -> (r: (String, Vec<String>))
    ensures
        (r.0@, text::views(r.1@)) == launched(windows, command@, text::views(args@)),
{
    let mut rest = text::copy_strings(args);
    if windows {
        let mut all: Vec<String> = Vec::new();
        assert(text::views(all@) =~= Seq::empty());
        all.push("/c".to_string());
        all.push(command.to_string());
        let ghost head = all@;
        let ghost tail = rest@;
        all.append(&mut rest);
        assert(text::views(all@) =~= text::views(head) + text::views(tail));
        ("cmd".to_string(), all)
    } else {
        (command.to_string(), rest)
    }
}

/// The tools' descriptions.
pub open spec fn specs_of(tools: Seq<McpTool>) -> Seq<ToolView> {
    tools.map_values(|t: McpTool| t.spec@)
}

/// What a server with `n` tools adds to the prompt. Nothing where it has none.
pub open spec fn server_fragment(server: Seq<char>, n: nat) -> Option<Seq<char>> {
    if n == 0 {
        None
    } else {
        Some("## MCP server `"@ + server + "` ("@ + text::decimal(n) + " tools available)\n"@)
    }
}

/// Capability source exposing one server's tools.
pub struct McpCapability {
    pub server: String,
    pub tools: Vec<McpTool>,
}

impl McpCapability {
    pub fn new(server: &str, tools: Vec<McpTool>) -> (r: McpCapability)
        ensures
            r.server@ == server@,
            r.tools == tools,
    {
        McpCapability { server: server.to_string(), tools }
    }
}

impl CapabilitySource for McpCapability {
    open spec fn offered(&self) -> Seq<ToolView> {
        specs_of(self.tools@)
    }

    open spec fn fragment(&self) -> Option<Seq<char>> {
        server_fragment(self.server@, self.tools@.len())
    }

    fn tools(&self) -> (r: Vec<ToolSpec>) {
        let mut r: Vec<ToolSpec> = Vec::new();
        let mut i: usize = 0;
        while i < self.tools.len()
            invariant
                0 <= i <= self.tools@.len(),
                r@.len() == i,
                forall|k: int| 0 <= k < i ==> (#[trigger] r@[k])@ == self.tools@[k].spec@,
            decreases self.tools@.len() - i,
        {
            r.push(self.tools[i].spec.copy());
            i += 1;
        }
        assert(text::views(r@) =~= specs_of(self.tools@));
        r
    }

    fn prompt_fragment(&self) -> (r: Option<String>) {
        if self.tools.len() == 0 {
            return None;
        }
        let mut s = text::concat3("## MCP server `", self.server.as_str(), "` (");
        s.append(text::decimal_of(self.tools.len() as u64).as_str());
        s.append(" tools available)\n");
        Some(s)
    }
}

/// A server's command is started with its own arguments in their order. On Windows `cmd /c` goes in
/// front.
pub proof fn the_command_is_started(command: Seq<char>, args: Seq<Seq<char>>)
    ensures
        ({
            let (program, rest) = launched(false, command, args);
            seq![program] + rest == seq![command] + args
        }),
        ({
            let (program, rest) = launched(true, command, args);
            seq![program] + rest == seq!["cmd"@, "/c"@, command] + args
        }),
{
    let (program, rest) = launched(true, command, args);
    assert(seq![program] + rest =~= seq!["cmd"@, "/c"@, command] + args);
}

/// A server offers each of its tools once and in order, as the tool is described.
pub proof fn every_tool_is_offered(source: McpCapability, i: int)
    requires
        0 <= i < source.tools@.len(),
    ensures
        source.offered().len() == source.tools@.len(),
        source.offered()[i] == source.tools@[i].spec@,
        source.fragment() is Some,
{
}

} // verus!
