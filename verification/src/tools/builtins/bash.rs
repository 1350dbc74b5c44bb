//! `bash` — run a shell command, cross-platform, with output passed through the optimizer.
//!
//! Uses `sh -c` on unix and `powershell` on Windows. The combined output is compressed by the native
//! optimizer before being returned, and `ToolOutput.saved` reports the token reduction.

use crate::engine::types;
use crate::engine::types::{OutputView, ToolOutput, ToolSpec, ToolView};
use crate::json;
use crate::json::Json;
use crate::text;
use crate::tools;
use crate::tools::optimize;
use crate::tools::optimize::{CompressedView, Optimizer};
use crate::tools::{Ask, AskView, Risk};
use vstd::prelude::*;
use vstd::string::*;

verus! {

broadcast use crate::text::views_push;

/// Which shell the platform runs commands through.
#[derive(Debug, Clone, Copy, PartialEq, Eq, Structural)]
pub enum ShellKind {
    Sh,
    PowerShell,
}

/// Stops host prompts and progress bars from writing to the console.
pub const PRELUDE: &'static str =
    "$ProgressPreference='SilentlyContinue';$ConfirmPreference='None';";

/// The arguments that run a command.
pub open spec fn shell_args(kind: ShellKind, command: Seq<char>) -> Seq<Seq<char>> {
    match kind {
        ShellKind::Sh => Seq::empty().push("-c"@).push(command),
        ShellKind::PowerShell => Seq::empty().push("-NoProfile"@).push("-NonInteractive"@).push(
            "-Command"@,
        ).push(PRELUDE@ + command),
    }
}

impl ShellKind {
    /// The shell of the platform.
    pub fn detect(windows: bool) -> (r: ShellKind)
        ensures
            r == (if windows {
                ShellKind::PowerShell
            } else {
                ShellKind::Sh
            }),
    {
        if windows {
            ShellKind::PowerShell
        } else {
            ShellKind::Sh
        }
    }

    pub fn program(self) -> (r: &'static str)
        ensures
            r@ == (match self {
                ShellKind::Sh => "sh"@,
                ShellKind::PowerShell => "powershell"@,
            }),
    {
        match self {
            ShellKind::Sh => "sh",
            ShellKind::PowerShell => "powershell",
        }
    }

    /// The arguments that run a command.
    pub fn args(self, command: &str) -> (r: Vec<String>)
        ensures
            text::views(r@) == shell_args(self, command@),
    {
        let mut out: Vec<String> = Vec::new();
        assert(text::views(out@) =~= Seq::empty());
        match self {
            ShellKind::Sh => {
                out.push("-c".to_string());
                out.push(command.to_string());
            },
            ShellKind::PowerShell => {
                out.push("-NoProfile".to_string());
                out.push("-NonInteractive".to_string());
                out.push("-Command".to_string());
                out.push(text::concat2(PRELUDE, command));
            },
        }
        out
    }
}

/// Seconds after which a command is killed.
pub const TIMEOUT_SECS: u64 = 120;

pub const BACKGROUND_DESCRIPTION: &'static str =
    "Run detached (dev servers, watchers). Returns a job id immediately; inspect it with the `process` tool. Default false.";

pub const TIMED_OUT: &'static str =
    "bash: timed out after 120s and was killed — the command may be waiting for interactive input, which isn't supported. Use non-interactive flags (e.g. `npm create vite@latest name -- --template react`).";

/// What the tool is advertised as.
pub open spec fn bash_spec() -> ToolView {
    ToolView {
        name: "bash"@,
        description: "Run a shell command and return its combined output (optimized to save tokens)."@,
        input_schema: tools::object_spec(
            json::pairs2(
                "command"@,
                tools::described_spec("string"@, "Shell command to execute."@),
                "background"@,
                tools::described_spec("boolean"@, BACKGROUND_DESCRIPTION@),
            ),
            Seq::empty().push("command"@),
        ),
    }
}

/// A command that is to be run.
pub struct BashPlan {
    pub command: String,
    pub background: bool,
}

/// How a command ended.
pub enum RunEnd {
    /// It could not be started.
    NotStarted(String),
    /// It could not be waited for.
    Lost(String),
    TimedOut,
    Exited { stdout: String, stderr: String, success: bool, code: Option<i32> },
}

/// What a command wrote: its output, then its errors on a line of their own, then its exit code where
/// it failed.
pub open spec fn combined(
    stdout: Seq<char>,
    stderr: Seq<char>,
    success: bool,
    code: Option<i32>,
) -> Seq<char> {
    let written = if stderr.len() == 0 {
        stdout
    } else if stdout.len() > 0 && stdout.last() != '\n' {
        stdout + "\n"@ + stderr
    } else {
        stdout + stderr
    };
    if success {
        written
    } else {
        written + "\n[exit "@ + text::signed_decimal(
            match code {
                Some(c) => c as int,
                None => -1,
            },
        ) + "]"@
    }
}

/// What the model is told of how a command ended.
pub open spec fn told(
    enabled: bool,
    families: Seq<optimize::Family>,
    command: Seq<char>,
    end: RunEnd,
) -> OutputView {
    match end {
        RunEnd::NotStarted(e) => types::output_error("bash: spawn failed: "@ + e@),
        RunEnd::Lost(e) => types::output_error("bash: "@ + e@),
        RunEnd::TimedOut => types::output_error(TIMED_OUT@),
        RunEnd::Exited { stdout, stderr, success, code } => {
            let raw = combined(stdout@, stderr@, success, code);
            let shrunk = if enabled {
                optimize::applied_from(families, command, raw, 0)
            } else {
                CompressedView { text: raw, saved: 0 }
            };
            OutputView { text: shrunk.text, is_error: !success, saved: shrunk.saved }
        },
    }
}

fn combine(stdout: &str, stderr: &str, success: bool, code: Option<i32>) -> (r: String)
    ensures
        r@ == combined(stdout@, stderr@, success, code),
{
    let mut raw = stdout.to_string();
    if stderr.unicode_len() > 0 {
        let n = stdout.unicode_len();
        if n > 0 && stdout.get_char(n - 1) != '\n' {
            raw.append("\n");
        }
        raw.append(stderr);
    }
    if !success {
        let c: i64 = match code {
            Some(c) => c as i64,
            None => -1,
        };
        raw.append("\n[exit ");
        raw.append(text::signed_decimal_of(c).as_str());
        raw.append("]");
    }
    raw
}

pub struct Bash {
    optimizer: Optimizer,
    shell: ShellKind,
}

impl Bash {
    pub closed spec fn families(&self) -> Seq<optimize::Family> {
        self.optimizer.families()
    }

    pub closed spec fn optimizes(&self) -> bool {
        self.optimizer.is_enabled()
    }

    pub closed spec fn kind(&self) -> ShellKind {
        self.shell
    }

    pub fn new(optimizer: Optimizer, shell: ShellKind) -> (r: Bash)
        ensures
            r.families() == optimizer.families(),
            r.optimizes() == optimizer.is_enabled(),
            r.kind() == shell,
    {
        Bash { optimizer, shell }
    }

    pub fn spec(&self) -> (r: ToolSpec)
        ensures
            r@ == bash_spec(),
    {
        let mut p = json::members();
        json::put(&mut p, "command", tools::described("string", "Shell command to execute."));
        json::put(&mut p, "background", tools::described("boolean", BACKGROUND_DESCRIPTION));
        tools::advertise(
            "bash",
            "Run a shell command and return its combined output (optimized to save tokens).",
            tools::object_schema(p, &tools::one_name("command")),
        )
    }

    pub fn risk(&self) -> (r: Risk)
        ensures
            r == Risk::Exec,
    {
        Risk::Exec
    }

    /// The program that runs commands.
    pub fn program(&self) -> (r: &'static str)
        ensures
            r@ == (match self.kind() {
                ShellKind::Sh => "sh"@,
                ShellKind::PowerShell => "powershell"@,
            }),
    {
        self.shell.program()
    }

    /// The arguments that run a command.
    pub fn args(&self, command: &str) -> (r: Vec<String>)
        ensures
            text::views(r@) == shell_args(self.kind(), command@),
    {
        self.shell.args(command)
    }

    /// What the input asks to run, or what the model is told where it asks for nothing.
    pub fn plan(input: &Json) -> (r: Result<BashPlan, ToolOutput>)
        ensures
            match (json::string_field(input.model(), "command"@), r) {
                (Some(command), Ok(plan)) => plan.command@ == command && plan.background == (
                json::bool_in(json::field_or_null(input.model(), "background"@)) == Some(true)),
                (None, Err(out)) => out@ == types::output_error("bash: missing `command`"@),
                _ => false,
            },
    {
        match input.str_field("command") {
            Some(command) => {
                let background = match input.bool_field("background") {
                    Some(b) => b,
                    None => false,
                };
                Ok(BashPlan { command: command.to_string(), background })
            },
            None => Err(ToolOutput::error("bash: missing `command`")),
        }
    }

    /// What the model is told where the command is not allowed.
    pub fn denied() -> (r: ToolOutput)
        ensures
            r@ == types::output_error("bash: denied"@),
    {
        ToolOutput::error("bash: denied")
    }

    /// What the model is told of how the command ended.
    pub fn finish(&self, command: &str, end: RunEnd) -> (r: ToolOutput)
        ensures
            r@ == told(self.optimizes(), self.families(), command@, end),
    {
        match end {
            RunEnd::NotStarted(e) => {
                let msg = text::concat2("bash: spawn failed: ", e.as_str());
                ToolOutput::error(msg.as_str())
            },
            RunEnd::Lost(e) => {
                let msg = text::concat2("bash: ", e.as_str());
                ToolOutput::error(msg.as_str())
            },
            RunEnd::TimedOut => ToolOutput::error(TIMED_OUT),
            RunEnd::Exited { stdout, stderr, success, code } => {
                let raw = combine(stdout.as_str(), stderr.as_str(), success, code);
                let shrunk = self.optimizer.apply(command, raw.as_str());
                ToolOutput { text: shrunk.text, is_error: !success, saved: shrunk.saved }
            },
        }
    }

    /// What the model is told of a background job: its id, or why it could not be started.
    pub fn detached(started: Result<String, String>) -> (r: ToolOutput)
        ensures
            r@ == (match started {
                Ok(id) => types::output_ok(
                    "started background job "@ + id@
                        + ". Inspect with process(action=\"output\", id=\""@ + id@
                        + "\") or process(action=\"wait\", id=\""@ + id@
                        + "\", until=\"<regex>\")."@,
                ),
                Err(e) => types::output_error("bash: background spawn failed: "@ + e@),
            }),
    {
        match started {
            Ok(id) => {
                let mut msg = text::concat3(
                    "started background job ",
                    id.as_str(),
                    ". Inspect with process(action=\"output\", id=\"",
                );
                msg.append(id.as_str());
                msg.append("\") or process(action=\"wait\", id=\"");
                msg.append(id.as_str());
                msg.append("\", until=\"<regex>\").");
                ToolOutput::ok(msg.as_str())
            },
            Err(e) => {
                let msg = text::concat2("bash: background spawn failed: ", e.as_str());
                ToolOutput::error(msg.as_str())
            },
        }
    }
}

impl BashPlan {
    /// What is put to the permission gate: the command itself.
    pub fn ask(&self) -> (r: Ask)
        ensures
            r@ == (AskView {
                risk: Risk::Exec,
                tool: "bash"@,
                key: self.command@,
                summary: self.command@,
            }),
    {
        Ask {
            risk: Risk::Exec,
            tool: "bash",
            key: self.command.clone(),
            summary: self.command.clone(),
        }
    }
}

// ---- what holds of a command's output -------------------------------------------------------

/// What a command wrote is told whole: its output, then its errors, on a line of their own. A command
/// that failed ends with its exit code and is marked an error; one that did well is neither.
pub proof fn what_was_written_is_told(
    families: Seq<optimize::Family>,
    command: Seq<char>,
    stdout: String,
    stderr: String,
    success: bool,
    code: Option<i32>,
)
    ensures
        ({
            let told = told(false, families, command, RunEnd::Exited { stdout, stderr, success, code });
            &&& told.is_error == !success
            &&& told.saved == 0
            &&& stdout@.is_prefix_of(told.text)
            &&& success ==> stderr@.is_suffix_of(told.text)
            &&& success && stderr@.len() == 0 ==> told.text == stdout@
            &&& success && stderr@.len() > 0 && stdout@.len() > 0 && stdout@.last() != '\n'
                ==> told.text == stdout@ + seq!['\n'] + stderr@
            &&& success && stderr@.len() > 0 && (stdout@.len() == 0 || stdout@.last() == '\n')
                ==> told.text == stdout@ + stderr@
            &&& !success && code is Some ==> told.text == combined(stdout@, stderr@, true, code)
                + "\n[exit "@ + text::signed_decimal(code->0 as int) + "]"@
            &&& !success && code is None ==> told.text == combined(stdout@, stderr@, true, code)
                + "\n[exit "@ + text::signed_decimal(-1) + "]"@
        }),
{
    reveal_strlit("\n");
    assert("\n"@ =~= seq!['\n']);
    let written = combined(stdout@, stderr@, true, code);
    let out = combined(stdout@, stderr@, success, code);
    assert(stdout@ =~= out.subrange(0, stdout@.len() as int));
    if success {
        assert(stderr@ =~= out.subrange(out.len() - stderr@.len(), out.len() as int));
    }
}

/// The command that is given is the one that the shell runs: it is the last argument, behind those that
/// tell the shell to take it from there.
pub proof fn the_shell_runs_the_command(kind: ShellKind, command: Seq<char>)
    ensures
        command.is_suffix_of(shell_args(kind, command).last()),
        kind == ShellKind::Sh ==> shell_args(kind, command) == seq!["-c"@, command],
{
    let last = shell_args(kind, command).last();
    assert(command =~= last.subrange(last.len() - command.len(), last.len() as int));
}

} // verus!
