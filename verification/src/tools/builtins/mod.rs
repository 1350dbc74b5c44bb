//! Builtin tools and the [`BuiltinTools`] capability source that registers them.
//!
//! A tool decides what an input asks for, what is put to the permission gate, and what the model is
//! told; between these steps the caller reads and writes files, runs commands and fetches pages.

use crate::engine::capability::CapabilitySource;
use crate::engine::types::{ToolSpec, ToolView};
use crate::text;
use crate::tools::optimize::Optimizer;
use vstd::prelude::*;
use vstd::string::*;

pub mod apply_patch;
pub mod bash;
pub mod edit;
pub mod glob;
pub mod goal;
pub mod grep;
pub mod ls;
pub mod multiedit;
pub mod process;
pub mod read;
pub mod rewind;
pub mod todo;
pub mod web;
pub mod write;

pub use apply_patch::ApplyPatch;
pub use bash::{Bash, ShellKind};
pub use edit::Edit;
pub use glob::Glob;
pub use grep::Grep;
pub use ls::Ls;
pub use multiedit::MultiEdit;
pub use process::{BgRegistry, Process};
pub use read::Read;
pub use rewind::Rewind;
pub use todo::{Todo, TodoList};
pub use web::{WebFetch, WebSearch};
pub use write::Write;

verus! {

broadcast use crate::text::views_push;

/// What the builtin tools are advertised as.
pub open spec fn builtin_specs() -> Seq<ToolView> {
    Seq::empty()
        .push(read::read_spec())
        .push(write::write_spec())
        .push(edit::edit_spec())
        .push(apply_patch::apply_patch_spec())
        .push(multiedit::multiedit_spec())
        .push(grep::grep_spec())
        .push(glob::glob_spec())
        .push(ls::ls_spec())
        .push(todo::todo_spec())
        .push(rewind::rewind_spec())
        .push(web::search_spec())
        .push(web::fetch_spec())
        .push(bash::bash_spec())
        .push(process::process_spec())
}

/// No two builtin tools share a name, so that a registry holds them all.
pub proof fn builtin_names_differ(i: int, j: int)
    requires
        0 <= i < j < builtin_specs().len(),
    ensures
        builtin_specs()[i].name != builtin_specs()[j].name,
{
    reveal_strlit("read");
    reveal_strlit("write");
    reveal_strlit("edit");
    reveal_strlit("apply_patch");
    reveal_strlit("multiedit");
    reveal_strlit("grep");
    reveal_strlit("glob");
    reveal_strlit("ls");
    reveal_strlit("todo");
    reveal_strlit("rewind");
    reveal_strlit("web_search");
    reveal_strlit("web_fetch");
    reveal_strlit("bash");
    reveal_strlit("process");
    let all = builtin_specs();
    assert(all.len() == 14);
    assert(all[0].name == "read"@ && all[1].name == "write"@);
    assert(all[2].name == "edit"@ && all[3].name == "apply_patch"@);
    assert(all[4].name == "multiedit"@ && all[5].name == "grep"@);
    assert(all[6].name == "glob"@ && all[7].name == "ls"@);
    assert(all[8].name == "todo"@ && all[9].name == "rewind"@);
    assert(all[10].name == "web_search"@ && all[11].name == "web_fetch"@);
    assert(all[12].name == "bash"@ && all[13].name == "process"@);
    assert("read"@[0] == 'r' && "edit"@[0] == 'e' && "grep"@[0] == 'g' && "glob"@[0] == 'g');
    assert("todo"@[0] == 't' && "bash"@[0] == 'b' && "grep"@[1] == 'r' && "glob"@[1] == 'l');
    assert("multiedit"@[0] == 'm' && "web_fetch"@[0] == 'w');
}

/// The built-in toolset. Shares the [`Optimizer`] with the `bash` tool so command output is
/// compressed on the way back to the model.
pub struct BuiltinTools {
    pub bash: Bash,
}

impl BuiltinTools {
    pub fn new(optimizer: Optimizer, shell: ShellKind) -> (r: BuiltinTools)
        ensures
            r.bash.families() == optimizer.families(),
            r.bash.optimizes() == optimizer.is_enabled(),
            r.bash.kind() == shell,
    {
        BuiltinTools { bash: Bash::new(optimizer, shell) }
    }
}

impl CapabilitySource for BuiltinTools {
    open spec fn offered(&self) -> Seq<ToolView> {
        builtin_specs()
    }

    open spec fn fragment(&self) -> Option<Seq<char>> {
        None
    }

    fn tools(&self) -> (r: Vec<ToolSpec>) {
        let mut r: Vec<ToolSpec> = Vec::new();
        assert(text::views(r@) =~= Seq::empty());
        r.push(Read.spec());
        r.push(Write.spec());
        r.push(Edit.spec());
        r.push(ApplyPatch.spec());
        r.push(MultiEdit.spec());
        r.push(Grep.spec());
        r.push(Glob.spec());
        r.push(Ls.spec());
        r.push(Todo::new(TodoList::default()).spec());
        r.push(Rewind.spec());
        r.push(WebSearch.spec());
        r.push(WebFetch.spec());
        r.push(self.bash.spec());
        r.push(Process.spec());
        r
    }

    fn prompt_fragment(&self) -> (r: Option<String>) {
        None
    }
}

} // verus!
