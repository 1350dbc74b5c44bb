use std::collections::BTreeMap;

use cordy::json::{self, Json};
use cordy::tools::apply_patch::parser::{parse_patch, Hunk, ParseError, UpdateFileChunk};
use cordy::tools::apply_patch::seek::seek_sequence;
use cordy::tools::apply_patch::{
    io_err, plan, source_path, FileChange, FileOp, FileState, PatchError, Plan,
};
use cordy::tools::builtins::apply_patch::ApplyPatch;
use cordy::tools::{DenyAll, Permission, Risk};

// ---- a directory in memory ------------------------------------------------------------------

const CWD: &str = "/work";

type Files = BTreeMap<String, String>;

fn worktree(files: &[(&str, &str)]) -> Files {
    files
        .iter()
        .map(|(name, text)| (format!("{CWD}/{name}"), text.to_string()))
        .collect()
}

fn state(files: &Files, path: &str) -> FileState {
    match files.get(path) {
        Some(text) => FileState {
            exists: true,
            text: Ok(text.clone()),
        },
        None => FileState {
            exists: false,
            text: Err("No such file or directory (os error 2)".into()),
        },
    }
}

fn plan_in(patch: &str, cwd: &str, files: &Files) -> Result<Plan, PatchError> {
    let hunks = parse_patch(patch).unwrap_or_default();
    let states: Vec<FileState> = hunks
        .iter()
        .map(|h| match source_path(cwd, h) {
            Ok(path) => state(files, &path),
            Err(_) => FileState {
                exists: false,
                text: Err(String::new()),
            },
        })
        .collect();
    plan(patch, cwd, &states)
}

fn apply(plan: &Plan, files: &mut Files) -> String {
    for change in &plan.changes {
        for op in change.operations() {
            match op {
                FileOp::MakeDir { .. } => {}
                FileOp::Write { path, contents } => {
                    files.insert(path, contents);
                }
                FileOp::Remove { path } => {
                    files.remove(&path);
                }
            }
        }
    }
    plan.summary()
}

fn content(files: &Files, name: &str) -> String {
    files[&format!("{CWD}/{name}")].clone()
}

fn has(files: &Files, name: &str) -> bool {
    files.contains_key(&format!("{CWD}/{name}"))
}

fn lines(strings: &[&str]) -> Vec<String> {
    strings.iter().map(|s| (*s).to_string()).collect()
}

fn input(patch: &str) -> Json {
    let mut m = json::members();
    json::put(&mut m, "input", json::string(patch));
    json::object(m)
}

// ---- the parser -----------------------------------------------------------------------------

#[test]
fn requires_begin_and_end_markers() {
    assert_eq!(
        parse_patch("bad"),
        Err(ParseError::InvalidPatch(
            "The first line of the patch must be '*** Begin Patch'".into()
        ))
    );
    assert_eq!(
        parse_patch("*** Begin Patch\nbad"),
        Err(ParseError::InvalidPatch(
            "The last line of the patch must be '*** End Patch'".into()
        ))
    );
}

#[test]
fn parses_add_delete_and_update_with_move() {
    let hunks = parse_patch(
        "*** Begin Patch\n\
         *** Add File: path/add.py\n\
         +abc\n\
         +def\n\
         *** Delete File: path/delete.py\n\
         *** Update File: path/update.py\n\
         *** Move to: path/update2.py\n\
         @@ def f():\n\
         -    pass\n\
         +    return 123\n\
         *** End Patch",
    )
    .unwrap();
    assert_eq!(
        hunks,
        vec![
            Hunk::AddFile {
                path: "path/add.py".into(),
                contents: "abc\ndef\n".into(),
            },
            Hunk::DeleteFile {
                path: "path/delete.py".into(),
            },
            Hunk::UpdateFile {
                path: "path/update.py".into(),
                move_path: Some("path/update2.py".into()),
                chunks: vec![UpdateFileChunk {
                    change_context: Some("def f():".into()),
                    old_lines: vec!["    pass".into()],
                    new_lines: vec!["    return 123".into()],
                    is_end_of_file: false,
                }],
            },
        ]
    );
}

#[test]
fn an_update_hunk_may_omit_the_first_context_marker() {
    let hunks =
        parse_patch("*** Begin Patch\n*** Update File: file2.py\n import foo\n+bar\n*** End Patch")
            .unwrap();
    assert_eq!(
        hunks,
        vec![Hunk::UpdateFile {
            path: "file2.py".into(),
            move_path: None,
            chunks: vec![UpdateFileChunk {
                change_context: None,
                old_lines: vec!["import foo".into()],
                new_lines: vec!["import foo".into(), "bar".into()],
                is_end_of_file: false,
            }],
        }]
    );
}

#[test]
fn preserves_the_end_of_file_marker() {
    let hunks = parse_patch(
        "*** Begin Patch\n*** Update File: file.txt\n@@\n+quux\n*** End of File\n\n*** End Patch",
    )
    .unwrap();
    let Hunk::UpdateFile { chunks, .. } = &hunks[0] else {
        panic!("expected an update hunk");
    };
    assert!(chunks[0].is_end_of_file);
}

#[test]
fn an_empty_update_hunk_is_rejected() {
    assert_eq!(
        parse_patch("*** Begin Patch\n*** Update File: test.py\n*** End Patch"),
        Err(ParseError::InvalidHunk {
            message: "Update file hunk for path 'test.py' is empty".into(),
            line_number: 2,
        })
    );
}

#[test]
fn an_unmarked_diff_line_is_rejected_with_guidance() {
    let err = parse_patch(
        "*** Begin Patch\n*** Update File: a.txt\n@@\n+ok\nnot a diff line\n*** End Patch",
    )
    .unwrap_err();
    let ParseError::InvalidHunk { message, .. } = err else {
        panic!("expected a hunk error");
    };
    assert!(message.contains("@@ context marker"), "{message}");
}

#[test]
fn an_empty_patch_is_valid_and_does_nothing() {
    assert_eq!(
        parse_patch("*** Begin Patch\n*** End Patch").unwrap(),
        vec![]
    );
}

#[test]
fn a_heredoc_wrapper_is_stripped() {
    let inner = "*** Begin Patch\n*** Add File: a.txt\n+hi\n*** End Patch";
    for wrapper in ["<<EOF", "<<'EOF'", "<<\"EOF\""] {
        let hunks = parse_patch(&format!("{wrapper}\n{inner}\nEOF\n")).unwrap();
        assert_eq!(
            hunks,
            vec![Hunk::AddFile {
                path: "a.txt".into(),
                contents: "hi\n".into(),
            }]
        );
    }
    // A mismatched wrapper is still a plain parse error.
    assert!(parse_patch(&format!("<<\"EOF'\n{inner}\nEOF\n")).is_err());
}

#[test]
fn markers_tolerate_surrounding_whitespace() {
    let hunks =
        parse_patch("  *** Begin Patch  \n*** Add File: a.txt\n+hi\n  *** End Patch  ").unwrap();
    assert_eq!(hunks.len(), 1);
}

#[test]
fn hunk_errors_name_their_line() {
    let err = parse_patch("*** Begin Patch\nnonsense\n*** End Patch").unwrap_err();
    let ParseError::InvalidHunk { line_number, .. } = &err else {
        panic!("expected a hunk error");
    };
    assert_eq!(*line_number, 2);
    assert!(err.to_text().contains("line 2"), "{}", err.to_text());
}

// ---- the search -----------------------------------------------------------------------------

#[test]
fn exact_match_finds_sequence() {
    assert_eq!(
        seek_sequence(&lines(&["foo", "bar", "baz"]), &lines(&["bar", "baz"]), 0, false),
        Some(1)
    );
}

#[test]
fn trailing_whitespace_is_ignored() {
    assert_eq!(
        seek_sequence(&lines(&["foo   ", "bar\t\t"]), &lines(&["foo", "bar"]), 0, false),
        Some(0)
    );
}

#[test]
fn leading_and_trailing_whitespace_is_ignored() {
    assert_eq!(
        seek_sequence(
            &lines(&["    foo   ", "   bar\t"]),
            &lines(&["foo", "bar"]),
            0,
            false
        ),
        Some(0)
    );
}

#[test]
fn typographic_punctuation_still_matches() {
    let text = lines(&["let s = \u{201C}hi\u{201D};", "// em\u{2014}dash"]);
    let pattern = lines(&["let s = \"hi\";", "// em-dash"]);
    assert_eq!(seek_sequence(&text, &pattern, 0, false), Some(0));
}

#[test]
fn pattern_longer_than_input_returns_none() {
    assert_eq!(
        seek_sequence(
            &lines(&["just one line"]),
            &lines(&["too", "many", "lines"]),
            0,
            false
        ),
        None
    );
}

#[test]
fn eof_anchors_the_search_at_the_end() {
    let text = lines(&["x", "x", "x"]);
    assert_eq!(seek_sequence(&text, &lines(&["x"]), 0, true), Some(2));
    assert_eq!(seek_sequence(&text, &lines(&["x"]), 0, false), Some(0));
}

#[test]
fn search_starts_at_the_given_index() {
    let text = lines(&["a", "b", "a", "b"]);
    assert_eq!(seek_sequence(&text, &lines(&["a"]), 1, false), Some(2));
}

#[test]
fn an_exact_line_wins_over_a_loose_one_before_it() {
    let text = lines(&["  x  ", "x"]);
    assert_eq!(seek_sequence(&text, &lines(&["x"]), 0, false), Some(1));
}

// ---- the plan -------------------------------------------------------------------------------

#[test]
fn adds_updates_and_deletes_in_one_patch() {
    let mut files = worktree(&[("keep.txt", "one\ntwo\nthree\n"), ("gone.txt", "bye\n")]);
    let patch = "*** Begin Patch\n\
         *** Add File: new/hello.txt\n\
         +hello\n\
         *** Update File: keep.txt\n\
         @@\n\
         -two\n\
         +TWO\n\
         *** Delete File: gone.txt\n\
         *** End Patch";
    let plan = plan_in(patch, CWD, &files).unwrap();
    let summary = apply(&plan, &mut files);

    assert_eq!(content(&files, "new/hello.txt"), "hello\n");
    assert_eq!(content(&files, "keep.txt"), "one\nTWO\nthree\n");
    assert!(!has(&files, "gone.txt"));
    assert!(summary.contains("A "), "{summary}");
    assert!(summary.contains("D "), "{summary}");
}

#[test]
fn updates_with_a_rename_move_the_file() {
    let mut files = worktree(&[("src/old.rs", "fn main() {}\n")]);
    let patch = "*** Begin Patch\n\
         *** Update File: src/old.rs\n\
         *** Move to: src/new.rs\n\
         @@\n\
         -fn main() {}\n\
         +fn main() { println!(\"hi\"); }\n\
         *** End Patch";
    let plan = plan_in(patch, CWD, &files).unwrap();
    apply(&plan, &mut files);

    assert!(!has(&files, "src/old.rs"));
    assert_eq!(
        content(&files, "src/new.rs"),
        "fn main() { println!(\"hi\"); }\n"
    );
    assert_eq!(
        plan.changes[0].touched(),
        vec!["/work/src/old.rs".to_string(), "/work/src/new.rs".to_string()]
    );
}

#[test]
fn context_markers_disambiguate_repeated_code() {
    let mut files = worktree(&[("a.py", "def a():\n    pass\n\ndef b():\n    pass\n")]);
    let patch = "*** Begin Patch\n\
         *** Update File: a.py\n\
         @@ def b():\n\
         -    pass\n\
         +    return 2\n\
         *** End Patch";
    let plan = plan_in(patch, CWD, &files).unwrap();
    apply(&plan, &mut files);
    assert_eq!(
        content(&files, "a.py"),
        "def a():\n    pass\n\ndef b():\n    return 2\n"
    );
}

#[test]
fn drifted_context_still_matches() {
    // The file has trailing whitespace and a smart quote the patch doesn't reproduce.
    let mut files = worktree(&[("a.rs", "let s = \u{201C}hi\u{201D};   \nlet t = 1;\n")]);
    let patch = "*** Begin Patch\n\
         *** Update File: a.rs\n\
         @@\n\
         \x20let s = \"hi\";\n\
         -let t = 1;\n\
         +let t = 2;\n\
         *** End Patch";
    let plan = plan_in(patch, CWD, &files).unwrap();
    apply(&plan, &mut files);
    assert!(content(&files, "a.rs").contains("let t = 2;"));
}

#[test]
fn nothing_is_written_when_one_hunk_does_not_apply() {
    let files = worktree(&[("a.txt", "one\n")]);
    let patch = "*** Begin Patch\n\
         *** Add File: b.txt\n\
         +new file\n\
         *** Update File: a.txt\n\
         @@\n\
         -this line is not there\n\
         +replacement\n\
         *** End Patch";
    let err = plan_in(patch, CWD, &files).unwrap_err();
    assert!(matches!(err, PatchError::Mismatch(_)), "{}", err.to_text());
    assert!(
        !has(&files, "b.txt"),
        "a failed patch writes nothing at all"
    );
}

#[test]
fn paths_may_not_escape_the_working_directory() {
    for path in ["../outside.txt", "a/../../outside.txt"] {
        let patch = format!("*** Begin Patch\n*** Add File: {path}\n+nope\n*** End Patch");
        let err = plan_in(&patch, "/work/project", &worktree(&[])).unwrap_err();
        assert!(
            matches!(err, PatchError::Path(_)),
            "{path}: {}",
            err.to_text()
        );
    }
}

#[test]
fn adding_over_an_existing_file_is_refused() {
    let files = worktree(&[("a.txt", "already here\n")]);
    let err = plan_in(
        "*** Begin Patch\n*** Add File: a.txt\n+new\n*** End Patch",
        CWD,
        &files,
    )
    .unwrap_err();
    assert!(matches!(err, PatchError::Mismatch(_)), "{}", err.to_text());
}

#[test]
fn end_of_file_chunks_append_at_the_end() {
    let mut files = worktree(&[("a.txt", "one\ntwo\n")]);
    let patch = "*** Begin Patch\n\
         *** Update File: a.txt\n\
         @@\n\
         +three\n\
         *** End of File\n\
         *** End Patch";
    let plan = plan_in(patch, CWD, &files).unwrap();
    apply(&plan, &mut files);
    assert_eq!(content(&files, "a.txt"), "one\ntwo\nthree\n");
}

#[test]
fn the_preview_diff_names_each_file() {
    let files = worktree(&[("a.txt", "one\n")]);
    let plan = plan_in(
        "*** Begin Patch\n*** Update File: a.txt\n@@\n-one\n+ONE\n*** End Patch",
        CWD,
        &files,
    )
    .unwrap();
    let diff = plan.diff();
    assert!(diff.contains("M "), "{diff}");
    assert!(diff.contains("-one"), "{diff}");
    assert!(diff.contains("+ONE"), "{diff}");
}

#[test]
fn a_file_that_cannot_be_read_is_reported() {
    let patch = "*** Begin Patch\n*** Update File: a.txt\n@@\n-one\n+ONE\n*** End Patch";
    let err = plan_in(patch, CWD, &worktree(&[])).unwrap_err();
    assert!(matches!(err, PatchError::Io(_) | PatchError::Mismatch(_)));
    assert!(err.to_text().contains("a.txt"), "{}", err.to_text());
    assert!(matches!(io_err("/work/a.txt", "disk full"), PatchError::Io(_)));
}

#[test]
fn several_chunks_leave_the_lines_between_them_alone() {
    let mut files = worktree(&[("a.txt", "1\n2\n3\n4\n5\n6\n7\n")]);
    let patch = "*** Begin Patch\n\
         *** Update File: a.txt\n\
         @@\n\
         -2\n\
         +two\n\
         @@\n\
         -6\n\
         +six\n\
         *** End Patch";
    let plan = plan_in(patch, CWD, &files).unwrap();
    apply(&plan, &mut files);
    assert_eq!(content(&files, "a.txt"), "1\ntwo\n3\n4\n5\nsix\n7\n");
}

// ---- the tool -------------------------------------------------------------------------------

fn run(files: &mut Files, input: &Json, gate: &dyn Permission) -> (bool, String) {
    let patch = match ApplyPatch::patch_of(input) {
        Ok(p) => p,
        Err(out) => return (out.is_error, out.text),
    };
    let plan = match plan_in(patch, CWD, files) {
        Ok(p) => p,
        Err(e) => {
            let out = ApplyPatch::refused(&e);
            return (out.is_error, out.text);
        }
    };
    let ask = match ApplyPatch::review(&plan) {
        Ok(ask) => ask,
        Err(out) => return (out.is_error, out.text),
    };
    assert_eq!(ask.risk, Risk::Write);
    if !gate.request(&ask.request()) {
        let out = ApplyPatch::denied();
        return (out.is_error, out.text);
    }
    apply(&plan, files);
    let out = ApplyPatch::applied(&plan);
    (out.is_error, out.text)
}

#[test]
fn applies_a_multi_file_patch() {
    let mut files = worktree(&[("a.txt", "one\ntwo\n")]);
    let (is_error, text) = run(
        &mut files,
        &input(
            "*** Begin Patch\n\
             *** Add File: b.txt\n\
             +fresh\n\
             *** Update File: a.txt\n\
             @@\n\
             -two\n\
             +TWO\n\
             *** End Patch",
        ),
        &cordy::tools::AutoApprove,
    );
    assert!(!is_error, "{text}");
    assert_eq!(content(&files, "a.txt"), "one\nTWO\n");
    assert_eq!(content(&files, "b.txt"), "fresh\n");
    assert!(text.contains("2 file(s)"), "{text}");
}

#[test]
fn a_denied_patch_leaves_the_worktree_untouched() {
    let mut files = worktree(&[("a.txt", "one\n")]);
    let (is_error, _) = run(
        &mut files,
        &input("*** Begin Patch\n*** Update File: a.txt\n@@\n-one\n+ONE\n*** End Patch"),
        &DenyAll,
    );
    assert!(is_error);
    assert_eq!(content(&files, "a.txt"), "one\n");
}

#[test]
fn a_malformed_patch_reports_what_was_expected() {
    let (is_error, text) = run(
        &mut worktree(&[]),
        &input("just some text"),
        &cordy::tools::AutoApprove,
    );
    assert!(is_error);
    assert!(text.contains("*** Begin Patch"), "{text}");
}

#[test]
fn an_input_without_a_patch_is_refused() {
    let out = ApplyPatch::patch_of(&json::object(json::members())).unwrap_err();
    assert!(out.is_error);
    assert!(out.text.starts_with("apply_patch: "), "{}", out.text);
}

#[test]
fn an_update_keeps_the_original_for_review() {
    let files = worktree(&[("a.txt", "one\n")]);
    let plan = plan_in(
        "*** Begin Patch\n*** Update File: a.txt\n@@\n-one\n+ONE\n*** End Patch",
        CWD,
        &files,
    )
    .unwrap();
    assert_eq!(
        plan.changes,
        vec![FileChange::Update {
            path: "/work/a.txt".into(),
            move_to: None,
            original: "one\n".into(),
            contents: "ONE\n".into(),
        }]
    );
    assert_eq!(plan.changes[0].target(), "/work/a.txt");
}

#[test]
fn an_indented_end_marker_ends_an_update() {
    let hunks = parse_patch(
        "*** Begin Patch\n*** Update File: a.txt\n@@\n-x\n+y\n  *** End Patch",
    )
    .unwrap();
    assert_eq!(
        hunks,
        vec![Hunk::UpdateFile {
            path: "a.txt".into(),
            move_path: None,
            chunks: vec![UpdateFileChunk {
                change_context: None,
                old_lines: lines(&["x"]),
                new_lines: lines(&["y"]),
                is_end_of_file: false,
            }],
        }]
    );
}

#[test]
fn an_indented_end_marker_before_other_lines_is_context() {
    let hunks = parse_patch(
        "*** Begin Patch\n*** Update File: a.txt\n@@\n *** End Patch\n-x\n+y\n *** End Patch",
    )
    .unwrap();
    assert_eq!(
        hunks,
        vec![Hunk::UpdateFile {
            path: "a.txt".into(),
            move_path: None,
            chunks: vec![UpdateFileChunk {
                change_context: None,
                old_lines: lines(&["*** End Patch", "x"]),
                new_lines: lines(&["*** End Patch", "y"]),
                is_end_of_file: false,
            }],
        }]
    );
}

#[test]
fn an_anchored_search_stays_behind_its_start() {
    assert_eq!(seek_sequence(&lines(&["a", "b"]), &lines(&["b"]), 2, true), None);
    assert_eq!(seek_sequence(&lines(&["a", "b"]), &lines(&["b"]), 1, true), Some(1));
    assert_eq!(seek_sequence(&lines(&["b", "a"]), &lines(&["b"]), 0, true), None);
}

#[test]
fn a_blank_last_line_stays() {
    let patched = |text: &str, patch: &str| {
        let mut files = worktree(&[("f", text)]);
        let plan = plan_in(patch, CWD, &files).unwrap();
        apply(&plan, &mut files);
        content(&files, "f")
    };
    let patch = "*** Begin Patch\n*** Update File: f\n@@\n-a\n+b\n*** End Patch";
    assert_eq!(patched("a\n\n", patch), "b\n\n");
    assert_eq!(patched("a\n", patch), "b\n");
    assert_eq!(patched("a", patch), "b\n");
    let blank = "*** Begin Patch\n*** Update File: f\n@@\n-a\n+\n*** End Patch";
    assert_eq!(patched("a\n", blank), "\n");
}

#[test]
fn chunks_at_the_end_of_the_file_keep_their_order() {
    let files = worktree(&[("f", "a\nb\n")]);
    let patch = "*** Begin Patch\n*** Update File: f\n@@\n-b\n+c\n@@\n-b\n+d\n*** End of File\n*** End Patch";
    assert!(matches!(
        plan_in(patch, CWD, &files),
        Err(PatchError::Mismatch(_))
    ));
}
