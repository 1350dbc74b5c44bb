//! Workspace checkpoints — what files held before they were changed, so that edits can be rewound.
//!
//! Before a write tool changes a file, the file's prior content is recorded as a checkpoint.
//! Rewinding restores files to a captured state (removing files that did not exist then) and drops
//! the undone checkpoints.

use crate::text;
use vstd::prelude::*;
use vstd::string::*;

verus! {

/// One recorded snapshot: for each touched path, its content before the change (none where the file
/// did not exist yet).
pub struct Checkpoint {
    pub id: usize,
    pub label: String,
    files: Vec<(String, Option<String>)>,
}

/// An ordered stack of checkpoints.
pub struct CheckpointStore {
    checkpoints: Vec<Checkpoint>,
    next_id: usize,
}

/// A step that puts a file back.
pub enum Restore {
    /// The file gets this content.
    Write { path: String, content: String },
    /// There is no such file.
    Remove { path: String },
}

/// A path with what it held; none where there was no file.
pub type Capture = (Seq<char>, Option<Seq<char>>);

/// The mathematical value of a [`Checkpoint`].
pub struct CheckpointView {
    pub id: usize,
    pub label: Seq<char>,
    pub files: Seq<Capture>,
}

/// The captures of a checkpoint's files.
pub open spec fn files_view(files: Seq<(String, Option<String>)>) -> Seq<Capture> {
    Seq::new(files.len(), |i: int| (files[i].0@, text::opt_view(files[i].1)))
}

impl View for Checkpoint {
    type V = CheckpointView;

    closed spec fn view(&self) -> CheckpointView {
        CheckpointView { id: self.id, label: self.label@, files: files_view(self.files@) }
    }
}

impl View for CheckpointStore {
    type V = Seq<CheckpointView>;

    closed spec fn view(&self) -> Seq<CheckpointView> {
        text::views(self.checkpoints@)
    }
}

impl View for Restore {
    type V = Capture;

    open spec fn view(&self) -> Capture {
        match self {
            Restore::Write { path, content } => (path@, Some(content@)),
            Restore::Remove { path } => (path@, None),
        }
    }
}

/// The captures of all checkpoints from `pos` on, the newest checkpoint first.
pub open spec fn undone(checkpoints: Seq<CheckpointView>, pos: int) -> Seq<Capture>
    decreases checkpoints.len() - pos,
{
    if pos < 0 || pos >= checkpoints.len() {
        seq![]
    } else {
        undone(checkpoints, pos + 1) + checkpoints[pos].files
    }
}

/// The position of the checkpoint `id` at or after `i`.
pub open spec fn position(checkpoints: Seq<CheckpointView>, id: usize, i: int) -> Option<int>
    decreases checkpoints.len() - i,
{
    if i < 0 || i >= checkpoints.len() {
        None
    } else if checkpoints[i].id == id {
        Some(i)
    } else {
        position(checkpoints, id, i + 1)
    }
}

/// The files after a series of restoring steps. `files` maps each file that exists to its content.
pub open spec fn restored(files: Map<Seq<char>, Seq<char>>, steps: Seq<Capture>) -> Map<
    Seq<char>,
    Seq<char>,
>
    decreases steps.len(),
{
    if steps.len() == 0 {
        files
    } else {
        let before = restored(files, steps.drop_last());
        let step = steps.last();
        match step.1 {
            Some(content) => before.insert(step.0, content),
            None => before.remove(step.0),
        }
    }
}

/// What a file map holds at a path.
pub open spec fn held(files: Map<Seq<char>, Seq<char>>, path: Seq<char>) -> Option<Seq<char>> {
    if files.dom().contains(path) {
        Some(files[path])
    } else {
        None
    }
}

/// The last capture of `path` among the steps decides what the path holds afterwards; a path that is
/// not captured is left alone.
proof fn lemma_last_step_decides(
    files: Map<Seq<char>, Seq<char>>,
    steps: Seq<Capture>,
    path: Seq<char>,
    at: int,
)
    requires
        -1 <= at < steps.len(),
        at >= 0 ==> steps[at].0 == path,
        forall|k: int| at < k < steps.len() ==> (#[trigger] steps[k]).0 != path,
    ensures
        held(restored(files, steps), path) == (if at >= 0 {
            steps[at].1
        } else {
            held(files, path)
        }),
    decreases steps.len(),
{
    if steps.len() > 0 && at < steps.len() - 1 {
        lemma_last_step_decides(files, steps.drop_last(), path, at);
    }
}

/// The checkpoint captured the path.
pub open spec fn captures(c: CheckpointView, path: Seq<char>) -> bool {
    exists|k: int| 0 <= k < c.files.len() && (#[trigger] c.files[k]).0 == path
}

/// A rewind to the checkpoint at `pos` gives a file back what the oldest of the undone checkpoints
/// that captured it recorded, whatever later ones recorded and whatever the files hold now. That
/// checkpoint stands at `first`, with the file at `file` among its captures.
pub proof fn rewind_restores_the_oldest_capture(
    checkpoints: Seq<CheckpointView>,
    pos: int,
    first: int,
    file: int,
    files: Map<Seq<char>, Seq<char>>,
)
    requires
        0 <= pos <= first < checkpoints.len(),
        0 <= file < checkpoints[first].files.len(),
        forall|i: int|
            pos <= i < first ==> !captures(
                #[trigger] checkpoints[i],
                checkpoints[first].files[file].0,
            ),
        forall|k: int|
            file < k < checkpoints[first].files.len() ==> (#[trigger] checkpoints[first].files[k]).0
                != checkpoints[first].files[file].0,
    ensures
        held(restored(files, undone(checkpoints, pos)), checkpoints[first].files[file].0)
            == checkpoints[first].files[file].1,
{
    let at = undone(checkpoints, first + 1).len() + file;
    lemma_oldest_capture(checkpoints, pos, first, file);
    lemma_last_step_decides(
        files,
        undone(checkpoints, pos),
        checkpoints[first].files[file].0,
        at,
    );
}

proof fn lemma_oldest_capture(
    checkpoints: Seq<CheckpointView>,
    pos: int,
    first: int,
    file: int,
)
    requires
        0 <= pos <= first < checkpoints.len(),
        0 <= file < checkpoints[first].files.len(),
        forall|i: int|
            pos <= i < first ==> !captures(
                #[trigger] checkpoints[i],
                checkpoints[first].files[file].0,
            ),
        forall|k: int|
            file < k < checkpoints[first].files.len() ==> (#[trigger] checkpoints[first].files[k]).0
                != checkpoints[first].files[file].0,
    ensures
        ({
            let at = undone(checkpoints, first + 1).len() + file;
            let steps = undone(checkpoints, pos);
            &&& at < steps.len()
            &&& steps[at] == checkpoints[first].files[file]
            &&& forall|k: int|
                at < k < steps.len() ==> (#[trigger] steps[k]).0
                    != checkpoints[first].files[file].0
        }),
    decreases first - pos,
{
    let path = checkpoints[first].files[file].0;
    let at = undone(checkpoints, first + 1).len() + file;
    let later = undone(checkpoints, pos + 1);
    let own = checkpoints[pos].files;
    let steps = undone(checkpoints, pos);
    if pos < first {
        lemma_oldest_capture(checkpoints, pos + 1, first, file);
        assert(!captures(checkpoints[pos], path));
    }
    assert forall|k: int| at < k < steps.len() implies (#[trigger] steps[k]).0 != path by {
        if k < later.len() {
            assert(steps[k] == later[k]);
        } else {
            assert(steps[k] == own[k - later.len()]);
        }
    }
}

/// A file that no undone checkpoint captured is left as it is.
pub proof fn rewind_leaves_other_files_alone(
    checkpoints: Seq<CheckpointView>,
    pos: int,
    path: Seq<char>,
    files: Map<Seq<char>, Seq<char>>,
)
    requires
        0 <= pos <= checkpoints.len(),
        forall|i: int, k: int|
            pos <= i < checkpoints.len() && 0 <= k < checkpoints[i].files.len() ==> (
            #[trigger] checkpoints[i].files[k]).0 != path,
    ensures
        held(restored(files, undone(checkpoints, pos)), path) == held(files, path),
{
    lemma_undone_paths(checkpoints, pos, path);
    lemma_last_step_decides(files, undone(checkpoints, pos), path, -1);
}

proof fn lemma_undone_paths(checkpoints: Seq<CheckpointView>, pos: int, path: Seq<char>)
    requires
        0 <= pos <= checkpoints.len(),
        forall|i: int, k: int|
            pos <= i < checkpoints.len() && 0 <= k < checkpoints[i].files.len() ==> (
            #[trigger] checkpoints[i].files[k]).0 != path,
    ensures
        forall|k: int|
            0 <= k < undone(checkpoints, pos).len() ==> (#[trigger] undone(checkpoints, pos)[k]).0
                != path,
    decreases checkpoints.len() - pos,
{
    if pos < checkpoints.len() {
        lemma_undone_paths(checkpoints, pos + 1, path);
        let later = undone(checkpoints, pos + 1);
        let own = checkpoints[pos].files;
        assert forall|k: int| 0 <= k < undone(checkpoints, pos).len() implies (
        #[trigger] undone(checkpoints, pos)[k]).0 != path by {
            if k < later.len() {
                assert(undone(checkpoints, pos)[k] == later[k]);
            } else {
                assert(undone(checkpoints, pos)[k] == own[k - later.len()]);
            }
        }
    }
}

impl CheckpointStore {
    /// The id of the next checkpoint.
    pub closed spec fn next(&self) -> usize {
        self.next_id
    }

    /// Ids grow from the bottom of the stack to the top, so no two checkpoints share one.
    #[verifier::type_invariant]
    spec fn ids_grow(self) -> bool {
        &&& forall|i: int, j: int|
            0 <= i < j < self.checkpoints@.len() ==> (#[trigger] self.checkpoints@[i]).id < (
            #[trigger] self.checkpoints@[j]).id
        &&& forall|i: int|
            0 <= i < self.checkpoints@.len() ==> (#[trigger] self.checkpoints@[i]).id < self.next_id
    }

    pub fn new() -> (r: CheckpointStore)
        ensures
            r@.len() == 0,
            r.next() == 0,
    {
        CheckpointStore { checkpoints: Vec::new(), next_id: 0 }
    }

    /// Whether the ids are used up, so that no further checkpoint can be recorded.
    pub fn is_full(&self) -> (r: bool)
        ensures
            r == (self.next() == usize::MAX),
    {
        self.next_id == usize::MAX
    }

    /// Records what files hold as a new checkpoint (taken *before* modifying them), and gives its id.
    pub fn snapshot(&mut self, label: &str, files: Vec<(String, Option<String>)>) -> (r: usize)
        requires
            old(self).next() < usize::MAX,
        ensures
            r == old(self).next(),
            final(self).next() == r + 1,
            final(self)@ == old(self)@.push(
                CheckpointView { id: r, label: label@, files: files_view(files@) },
            ),
            forall|i: int| 0 <= i < old(self)@.len() ==> (#[trigger] old(self)@[i]).id < r,
    {
        proof {
            use_type_invariant(&*self);
        }
        let id = self.next_id;
        let ghost before = self.checkpoints@;
        let mut checkpoints: Vec<Checkpoint> = Vec::new();
        std::mem::swap(&mut checkpoints, &mut self.checkpoints);
        checkpoints.push(Checkpoint { id, label: label.to_string(), files });
        self.next_id = id + 1;
        self.checkpoints = checkpoints;
        assert(self@ =~= text::views(before).push(
            CheckpointView { id, label: label@, files: files_view(files@) },
        ));
        id
    }

    /// The steps that restore files to the state captured at checkpoint `id`, newest capture first
    /// so that the oldest wins. There are none where there is no such checkpoint.
    pub fn steps(&self, id: usize) -> (r: Vec<Restore>)
        ensures
            text::views(r@) == (match position(self@, id, 0) {
                Some(pos) => undone(self@, pos),
                None => seq![],
            }),
    {
        match self.find(id) {
            None => {
                let none: Vec<Restore> = Vec::new();
                assert(text::views(none@) =~= seq![]);
                none
            },
            Some(pos) => self.steps_from(pos),
        }
    }

    /// The steps that undo the most recent `n` checkpoints.
    pub fn steps_last(&self, n: usize) -> (r: Vec<Restore>)
        ensures
            text::views(r@) == undone(self@, last_kept(self@.len(), n as nat)),
    {
        let len = self.checkpoints.len();
        self.steps_from(if n < len {
            len - n
        } else {
            0
        })
    }

    fn steps_from(&self, pos: usize) -> (r: Vec<Restore>)
        requires
            pos <= self.checkpoints@.len(),
        ensures
            text::views(r@) == undone(self@, pos as int),
    {
        let mut out: Vec<Restore> = Vec::new();
        assert(text::views(out@) =~= seq![]);
        let mut i: usize = self.checkpoints.len();
        while i > pos
            invariant
                pos <= i <= self.checkpoints@.len(),
                text::views(out@) == undone(self@, i as int),
            decreases i,
        {
            i -= 1;
            self.push_files(i, &mut out);
        }
        out
    }

    fn push_files(&self, at: usize, out: &mut Vec<Restore>)
        requires
            at < self.checkpoints@.len(),
        ensures
            text::views(final(out)@) == text::views(old(out)@) + self@[at as int].files,
    {
        let ghost before = text::views(out@);
        let files = &self.checkpoints[at].files;
        let ghost own = files_view(files@);
        let mut i: usize = 0;
        while i < files.len()
            invariant
                0 <= i <= files@.len(),
                own == files_view(files@),
                text::views(out@) == before + own.take(i as int),
            decreases files@.len() - i,
        {
            let ghost was = out@;
            let step = match &files[i].1 {
                Some(content) => Restore::Write {
                    path: files[i].0.clone(),
                    content: content.clone(),
                },
                None => Restore::Remove { path: files[i].0.clone() },
            };
            assert(step@ == own[i as int]);
            out.push(step);
            i += 1;
            assert(text::views(out@) =~= text::views(was).push(step@));
            assert(before + own.take(i as int) =~= (before + own.take(i - 1)).push(own[i - 1]));
        }
        assert(own.take(i as int) =~= own);
    }

    fn find(&self, id: usize) -> (r: Option<usize>)
        ensures
            match r {
                Some(i) => position(self@, id, 0) == Some(i as int) && i < self.checkpoints@.len(),
                None => position(self@, id, 0) is None,
            },
    {
        let mut i: usize = 0;
        while i < self.checkpoints.len()
            invariant
                0 <= i <= self.checkpoints@.len(),
                position(self@, id, 0) == position(self@, id, i as int),
            decreases self.checkpoints@.len() - i,
        {
            assert(self@[i as int] == self.checkpoints@[i as int]@);
            if self.checkpoints[i].id == id {
                return Some(i);
            }
            i += 1;
        }
        None
    }

    /// Drops the checkpoint `id` and every later one, their files being restored. Gives the number
    /// of files that were.
    pub fn rewind(&mut self, id: usize) -> (r: usize)
        ensures
            final(self).next() == old(self).next(),
            r == (match position(old(self)@, id, 0) {
                Some(pos) => undone(old(self)@, pos).len(),
                None => 0,
            }),
            final(self)@ == (match position(old(self)@, id, 0) {
                Some(pos) => old(self)@.take(pos),
                None => old(self)@,
            }),
    {
        proof {
            use_type_invariant(&*self);
        }
        let steps = self.steps(id);
        assert(text::views(steps@).len() == steps@.len());
        if let Some(pos) = self.find(id) {
            let ghost before = self.checkpoints@;
            let mut checkpoints: Vec<Checkpoint> = Vec::new();
            std::mem::swap(&mut checkpoints, &mut self.checkpoints);
            checkpoints.truncate(pos);
            self.checkpoints = checkpoints;
            assert(self@ =~= text::views(before).take(pos as int));
        }
        steps.len()
    }

    /// Drops the most recent `n` checkpoints, or all where there are fewer, their files being
    /// restored. Gives the number of files that were.
    pub fn rewind_last(&mut self, n: usize) -> (r: usize)
        ensures
            final(self).next() == old(self).next(),
            r == undone(old(self)@, last_kept(old(self)@.len(), n as nat)).len(),
            final(self)@ == old(self)@.take(last_kept(old(self)@.len(), n as nat)),
    {
        let len = self.checkpoints.len();
        if len == 0 || n == 0 {
            assert(self@.take(self@.len() as int) =~= self@);
            return 0;
        }
        let count = if n < len {
            n
        } else {
            len
        };
        let id = self.checkpoints[len - count].id;
        proof {
            use_type_invariant(&*self);
            lemma_position_of(self@, len - count);
        }
        self.rewind(id)
    }

    /// The number of checkpoints.
    pub fn len(&self) -> (r: usize)
        ensures
            r == self@.len(),
    {
        self.checkpoints.len()
    }

    pub fn is_empty(&self) -> (r: bool)
        ensures
            r == (self@.len() == 0),
    {
        self.checkpoints.is_empty()
    }
}

/// How many of `len` checkpoints stay when the last `n` are rewound.
pub open spec fn last_kept(len: nat, n: nat) -> int {
    if n < len {
        len - n
    } else {
        0
    }
}

proof fn lemma_position_of(checkpoints: Seq<CheckpointView>, at: int)
    requires
        0 <= at < checkpoints.len(),
        forall|i: int| 0 <= i < at ==> (#[trigger] checkpoints[i]).id != checkpoints[at].id,
    ensures
        position(checkpoints, checkpoints[at].id, 0) == Some(at),
{
    lemma_position_from(checkpoints, at, 0);
}

proof fn lemma_position_from(checkpoints: Seq<CheckpointView>, at: int, i: int)
    requires
        0 <= i <= at < checkpoints.len(),
        forall|k: int| 0 <= k < at ==> (#[trigger] checkpoints[k]).id != checkpoints[at].id,
    ensures
        position(checkpoints, checkpoints[at].id, i) == Some(at),
    decreases at - i,
{
    if i < at {
        lemma_position_from(checkpoints, at, i + 1);
    }
}

/// Rewinding the last edits undoes as many as are asked for, or all where there are fewer: the last
/// ones, and the others stay as they were.
pub proof fn the_last_edits_are_undone(checkpoints: Seq<CheckpointView>, n: nat)
    ensures
        ({
            let kept = checkpoints.take(last_kept(checkpoints.len(), n));
            &&& kept.is_prefix_of(checkpoints)
            &&& n <= checkpoints.len() ==> kept.len() + n == checkpoints.len()
            &&& n > checkpoints.len() ==> kept.len() == 0
        }),
{
    let k = last_kept(checkpoints.len(), n);
    assert(checkpoints.take(k) =~= checkpoints.subrange(0, checkpoints.take(k).len() as int));
}

} // verus!
