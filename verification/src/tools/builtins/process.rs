//! Background processes — long-running commands (dev servers, watchers, builds) that don't block the
//! agent: poll their output, wait for a condition, or kill them.
//!
//! [`BgRegistry`] is shared between the `bash` tool (which starts background jobs) and the
//! [`Process`] tool (which inspects them). Each job's combined output goes into a capped buffer; the
//! agent reads new output on demand.

use crate::bytes;
use crate::engine::types;
use crate::engine::types::{OutputView, ToolOutput, ToolSpec, ToolView};
use crate::json;
use crate::json::{Json, JsonSpec};
use crate::patterns;
use crate::text;
use crate::tools;
use crate::tools::Risk;
use vstd::prelude::*;
use vstd::string::*;

verus! {

broadcast use crate::text::views_push;

/// Keep at most this many bytes of a background job's output in memory (the oldest is dropped).
pub const BUF_CAP: usize = 65536;

/// The exit code that stands for a job that was killed.
pub const KILLED: i32 = -2;

/// The arguments of the program that stops a process and all that it started.
pub open spec fn killer_args(windows: bool, pid: u32) -> Seq<Seq<char>> {
    let id = text::decimal(pid as nat);
    if windows {
        Seq::empty().push("/PID"@).push(id).push("/T"@).push("/F"@)
    } else {
        Seq::empty().push("-TERM"@).push("-"@ + id)
    }
}

/// The program that stops a process and all that it started, with its arguments. Killing the child
/// alone would leave the real server (a grandchild) running: on Windows the whole tree is named,
/// elsewhere the group that the child leads.
pub fn tree_killer(windows: bool, pid: u32) -> (r: (&'static str, Vec<String>))
    ensures
        r.0@ == (if windows {
            "taskkill"@
        } else {
            "kill"@
        }),
        text::views(r.1@) == killer_args(windows, pid),
{
    let id = text::decimal_of(pid as u64);
    let mut args: Vec<String> = Vec::new();
    assert(text::views(args@) =~= Seq::empty());
    if windows {
        args.push("/PID".to_string());
        args.push(id);
        args.push("/T".to_string());
        args.push("/F".to_string());
        ("taskkill", args)
    } else {
        args.push("-TERM".to_string());
        args.push(text::concat2("-", id.as_str()));
        ("kill", args)
    }
}

/// A single background job.
pub struct Job {
    id: String,
    command: String,
    output: String,
    done: bool,
    exit: Option<i32>,
    /// Whether it was asked to stop.
    stopping: bool,
    /// How many bytes of `output` the agent has already been shown (for incremental reads).
    seen: usize,
}

/// The mathematical value of a [`Job`].
pub struct JobView {
    pub id: Seq<char>,
    pub command: Seq<char>,
    pub output: Seq<char>,
    pub done: bool,
    pub exit: Option<i32>,
    pub stopping: bool,
    pub seen: nat,
}

impl View for Job {
    type V = JobView;

    closed spec fn view(&self) -> JobView {
        JobView {
            id: self.id@,
            command: self.command@,
            output: self.output@,
            done: self.done,
            exit: self.exit,
            stopping: self.stopping,
            seen: self.seen as nat,
        }
    }
}

/// How a job stands.
pub open spec fn status_of(j: JobView) -> Seq<char> {
    if j.done {
        match j.exit {
            Some(c) => if c == KILLED {
                "killed"@
            } else {
                "exited (code "@ + text::signed_decimal(c as int) + ")"@
            },
            None => "exited"@,
        }
    } else {
        "running"@
    }
}

/// The buffer with a line appended, its oldest characters dropped where it grows too long.
pub open spec fn with_line(output: Seq<char>, line: Seq<char>) -> Seq<char> {
    bytes::tail(output + line + "\n"@, BUF_CAP as nat)
}

/// How many bytes the buffer loses at its front when a line is appended.
pub open spec fn dropped_by(output: Seq<char>, line: Seq<char>) -> nat {
    (bytes::byte_len(output + line + "\n"@) - bytes::byte_len(with_line(output, line))) as nat
}

/// The job after a line of its output. The read cursor moves back with the output that it counts.
pub open spec fn grown(j: JobView, line: Seq<char>) -> JobView {
    let dropped = dropped_by(j.output, line);
    JobView {
        output: with_line(j.output, line),
        seen: if j.seen >= dropped {
            (j.seen - dropped) as nat
        } else {
            0
        },
        ..j
    }
}

/// The output that the agent has not been shown.
pub open spec fn unseen(j: JobView) -> Seq<char> {
    bytes::behind(j.output, j.seen)
}

/// The job after its output was read.
pub open spec fn read_out(j: JobView) -> JobView {
    JobView { seen: bytes::byte_len(j.output), ..j }
}

/// The id of the `n`th job.
pub open spec fn job_id(n: nat) -> Seq<char> {
    "bg"@ + text::decimal(n)
}

/// The position at or after `i` of the job called `id`.
pub open spec fn position(jobs: Seq<JobView>, id: Seq<char>, i: int) -> Option<int>
    decreases jobs.len() - i,
{
    if i < 0 || i >= jobs.len() {
        None
    } else if jobs[i].id == id {
        Some(i)
    } else {
        position(jobs, id, i + 1)
    }
}

/// Each job has the id of its place.
pub open spec fn numbered(jobs: Seq<JobView>) -> bool {
    forall|i: int| 0 <= i < jobs.len() ==> (#[trigger] jobs[i]).id == job_id(i as nat)
}

proof fn lemma_position_at(jobs: Seq<JobView>, n: int, i: int)
    requires
        numbered(jobs),
        0 <= i <= n < jobs.len(),
    ensures
        position(jobs, job_id(n as nat), i) == Some(n),
    decreases n - i,
{
    assert(jobs[i].id == job_id(i as nat));
    if i < n {
        job_ids_differ(i as nat, n as nat);
        lemma_position_at(jobs, n, i + 1);
    }
}

/// Two jobs never share an id.
pub proof fn job_ids_differ(m: nat, n: nat)
    requires
        m != n,
    ensures
        job_id(m) != job_id(n),
{
    text::lemma_decimal_differs(m, n);
    let a = text::decimal(m);
    let b = text::decimal(n);
    if "bg"@ + a == "bg"@ + b {
        assert(a =~= ("bg"@ + a).skip("bg"@.len() as int));
        assert(b =~= ("bg"@ + b).skip("bg"@.len() as int));
    }
}

/// How many of the first `n` jobs are still running.
pub open spec fn running_to(jobs: Seq<JobView>, n: int) -> nat
    decreases n,
{
    if n <= 0 {
        0
    } else if jobs[n - 1].done {
        running_to(jobs, n - 1)
    } else {
        running_to(jobs, n - 1) + 1
    }
}

/// Reading the output a second time, with nothing come in between, gives nothing.
pub proof fn output_is_shown_once(j: JobView)
    ensures
        unseen(read_out(j)) == Seq::<char>::empty(),
{
    let s = j.output;
    let n = bytes::byte_len(s);
    lemma_nothing_behind(s, n, 0);
}

proof fn lemma_nothing_behind(s: Seq<char>, n: nat, k: int)
    requires
        0 <= k <= s.len(),
        n == bytes::byte_len(s),
    ensures
        bytes::behind_from(s, n, k) == Seq::<char>::empty(),
    decreases s.len() - k,
{
    if k < s.len() {
        let rest = s.skip(k);
        assert(s =~= s.take(k) + rest);
        bytes::lemma_byte_len_add(s.take(k), rest);
        bytes::lemma_byte_len_first(rest);
        lemma_nothing_behind(s, n, k + 1);
    }
}

/// The read cursor stands between two characters of the buffer.
pub open spec fn cursor_fits(j: JobView) -> bool {
    exists|k: int| 0 <= k <= j.output.len() && j.seen == bytes::byte_len(#[trigger] j.output.take(k))
}

/// Where the read cursor stands between two characters of the buffer, it does so after a line came
/// in; and it does so after a read, and in a job that was just started.
pub proof fn the_cursor_keeps_its_place(j: JobView, line: Seq<char>)
    ensures
        cursor_fits(j) ==> cursor_fits(grown(j, line)),
        cursor_fits(read_out(j)),
        cursor_fits(JobView { output: seq![], seen: 0, ..j }),
{
    let out = j.output;
    assert(out.take(out.len() as int) =~= out);
    assert(read_out(j).output.take(out.len() as int) =~= out);
    let started = JobView { output: seq![], seen: 0, ..j };
    assert(started.output.take(0) =~= seq![]);
    assert(bytes::byte_len(Seq::<char>::empty()) == 0);
    if cursor_fits(j) {
        let k = choose|k: int|
            0 <= k <= out.len() && j.seen == bytes::byte_len(#[trigger] out.take(k));
        lemma_grown(j, line, k);
    }
}

/// New output is shown: after a line came in, what has not been shown is what had not been shown
/// before and the line, of which just what the buffer cannot hold is missing at the front.
pub proof fn new_output_is_shown(j: JobView, line: Seq<char>)
    requires
        cursor_fits(j),
    ensures
        unseen(grown(j, line)) == bytes::tail(unseen(j) + line + "\n"@, BUF_CAP as nat),
{
    let k = choose|k: int|
        0 <= k <= j.output.len() && j.seen == bytes::byte_len(#[trigger] j.output.take(k));
    lemma_grown(j, line, k);
}

proof fn lemma_grown(j: JobView, line: Seq<char>, k: int)
    requires
        0 <= k <= j.output.len(),
        j.seen == bytes::byte_len(j.output.take(k)),
    ensures
        cursor_fits(grown(j, line)),
        unseen(grown(j, line)) == bytes::tail(unseen(j) + line + "\n"@, BUF_CAP as nat),
{
    let cap = BUF_CAP as nat;
    let full = j.output + line + "\n"@;
    let d = bytes::lemma_tail_begins(full, cap, 0);
    let kept = full.skip(d);
    let after = grown(j, line);
    bytes::lemma_behind_at(j.output, k);
    bytes::lemma_byte_len_cut(full, 0, d);
    assert(full.take(k) =~= j.output.take(k));
    let fresh = unseen(j) + line + "\n"@;
    assert(fresh =~= full.skip(k));
    if d <= k {
        bytes::lemma_byte_len_cut(full, d, k);
        assert(after.seen == bytes::byte_len(after.output.take(k - d)));
        bytes::lemma_behind_at(kept, k - d);
        assert(kept.skip(k - d) =~= fresh);
        bytes::lemma_byte_len_cut(kept, 0, k - d);
        bytes::a_tail_stays_within(fresh, cap);
    } else {
        bytes::lemma_byte_len_cut(full, k, d);
        assert(after.seen == 0);
        assert(kept.take(0) =~= seq![]);
        assert(bytes::byte_len(after.output.take(0)) == 0);
        bytes::lemma_behind_at(kept, 0);
        assert(kept.skip(0) =~= kept);
        assert(fresh.skip(d - k) =~= kept);
        assert forall|i: int| 0 <= i < d - k implies bytes::byte_len(#[trigger] fresh.skip(i))
            > cap by {
            assert(fresh.skip(i) =~= full.skip(k + i));
        }
        bytes::lemma_tail_at(fresh, cap, 0, d - k);
    }
}

/// The buffer never holds more bytes than its cap.
pub proof fn the_buffer_stays_within_its_cap(output: Seq<char>, line: Seq<char>)
    ensures
        bytes::byte_len(with_line(output, line)) <= BUF_CAP,
{
    bytes::a_tail_stays_within(output + line + "\n"@, BUF_CAP as nat);
}

impl Job {
    fn status(&self) -> (r: String)
        ensures
            r@ == status_of(self@),
    {
        if self.done {
            match self.exit {
                Some(c) => if c == KILLED {
                    "killed".to_string()
                } else {
                    text::concat3(
                        "exited (code ",
                        text::signed_decimal_of(c as i64).as_str(),
                        ")",
                    )
                },
                None => "exited".to_string(),
            }
        } else {
            "running".to_string()
        }
    }
}

/// The background jobs, in the order in which they were started.
pub struct BgRegistry {
    jobs: Vec<Job>,
}

impl View for BgRegistry {
    type V = Seq<JobView>;

    closed spec fn view(&self) -> Seq<JobView> {
        text::views(self.jobs@)
    }
}

impl Default for BgRegistry {
    fn default() -> (r: BgRegistry)
        ensures
            r@ == Seq::<JobView>::empty(),
    {
        let r = BgRegistry { jobs: Vec::new() };
        assert(r@ =~= Seq::empty());
        r
    }
}

/// A job as it is listed.
pub struct Listed {
    pub id: String,
    pub command: String,
    pub status: String,
}

/// The mathematical value of a [`Listed`].
pub struct ListedView {
    pub id: Seq<char>,
    pub command: Seq<char>,
    pub status: Seq<char>,
}

impl View for Listed {
    type V = ListedView;

    open spec fn view(&self) -> ListedView {
        ListedView { id: self.id@, command: self.command@, status: self.status@ }
    }
}

/// How a job is listed.
pub open spec fn listed(j: JobView) -> ListedView {
    ListedView { id: j.id, command: j.command, status: status_of(j) }
}

/// The jobs as they are listed: each once, in dictionary order of their ids.
pub open spec fn is_listing(list: Seq<ListedView>, jobs: Seq<JobView>) -> bool {
    &&& list.to_multiset() == jobs.map_values(|j: JobView| listed(j)).to_multiset()
    &&& forall|i: int, j: int|
        0 <= i < j < list.len() ==> !text::precedes(
            (#[trigger] list[j]).id,
            (#[trigger] list[i]).id,
        )
}

impl BgRegistry {
    #[verifier::type_invariant]
    spec fn ids_follow_places(self) -> bool {
        numbered(text::views(self.jobs@))
    }

    /// Puts a job in the place of another of the same id.
    fn put(&mut self, i: usize, job: Job)
        requires
            i < old(self)@.len(),
            job@.id == old(self)@[i as int].id,
        ensures
            final(self)@ == old(self)@.update(i as int, job@),
    {
        proof {
            use_type_invariant(&*self);
        }
        let ghost before = self@;
        let mut jobs: Vec<Job> = Vec::new();
        std::mem::swap(&mut jobs, &mut self.jobs);
        jobs.set(i, job);
        assert(text::views(jobs@) =~= before.update(i as int, job@));
        self.jobs = jobs;
    }

    /// Records a job that was just started; gives its id.
    pub fn spawn(&mut self, command: &str) -> (r: String)
        ensures
            r@ == job_id(old(self)@.len()),
            final(self)@ == old(self)@.push(
                JobView {
                    id: r@,
                    command: command@,
                    output: seq![],
                    done: false,
                    exit: None,
                    stopping: false,
                    seen: 0,
                },
            ),
            position(final(self)@, r@, 0) == Some(old(self)@.len() as int),
    {
        proof {
            use_type_invariant(&*self);
        }
        let ghost before = self@;
        let mut jobs: Vec<Job> = Vec::new();
        std::mem::swap(&mut jobs, &mut self.jobs);
        let id = text::concat2("bg", text::decimal_of(jobs.len() as u64).as_str());
        let output = String::new();
        assert(output@ =~= seq![]);
        let job = Job {
            id: id.clone(),
            command: command.to_string(),
            output,
            done: false,
            exit: None,
            stopping: false,
            seen: 0,
        };
        jobs.push(job);
        assert(text::views(jobs@) =~= before.push(job@));
        self.jobs = jobs;
        proof {
            lemma_position_at(self@, before.len() as int, 0);
        }
        id
    }

    fn find(&self, id: &str) -> (r: Option<usize>)
        ensures
            match r {
                Some(i) => position(self@, id@, 0) == Some(i as int) && i < self.jobs@.len(),
                None => position(self@, id@, 0) is None,
            },
    {
        let mut i: usize = 0;
        while i < self.jobs.len()
            invariant
                0 <= i <= self.jobs@.len(),
                position(self@, id@, 0) == position(self@, id@, i as int),
            decreases self.jobs@.len() - i,
        {
            assert(self@[i as int] == self.jobs@[i as int]@);
            if text::same(self.jobs[i].id.as_str(), id) {
                return Some(i);
            }
            i += 1;
        }
        None
    }

    /// Adds a line of a job's output, if there is such a job.
    pub fn push_line(&mut self, id: &str, line: &str)
        ensures
            final(self)@ == (match position(old(self)@, id@, 0) {
                Some(i) => old(self)@.update(i, grown(old(self)@[i], line@)),
                None => old(self)@,
            }),
    {
        if let Some(i) = self.find(id) {
            let ghost before = self@;
            let mut full = self.jobs[i].output.clone();
            full.append(line);
            full.append("\n");
            let output = bytes::tail_of(full.as_str(), BUF_CAP).to_string();
            let whole_len = full.as_str().as_bytes().len();
            let kept_len = output.as_str().as_bytes().len();
            proof {
                let d = bytes::lemma_tail_begins(full@, BUF_CAP as nat, 0);
                bytes::lemma_byte_len_cut(full@, 0, d);
            }
            let dropped = whole_len - kept_len;
            let seen = self.jobs[i].seen;
            let job = Job {
                id: self.jobs[i].id.clone(),
                command: self.jobs[i].command.clone(),
                output,
                done: self.jobs[i].done,
                exit: self.jobs[i].exit,
                stopping: self.jobs[i].stopping,
                seen: if seen >= dropped {
                    seen - dropped
                } else {
                    0
                },
            };
            assert(before[i as int] == self.jobs@[i as int]@);
            self.put(i, job);
        }
    }

    /// Records how a job ended, if there is such a job.
    pub fn finish(&mut self, id: &str, code: i32)
        ensures
            final(self)@ == (match position(old(self)@, id@, 0) {
                Some(i) => old(self)@.update(
                    i,
                    JobView { done: true, exit: Some(code), ..old(self)@[i] },
                ),
                None => old(self)@,
            }),
    {
        if let Some(i) = self.find(id) {
            let ghost before = self@;
            let job = Job {
                id: self.jobs[i].id.clone(),
                command: self.jobs[i].command.clone(),
                output: self.jobs[i].output.clone(),
                done: true,
                exit: Some(code),
                stopping: self.jobs[i].stopping,
                seen: self.jobs[i].seen,
            };
            assert(before[i as int] == self.jobs@[i as int]@);
            self.put(i, job);
        }
    }

    /// New output since the last read for `id`, plus its status. Advances the read cursor.
    pub fn read_new(&mut self, id: &str) -> (r: Option<(String, String)>)
        ensures
            match position(old(self)@, id@, 0) {
                Some(i) => {
                    &&& r matches Some((new_output, status))
                    &&& new_output@ == unseen(old(self)@[i])
                    &&& status@ == status_of(old(self)@[i])
                    &&& final(self)@ == old(self)@.update(i, read_out(old(self)@[i]))
                },
                None => r is None && final(self)@ == old(self)@,
            },
    {
        match self.find(id) {
            None => None,
            Some(i) => {
                let ghost before = self@;
                assert(before[i as int] == self.jobs@[i as int]@);
                let status = self.jobs[i].status();
                let buf = self.jobs[i].output.as_str();
                let len = buf.as_bytes().len();
                let new_output = bytes::behind_of(buf, self.jobs[i].seen).to_string();
                let job = Job {
                    id: self.jobs[i].id.clone(),
                    command: self.jobs[i].command.clone(),
                    output: self.jobs[i].output.clone(),
                    done: self.jobs[i].done,
                    exit: self.jobs[i].exit,
                    stopping: self.jobs[i].stopping,
                    seen: len,
                };
                self.put(i, job);
                Some((new_output, status))
            },
        }
    }

    /// Whether the job has finished.
    pub fn is_done(&self, id: &str) -> (r: Option<bool>)
        ensures
            r == (match position(self@, id@, 0) {
                Some(i) => Some(self@[i].done),
                None => None,
            }),
    {
        match self.find(id) {
            Some(i) => {
                assert(self@[i as int] == self.jobs@[i as int]@);
                Some(self.jobs[i].done)
            },
            None => None,
        }
    }

    /// The full current buffer (for the condition of a wait).
    pub fn snapshot(&self, id: &str) -> (r: Option<String>)
        ensures
            text::opt_view(r) == (match position(self@, id@, 0) {
                Some(i) => Some(self@[i].output),
                None => None,
            }),
    {
        match self.find(id) {
            Some(i) => {
                assert(self@[i as int] == self.jobs@[i as int]@);
                Some(self.jobs[i].output.clone())
            },
            None => None,
        }
    }

    /// Asks a job to stop. False where there is no such job.
    pub fn kill(&mut self, id: &str) -> (r: bool)
        ensures
            r == (position(old(self)@, id@, 0) is Some),
            final(self)@ == (match position(old(self)@, id@, 0) {
                Some(i) => old(self)@.update(i, JobView { stopping: true, ..old(self)@[i] }),
                None => old(self)@,
            }),
    {
        match self.find(id) {
            Some(i) => {
                let ghost before = self@;
                let job = Job {
                    id: self.jobs[i].id.clone(),
                    command: self.jobs[i].command.clone(),
                    output: self.jobs[i].output.clone(),
                    done: self.jobs[i].done,
                    exit: self.jobs[i].exit,
                    stopping: true,
                    seen: self.jobs[i].seen,
                };
                assert(before[i as int] == self.jobs@[i as int]@);
                self.put(i, job);
                true
            },
            None => false,
        }
    }

    /// Whether the job was asked to stop.
    pub fn is_stopping(&self, id: &str) -> (r: Option<bool>)
        ensures
            r == (match position(self@, id@, 0) {
                Some(i) => Some(self@[i].stopping),
                None => None,
            }),
    {
        match self.find(id) {
            Some(i) => {
                assert(self@[i as int] == self.jobs@[i as int]@);
                Some(self.jobs[i].stopping)
            },
            None => None,
        }
    }

    /// Number of jobs that are still running (for the status bar).
    pub fn running_count(&self) -> (r: usize)
        ensures
            r == running_to(self@, self@.len() as int),
    {
        let ghost all = self@;
        let mut n: usize = 0;
        let mut i: usize = 0;
        while i < self.jobs.len()
            invariant
                0 <= i <= self.jobs@.len(),
                all == text::views(self.jobs@),
                n <= i,
                n == running_to(all, i as int),
            decreases self.jobs@.len() - i,
        {
            assert(all[i as int] == self.jobs@[i as int]@);
            if !self.jobs[i].done {
                n += 1;
            }
            i += 1;
        }
        n
    }

    /// Every known job.
    pub fn list(&self) -> (r: Vec<Listed>)
        ensures
            is_listing(text::views(r@), self@),
    {
        let ghost all = self@.map_values(|j: JobView| listed(j));
        let mut out: Vec<Listed> = Vec::new();
        assert(text::views(out@) =~= all.take(0));
        let mut n: usize = 0;
        while n < self.jobs.len()
            invariant
                0 <= n <= self.jobs@.len(),
                all == self@.map_values(|j: JobView| listed(j)),
                text::views(out@).to_multiset() == all.take(n as int).to_multiset(),
                forall|i: int, j: int|
                    0 <= i < j < text::views(out@).len() ==> !text::precedes(
                        (#[trigger] text::views(out@)[j]).id,
                        (#[trigger] text::views(out@)[i]).id,
                    ),
            decreases self.jobs@.len() - n,
        {
            let job = &self.jobs[n];
            assert(self@[n as int] == job@);
            let entry = Listed {
                id: job.id.clone(),
                command: job.command.clone(),
                status: job.status(),
            };
            assert(entry@ == all[n as int]);
            insert_by_id(&mut out, entry);
            assert(all.take(n + 1) =~= all.take(n as int).push(all[n as int]));
            proof {
                vstd::seq_lib::to_multiset_build(all.take(n as int), all[n as int]);
            }
            n += 1;
        }
        assert(all.take(n as int) =~= all);
        out
    }
}

fn insert_by_id(out: &mut Vec<Listed>, entry: Listed)
    requires
        forall|i: int, j: int|
            0 <= i < j < text::views(old(out)@).len() ==> !text::precedes(
                (#[trigger] text::views(old(out)@)[j]).id,
                (#[trigger] text::views(old(out)@)[i]).id,
            ),
    ensures
        text::views(final(out)@).to_multiset() == text::views(old(out)@).to_multiset().insert(
            entry@,
        ),
        forall|i: int, j: int|
            0 <= i < j < text::views(final(out)@).len() ==> !text::precedes(
                (#[trigger] text::views(final(out)@)[j]).id,
                (#[trigger] text::views(final(out)@)[i]).id,
            ),
{
    let ghost before = text::views(out@);
    let ghost x = entry@;
    let mut at: usize = 0;
    while at < out.len() && !text::less(entry.id.as_str(), out[at].id.as_str())
        invariant
            0 <= at <= out@.len(),
            before == text::views(out@),
            x == entry@,
            forall|i: int| 0 <= i < at ==> !text::precedes(x.id, (#[trigger] before[i]).id),
        decreases out@.len() - at,
    {
        assert(before[at as int] == out@[at as int]@);
        at += 1;
    }
    proof {
        if at < before.len() {
            assert(before[at as int] == out@[at as int]@);
            assert forall|j: int| at <= j < before.len() implies !text::precedes(
                (#[trigger] before[j]).id,
                x.id,
            ) by {
                if text::precedes(before[j].id, x.id) {
                    text::lemma_precedes_chain(before[j].id, x.id, before[at as int].id);
                    if j == at {
                        text::lemma_precedes_differ(before[j].id, before[j].id);
                    }
                }
            }
        }
    }
    out.insert(at, entry);
    proof {
        let after = text::views(out@);
        assert(after =~= before.insert(at as int, x));
        vstd::seq_lib::to_multiset_insert(before, at as int, x);
        assert forall|i: int, j: int| 0 <= i < j < after.len() implies !text::precedes(
            (#[trigger] after[j]).id,
            (#[trigger] after[i]).id,
        ) by {
            if j < at {
                assert(after[i] == before[i] && after[j] == before[j]);
            } else if j == at {
                assert(after[i] == before[i]);
            } else if i < at {
                assert(after[i] == before[i] && after[j] == before[j - 1]);
            } else if i == at {
                assert(after[j] == before[j - 1]);
            } else {
                assert(after[i] == before[i - 1] && after[j] == before[j - 1]);
            }
        }
    }
}

// ---- the tool -------------------------------------------------------------------------------

/// The `process` tool: inspect and control background jobs started by `bash`.
pub struct Process;

pub const DESCRIPTION: &'static str =
    "Inspect background jobs started by `bash` with background:true. action=output reads new output; action=wait blocks until `until` (regex) appears, the job exits, or timeout_secs elapses; action=kill stops it; action=list shows all jobs.";

/// What the tool is advertised as.
pub open spec fn process_spec() -> ToolView {
    ToolView {
        name: "process"@,
        description: DESCRIPTION@,
        input_schema: tools::object_spec(
            json::pairs4(
                "action"@,
                tools::choice_spec(
                    Seq::empty().push("output"@).push("wait"@).push("kill"@).push("list"@),
                ),
                "id"@,
                tools::described_spec("string"@, "Job id (e.g. bg0). Not needed for list."@),
                "until"@,
                tools::described_spec("string"@, "wait: regex to watch for in the output."@),
                "timeout_secs"@,
                tools::described_spec("integer"@, "wait: max seconds (default 30)."@),
            ),
            Seq::empty().push("action"@),
        ),
    }
}

/// What an input asks for.
pub enum Request {
    List,
    Kill { id: String },
    Wait { id: String, until: Option<String>, timeout_secs: u64 },
    Output { id: String },
    /// It asks for nothing that can be done; what the model is told.
    Bad(ToolOutput),
}

/// The mathematical value of a [`Request`].
pub enum RequestView {
    List,
    Kill { id: Seq<char> },
    Wait { id: Seq<char>, until: Option<Seq<char>>, timeout_secs: u64 },
    Output { id: Seq<char> },
    Bad(OutputView),
}

impl View for Request {
    type V = RequestView;

    open spec fn view(&self) -> RequestView {
        match self {
            Request::List => RequestView::List,
            Request::Kill { id } => RequestView::Kill { id: id@ },
            Request::Wait { id, until, timeout_secs } => RequestView::Wait {
                id: id@,
                until: text::opt_view(*until),
                timeout_secs: *timeout_secs,
            },
            Request::Output { id } => RequestView::Output { id: id@ },
            Request::Bad(out) => RequestView::Bad(out@),
        }
    }
}

/// How long an input asks to wait: at most ten minutes.
pub open spec fn timeout_in(input: JsonSpec) -> u64 {
    match json::u64_in(json::field_or_null(input, "timeout_secs"@)) {
        Some(n) => if n <= 600 {
            n
        } else {
            600
        },
        None => 30,
    }
}

/// What an input asks for. An action that is not known reads the output.
pub open spec fn request_in(input: JsonSpec) -> RequestView {
    let action = match json::string_field(input, "action"@) {
        Some(a) => a,
        None => "output"@,
    };
    if action == "list"@ {
        RequestView::List
    } else {
        match json::string_field(input, "id"@) {
            None => RequestView::Bad(types::output_error("process: missing `id`"@)),
            Some(id) => if action == "kill"@ {
                RequestView::Kill { id }
            } else if action == "wait"@ {
                let until = json::string_field(input, "until"@);
                match until {
                    Some(pattern) => match patterns::regex_error(pattern) {
                        Some(e) => RequestView::Bad(
                            types::output_error("process: bad `until`: "@ + e),
                        ),
                        None => RequestView::Wait { id, until, timeout_secs: timeout_in(input) },
                    },
                    None => RequestView::Wait { id, until, timeout_secs: timeout_in(input) },
                }
            } else {
                RequestView::Output { id }
            },
        }
    }
}

/// There is no such job.
pub open spec fn no_job(id: Seq<char>) -> OutputView {
    types::output_error("process: no job "@ + id)
}

/// A job on a line of its own.
pub open spec fn listing_line(j: ListedView) -> Seq<char> {
    j.id + "  ["@ + j.status + "]  "@ + j.command
}

/// What a look at a waited-for job gives: whether the wait goes on, and what the model is told once it
/// does not.
pub open spec fn looked(
    jobs: Seq<JobView>,
    id: Seq<char>,
    until: Option<Seq<char>>,
    expired: bool,
) -> (Seq<JobView>, Option<OutputView>) {
    match position(jobs, id, 0) {
        None => (jobs, Some(no_job(id))),
        Some(i) => {
            let j = jobs[i];
            let met = until matches Some(p) && patterns::matched(p, j.output);
            if met || j.done || expired {
                let why = if met {
                    "condition met"@
                } else if j.done {
                    "job finished"@
                } else {
                    "timeout"@
                };
                (
                    jobs.update(i, read_out(j)),
                    Some(
                        types::output_ok(
                            "["@ + id + " · "@ + status_of(j) + " · "@ + why + "]\n"@ + unseen(
                                j,
                            ),
                        ),
                    ),
                )
            } else {
                (jobs, None)
            }
        },
    }
}

/// The jobs after the output of one is read, and what the model is told.
pub open spec fn shown(jobs: Seq<JobView>, id: Seq<char>) -> (Seq<JobView>, OutputView) {
    match position(jobs, id, 0) {
        None => (jobs, no_job(id)),
        Some(i) => {
            let head = "["@ + id + " · "@ + status_of(jobs[i]);
            let fresh = unseen(jobs[i]);
            (
                jobs.update(i, read_out(jobs[i])),
                types::output_ok(
                    if fresh.len() == 0 {
                        head + "] (no new output)"@
                    } else {
                        head + "]\n"@ + fresh
                    },
                ),
            )
        },
    }
}

fn missing(id: &str) -> (r: ToolOutput)
    ensures
        r@ == no_job(id@),
{
    let msg = text::concat2("process: no job ", id);
    ToolOutput::error(msg.as_str())
}

impl Process {
    pub fn spec(&self) -> (r: ToolSpec)
        ensures
            r@ == process_spec(),
    {
        let mut actions = text::to_strings(&tools::three_names("output", "wait", "kill"));
        actions.push("list".to_string());
        let mut p = json::members();
        json::put(&mut p, "action", tools::choice(&actions));
        json::put(
            &mut p,
            "id",
            tools::described("string", "Job id (e.g. bg0). Not needed for list."),
        );
        json::put(
            &mut p,
            "until",
            tools::described("string", "wait: regex to watch for in the output."),
        );
        json::put(
            &mut p,
            "timeout_secs",
            tools::described("integer", "wait: max seconds (default 30)."),
        );
        tools::advertise(
            "process",
            DESCRIPTION,
            tools::object_schema(p, &tools::one_name("action")),
        )
    }

    pub fn risk(&self) -> (r: Risk)
        ensures
            r == Risk::ReadOnly,
    {
        Risk::ReadOnly
    }

    /// What an input asks for.
    pub fn request(input: &Json) -> (r: Request)
        ensures
            r@ == request_in(input.model()),
    {
        let action = match input.str_field("action") {
            Some(a) => a,
            None => "output",
        };
        if text::same(action, "list") {
            return Request::List;
        }
        let id = match input.str_field("id") {
            Some(id) => id.to_string(),
            None => return Request::Bad(ToolOutput::error("process: missing `id`")),
        };
        if text::same(action, "kill") {
            return Request::Kill { id };
        }
        if !text::same(action, "wait") {
            return Request::Output { id };
        }
        let until = match input.str_field("until") {
            Some(p) => Some(p.to_string()),
            None => None,
        };
        if let Some(p) = &until {
            if let Some(e) = patterns::error_in(p.as_str()) {
                let msg = text::concat2("process: bad `until`: ", e.as_str());
                return Request::Bad(ToolOutput::error(msg.as_str()));
            }
        }
        let timeout_secs: u64 = match input.u64_field("timeout_secs") {
            Some(n) => if n <= 600 {
                n
            } else {
                600
            },
            None => 30,
        };
        Request::Wait { id, until, timeout_secs }
    }

    /// The list of all jobs.
    pub fn list(reg: &BgRegistry) -> (r: ToolOutput)
        ensures
            exists|list: Seq<ListedView>| #[trigger] is_listing(list, reg@) && r@ == (if list.len()
                == 0 {
                types::output_ok("no background jobs"@)
            } else {
                types::output_ok(
                    text::joined(list.map_values(|j: ListedView| listing_line(j)), "\n"@),
                )
            }),
    {
        let jobs = reg.list();
        let ghost list = text::views(jobs@);
        assert(is_listing(list, reg@));
        if jobs.len() == 0 {
            return ToolOutput::ok("no background jobs");
        }
        let mut lines: Vec<String> = Vec::new();
        let mut i: usize = 0;
        while i < jobs.len()
            invariant
                0 <= i <= jobs@.len(),
                lines@.len() == i,
                forall|k: int| 0 <= k < i ==> (#[trigger] lines@[k])@ == listing_line(jobs@[k]@),
            decreases jobs@.len() - i,
        {
            let mut line = text::concat3(jobs[i].id.as_str(), "  [", jobs[i].status.as_str());
            line.append("]  ");
            line.append(jobs[i].command.as_str());
            lines.push(line);
            i += 1;
        }
        assert(text::views(lines@) =~= list.map_values(|j: ListedView| listing_line(j)));
        let body = text::join(&lines, "\n");
        ToolOutput::ok(body.as_str())
    }

    /// Asks a job to stop, and what the model is told.
    pub fn kill(reg: &mut BgRegistry, id: &str) -> (r: ToolOutput)
        ensures
            match position(old(reg)@, id@, 0) {
                Some(i) => r@ == types::output_ok(id@ + ": kill requested"@) && final(reg)@ == old(
                    reg,
                )@.update(i, JobView { stopping: true, ..old(reg)@[i] }),
                None => r@ == no_job(id@) && final(reg)@ == old(reg)@,
            },
    {
        if reg.kill(id) {
            let msg = text::concat2(id, ": kill requested");
            ToolOutput::ok(msg.as_str())
        } else {
            missing(id)
        }
    }

    /// One look at a waited-for job. None where the wait goes on; `expired` says that its time is up.
    pub fn look(reg: &mut BgRegistry, id: &str, until: Option<&str>, expired: bool) -> (r: Option<
        ToolOutput,
    >)
        ensures
            (final(reg)@, match r {
                Some(out) => Some(out@),
                None => None,
            }) == looked(old(reg)@, id@, match until {
                Some(p) => Some(p@),
                None => None,
            }, expired),
    {
        let done = match reg.is_done(id) {
            Some(d) => d,
            None => return Some(missing(id)),
        };
        let met = match until {
            Some(p) => match reg.snapshot(id) {
                Some(s) => patterns::is_match(p, s.as_str()),
                None => false,
            },
            None => false,
        };
        if !met && !done && !expired {
            return None;
        }
        let why = if met {
            "condition met"
        } else if done {
            "job finished"
        } else {
            "timeout"
        };
        match reg.read_new(id) {
            Some((new_output, status)) => {
                let mut msg = text::concat3("[", id, " · ");
                msg.append(status.as_str());
                msg.append(" · ");
                msg.append(why);
                msg.append("]\n");
                msg.append(new_output.as_str());
                Some(ToolOutput::ok(msg.as_str()))
            },
            None => Some(missing(id)),
        }
    }

    /// The new output of a job.
    pub fn output(reg: &mut BgRegistry, id: &str) -> (r: ToolOutput)
        ensures
            (final(reg)@, r@) == shown(old(reg)@, id@),
    {
        match reg.read_new(id) {
            None => missing(id),
            Some((new_output, status)) => {
                let mut msg = text::concat3("[", id, " · ");
                msg.append(status.as_str());
                if new_output.as_str().unicode_len() == 0 {
                    msg.append("] (no new output)");
                } else {
                    msg.append("]\n");
                    msg.append(new_output.as_str());
                }
                ToolOutput::ok(msg.as_str())
            },
        }
    }
}

// ---- what a look at a job gives -------------------------------------------------------------

proof fn lemma_first_position(jobs: Seq<JobView>, id: Seq<char>, at: int, i: int)
    requires
        0 <= i <= at <= jobs.len(),
        at < jobs.len() ==> jobs[at].id == id,
        forall|k: int| 0 <= k < at ==> (#[trigger] jobs[k]).id != id,
    ensures
        position(jobs, id, i) == (if at < jobs.len() {
            Some(at)
        } else {
            None
        }),
    decreases at - i,
{
    if i < at {
        assert(jobs[i].id != id);
        lemma_first_position(jobs, id, at, i + 1);
    }
}

/// Reading a job's output gives what it wrote since the last time and no more: what is told ends with
/// it, nothing is left unseen of that job, and every other job is as it was.
pub proof fn reading_shows_the_new_output(jobs: Seq<JobView>, at: int, other: int)
    requires
        0 <= at < jobs.len(),
        forall|k: int| 0 <= k < at ==> (#[trigger] jobs[k]).id != jobs[at].id,
        0 <= other < jobs.len(),
        other != at,
    ensures
        ({
            let (after, told) = shown(jobs, jobs[at].id);
            &&& !told.is_error
            &&& unseen(jobs[at]).is_suffix_of(told.text) || unseen(jobs[at]).len() == 0
            &&& after.len() == jobs.len()
            &&& unseen(after[at]).len() == 0
            &&& after[at].output == jobs[at].output && after[at].done == jobs[at].done
            &&& after[other] == jobs[other]
        }),
{
    lemma_first_position(jobs, jobs[at].id, at, 0);
    output_is_shown_once(jobs[at]);
    let told = shown(jobs, jobs[at].id).1;
    let fresh = unseen(jobs[at]);
    if fresh.len() > 0 {
        assert(fresh =~= told.text.subrange(
            told.text.len() - fresh.len(),
            told.text.len() as int,
        ));
    }
}

/// A job that is not there is an error, and nothing changes.
pub proof fn an_unknown_job_is_an_error(
    jobs: Seq<JobView>,
    id: Seq<char>,
    until: Option<Seq<char>>,
    expired: bool,
)
    requires
        forall|k: int| 0 <= k < jobs.len() ==> (#[trigger] jobs[k]).id != id,
    ensures
        shown(jobs, id).0 == jobs,
        shown(jobs, id).1.is_error,
        looked(jobs, id, until, expired).0 == jobs,
        looked(jobs, id, until, expired).1 matches Some(told) && told.is_error,
{
    lemma_first_position(jobs, id, jobs.len() as int, 0);
}

/// A wait ends when the output holds what is waited for, when the job is done, or when the time is up,
/// and not before. Then it gives what the job wrote since the last time; until then nothing changes.
pub proof fn a_wait_ends_in_time(
    jobs: Seq<JobView>,
    at: int,
    until: Option<Seq<char>>,
    expired: bool,
)
    requires
        0 <= at < jobs.len(),
        forall|k: int| 0 <= k < at ==> (#[trigger] jobs[k]).id != jobs[at].id,
    ensures
        ({
            let (after, told) = looked(jobs, jobs[at].id, until, expired);
            let met = until is Some && patterns::matched(until->0, jobs[at].output);
            &&& told is Some <==> met || jobs[at].done || expired
            &&& told is None ==> after == jobs
            &&& told matches Some(out) ==> {
                &&& !out.is_error
                &&& unseen(jobs[at]).is_suffix_of(out.text)
                &&& after == jobs.update(at, read_out(jobs[at]))
                &&& unseen(after[at]).len() == 0
            }
        }),
{
    lemma_first_position(jobs, jobs[at].id, at, 0);
    output_is_shown_once(jobs[at]);
    let told = looked(jobs, jobs[at].id, until, expired).1;
    if let Some(out) = told {
        let fresh = unseen(jobs[at]);
        assert(fresh =~= out.text.subrange(out.text.len() - fresh.len(), out.text.len() as int));
    }
}

/// The jobs that run are those that are not done.
pub proof fn the_running_jobs_are_counted(jobs: Seq<JobView>, n: int)
    requires
        0 <= n <= jobs.len(),
    ensures
        running_to(jobs, n) == jobs.take(n).filter(|j: JobView| !j.done).len(),
    decreases n,
{
    reveal(Seq::filter);
    if n > 0 {
        the_running_jobs_are_counted(jobs, n - 1);
        assert(jobs.take(n).drop_last() =~= jobs.take(n - 1));
        assert(jobs.take(n).last() == jobs[n - 1]);
    }
}

/// What is asked is what is done: each action with the job that it names. An action that is not known,
/// or none, reads the output.
pub proof fn an_action_names_its_job(input: JsonSpec, action: Seq<char>, id: Seq<char>)
    requires
        json::string_field(input, "action"@) == Some(action),
        json::string_field(input, "id"@) == Some(id),
        json::field_or_null(input, "until"@) is Null,
        json::field_or_null(input, "timeout_secs"@) is Null,
    ensures
        action == "list"@ ==> request_in(input) is List,
        action == "kill"@ ==> request_in(input) == (RequestView::Kill { id }),
        action == "wait"@ ==> request_in(input) == (RequestView::Wait {
            id,
            until: None,
            timeout_secs: 30,
        }),
        action == "output"@ ==> request_in(input) == (RequestView::Output { id }),
{
    reveal_strlit("list");
    reveal_strlit("kill");
    reveal_strlit("wait");
    reveal_strlit("output");
    assert("list"@[0] == 'l' && "kill"@[0] == 'k' && "wait"@[0] == 'w' && "output"@[0] == 'o');
}

/// The status of a job tells whether it runs, was killed, or how it ended.
pub proof fn the_status_tells_the_end(j: JobView, code: i32)
    ensures
        !j.done ==> status_of(j) == "running"@,
        j.done && j.exit is None ==> status_of(j) == "exited"@,
        j.done && j.exit == Some(code) && code != KILLED ==> status_of(j) == "exited (code "@
            + text::signed_decimal(code as int) + ")"@,
        j.done && j.exit == Some(KILLED) ==> status_of(j) == "killed"@,
{
}

/// A wait lasts as long as is asked, up to ten minutes, and half a minute where nothing is asked.
pub proof fn a_wait_lasts_as_asked(input: JsonSpec, n: u64)
    ensures
        json::field(input, "timeout_secs"@) == Some(JsonSpec::Number(json::NumberSpec::PosInt(n)))
            ==> timeout_in(input) == (if n < 600 {
            n
        } else {
            600
        }),
        json::field(input, "timeout_secs"@) is None ==> timeout_in(input) == 30,
{
}

} // verus!
