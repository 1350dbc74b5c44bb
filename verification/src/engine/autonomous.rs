//! Autonomous mode — `/goal` persistence and loop guardrails.
//!
//! `/goal` writes a north-star to `.cordy/goal.md`; the agent's running notes live in
//! `.cordy/progress.md`. The loop discards the rotting context each iteration and keeps the goal and
//! progress on disk, so long tasks don't drown in context. [`Guardrails`] bound the loop so it can
//! run unattended without burning budget: it stops on goal-complete, a max iteration count, or a cost
//! cap.

use super::goal;
use super::goal::Usd;
use crate::paths;
use crate::text;
use crate::text_laws;
use vstd::prelude::*;
use vstd::string::*;

verus! {

/// The goal and progress files under a `.cordy` directory.
pub struct GoalStore {
    dir: String,
}

/// The text of the goal file for a goal.
pub open spec fn goal_file(goal: Seq<char>) -> Seq<char> {
    "# GOAL\n\n"@ + goal + "\n"@
}

/// The goal that a goal file holds: what follows the heading.
pub open spec fn goal_in(file: Seq<char>) -> Option<Seq<char>> {
    let body = text::trimmed(
        if text::begins(file, "# GOAL"@) {
            text::after(file, "# GOAL"@.len() as int)
        } else {
            file
        },
    );
    if body.len() > 0 {
        Some(body)
    } else {
        None
    }
}

proof fn lemma_trim_end_feed(s: Seq<char>)
    ensures
        text::trimmed_end(s.push('\n')) == text::trimmed_end(s),
{
    assert(s.push('\n').subrange(0, s.push('\n').len() - 1) =~= s);
}

proof fn lemma_trim_start_tail(s: Seq<char>, tail: Seq<char>)
    requires
        text::trimmed_start(s).len() > 0,
    ensures
        text::trimmed_start(s + tail) == text::trimmed_start(s) + tail,
    decreases s.len(),
{
    if s.len() > 0 && text::is_ws(s[0]) {
        let rest = s.subrange(1, s.len() as int);
        lemma_trim_start_tail(rest, tail);
        assert((s + tail).subrange(1, (s + tail).len() as int) =~= rest + tail);
    }
}

/// A goal that is set is read back, without white space around it; a goal that is all white space
/// is none.
pub proof fn a_set_goal_reads_back(goal: Seq<char>)
    ensures
        goal_in(goal_file(goal)) == (if text::trimmed(goal).len() > 0 {
            Some(text::trimmed(goal))
        } else {
            None
        }),
{
    reveal_strlit("# GOAL\n\n");
    reveal_strlit("# GOAL");
    reveal_strlit("\n");
    let file = goal_file(goal);
    let n = "# GOAL"@.len() as int;
    assert(file.subrange(0, n) =~= "# GOAL"@);
    let body = text::after(file, n);
    let inner = goal.push('\n');
    assert(body =~= seq!['\n', '\n'] + inner);
    assert(text::is_ws('\n'));
    let one = body.subrange(1, body.len() as int);
    assert(one =~= seq!['\n'] + inner);
    assert(one.subrange(1, one.len() as int) =~= inner);
    assert(text::trimmed_start(body) == text::trimmed_start(one));
    assert(text::trimmed_start(one) == text::trimmed_start(inner));
    if text::trimmed_start(goal).len() > 0 {
        assert(inner =~= goal + seq!['\n']);
        lemma_trim_start_tail(goal, seq!['\n']);
        assert(text::trimmed_start(goal) + seq!['\n'] =~= text::trimmed_start(goal).push('\n'));
        lemma_trim_end_feed(text::trimmed_start(goal));
    } else {
        lemma_all_space(goal);
        assert(text::trimmed(goal).len() == 0);
    }
}

proof fn lemma_all_space(s: Seq<char>)
    requires
        text::trimmed_start(s).len() == 0,
    ensures
        text::trimmed_start(s.push('\n')).len() == 0,
    decreases s.len(),
{
    if s.len() > 0 {
        let rest = s.subrange(1, s.len() as int);
        lemma_all_space(rest);
        let t = s.push('\n');
        assert(t.subrange(1, t.len() as int) =~= rest.push('\n'));
    } else {
        let t = s.push('\n');
        assert(t.subrange(1, t.len() as int) =~= seq![]);
        assert(text::is_ws('\n'));
        assert(text::trimmed_start(t) == text::trimmed_start(t.subrange(1, t.len() as int)));
    }
}

impl View for GoalStore {
    type V = Seq<char>;

    /// The directory.
    closed spec fn view(&self) -> Seq<char> {
        self.dir@
    }
}

impl GoalStore {
    pub fn new(cordy_dir: &str) -> (r: GoalStore)
        ensures
            r@ == cordy_dir@,
    {
        GoalStore { dir: cordy_dir.to_string() }
    }

    /// Where the goal is kept.
    pub fn goal_path(&self) -> (r: String)
        ensures
            r@ == paths::joined_path(self@, "goal.md"@),
    {
        paths::join(self.dir.as_str(), "goal.md")
    }

    /// Where the progress notes are kept.
    pub fn progress_path(&self) -> (r: String)
        ensures
            r@ == paths::joined_path(self@, "progress.md"@),
    {
        paths::join(self.dir.as_str(), "progress.md")
    }

    /// What the goal file holds once a goal is set.
    pub fn set_goal(text: &str) -> (r: String)
        ensures
            r@ == goal_file(text@),
    {
        text::concat3("# GOAL\n\n", text, "\n")
    }

    /// The north-star text, if a goal is set. `file` is what the goal file holds, if there is one.
    pub fn goal(file: Option<&str>) -> (r: Option<String>)
        ensures
            text::opt_view(r) == (match file {
                Some(f) => goal_in(f@),
                None => None,
            }),
    {
        match file {
            None => None,
            Some(f) => {
                let body = match text::strip_prefix(f, "# GOAL") {
                    Some(rest) => text::trim(rest),
                    None => text::trim(f),
                };
                if body.unicode_len() > 0 {
                    Some(body.to_string())
                } else {
                    None
                }
            },
        }
    }

    /// The progress notes: what their file holds, or nothing.
    pub fn progress(file: Option<String>) -> (r: String)
        ensures
            r@ == (match file {
                Some(f) => f@,
                None => seq![],
            }),
    {
        match file {
            Some(f) => f,
            None => {
                let none = String::new();
                assert(none@ =~= seq![]);
                none
            },
        }
    }
}

/// Bounds for an unattended loop.
#[derive(Debug, Clone, Copy)]
pub struct Guardrails {
    pub max_iterations: usize,
    pub cost_cap_usd: Option<Usd>,
}

impl Default for Guardrails {
    /// At most 25 iterations and five dollars.
    fn default() -> (r: Guardrails)
        ensures
            r.max_iterations == 25,
            r.cost_cap_usd == Some(Usd { bits: 0x4014_0000_0000_0000 }),
    {
        Guardrails { max_iterations: 25, cost_cap_usd: Some(Usd { bits: 0x4014_0000_0000_0000 }) }
    }
}

/// Another iteration may run: the goal is not done, there are iterations left, and what was spent is
/// below the cap.
pub open spec fn continues(g: Guardrails, iteration: usize, spent: Usd, done: bool) -> bool {
    &&& !done
    &&& iteration < g.max_iterations
    &&& match g.cost_cap_usd {
        Some(cap) => goal::below(spent, cap),
        None => true,
    }
}

/// Why the loop stopped.
pub open spec fn stopped_by(
    g: Guardrails,
    iteration: usize,
    spent: Usd,
    done: bool,
) -> Option<Seq<char>> {
    if done {
        Some("goal complete"@)
    } else if iteration >= g.max_iterations {
        Some("iteration cap reached"@)
    } else {
        match g.cost_cap_usd {
            Some(cap) if goal::at_least(spent, cap) => Some("cost cap reached"@),
            _ => None,
        }
    }
}

/// The loop goes on exactly when there is no reason to stop, as long as the amounts are numbers.
pub proof fn a_stopped_loop_has_a_reason(g: Guardrails, iteration: usize, spent: Usd, done: bool)
    requires
        !goal::is_nan(spent),
        g.cost_cap_usd matches Some(cap) ==> !goal::is_nan(cap),
    ensures
        continues(g, iteration, spent, done) <==> stopped_by(g, iteration, spent, done) is None,
{
}

impl Guardrails {
    /// Whether the loop should run another iteration.
    pub fn should_continue(&self, iteration: usize, spent_usd: Usd, goal_done: bool) -> (r: bool)
        ensures
            r == continues(*self, iteration, spent_usd, goal_done),
    {
        if goal_done || iteration >= self.max_iterations {
            return false;
        }
        match self.cost_cap_usd {
            Some(cap) => spent_usd.below(cap),
            None => true,
        }
    }

    /// A human-readable reason the loop stopped.
    pub fn stop_reason(&self, iteration: usize, spent_usd: Usd, goal_done: bool) -> (r: Option<
        &'static str,
    >)
        ensures
            match r {
                Some(s) => stopped_by(*self, iteration, spent_usd, goal_done) == Some(s@),
                None => stopped_by(*self, iteration, spent_usd, goal_done) is None,
            },
    {
        if goal_done {
            return Some("goal complete");
        }
        if iteration >= self.max_iterations {
            return Some("iteration cap reached");
        }
        match self.cost_cap_usd {
            Some(cap) => if spent_usd.at_least(cap) {
                Some("cost cap reached")
            } else {
                None
            },
            None => None,
        }
    }
}

/// What every iteration's prompt ends with.
pub const NEXT_STEP: &'static str =
    "\nDo the next concrete step toward the goal, then update your progress notes. If the goal is fully complete, say DONE.";

/// The prompt of an iteration.
pub open spec fn prompt_for(goal: Seq<char>, progress: Seq<char>) -> Seq<char> {
    let head = "Your goal:\n"@ + goal + "\n"@;
    let notes = text::trimmed(progress);
    (if notes.len() > 0 {
        head + "\nProgress so far:\n"@ + notes + "\n"@
    } else {
        head
    }) + NEXT_STEP@
}

/// Build the per-iteration prompt: the goal and the latest progress notes.
pub fn iteration_prompt(goal: &str, progress: &str) -> (r: String)
    ensures
        r@ == prompt_for(goal@, progress@),
{
    let mut p = text::concat3("Your goal:\n", goal, "\n");
    let notes = text::trim(progress);
    if notes.unicode_len() > 0 {
        p.append("\nProgress so far:\n");
        p.append(notes);
        p.append("\n");
    }
    p.append(NEXT_STEP);
    p
}

/// A line says that the goal is done.
pub open spec fn line_says_done(line: Seq<char>) -> bool {
    text::same_but_case(text::trimmed(line), "done"@) || text::trimmed(line) == "DONE."@
}

/// Whether an assistant reply signals completion.
pub fn is_done(reply: &str) -> (r: bool)
    ensures
        r <==> exists|i: int|
            0 <= i < text::lines_of(reply@).len() && line_says_done(
                #[trigger] text::lines_of(reply@)[i],
            ),
{
    let lines = text::lines(reply);
    let ghost all = text::views(lines@);
    let mut i: usize = 0;
    while i < lines.len()
        invariant
            0 <= i <= lines@.len(),
            all == text::views(lines@),
            all == text::lines_of(reply@),
            forall|k: int| 0 <= k < i ==> !line_says_done(#[trigger] all[k]),
        decreases lines@.len() - i,
    {
        let line = text::trim(lines[i]);
        assert(all[i as int] == lines@[i as int]@);
        if text::eq_ignore_case(line, "done") || text::same(line, "DONE.") {
            assert(line_says_done(all[i as int]));
            return true;
        }
        i += 1;
    }
    false
}

/// Convenience: the `.cordy` dir for a working directory.
pub fn cordy_dir(cwd: &str) -> (r: String)
    ensures
        r@ == paths::joined_path(cwd@, ".cordy"@),
{
    paths::join(cwd, ".cordy")
}

// ---- what holds of an iteration -------------------------------------------------------------

/// Every iteration is told the goal, and how far it is where there are notes.
pub proof fn an_iteration_is_told_the_goal(goal: Seq<char>, progress: Seq<char>)
    ensures
        exists|a: Seq<char>, b: Seq<char>| prompt_for(goal, progress) == #[trigger] (a + goal + b),
        text::trimmed(progress).len() > 0 ==> exists|a: Seq<char>, b: Seq<char>|
            prompt_for(goal, progress) == #[trigger] (a + text::trimmed(progress) + b),
        NEXT_STEP@.is_suffix_of(prompt_for(goal, progress)),
{
    let p = prompt_for(goal, progress);
    let notes = text::trimmed(progress);
    let a = "Your goal:\n"@;
    let b = p.skip((a.len() + goal.len()) as int);
    assert(p =~= a + goal + b);
    if notes.len() > 0 {
        let front = "Your goal:\n"@ + goal + "\n"@ + "\nProgress so far:\n"@;
        let back = "\n"@ + NEXT_STEP@;
        assert(p =~= front + notes + back);
    }
    assert(NEXT_STEP@ =~= p.subrange(p.len() - NEXT_STEP@.len(), p.len() as int));
}

/// The loop goes on exactly while the goal is not done, iterations are left and the cap is not reached.
pub proof fn the_loop_ends_at_its_bounds(g: Guardrails, iteration: usize, spent: Usd, cap: Usd)
    ensures
        !continues(g, iteration, spent, true),
        iteration >= g.max_iterations ==> !continues(g, iteration, spent, false),
        g.cost_cap_usd == Some(cap) && goal::at_least(spent, cap) ==> !continues(
            g,
            iteration,
            spent,
            false,
        ),
        g.cost_cap_usd is None && iteration < g.max_iterations ==> continues(
            g,
            iteration,
            spent,
            false,
        ),
{
}

/// A line says that the work is done where it is that word alone, in any case and with any space
/// around it.
pub proof fn a_line_says_done_in_any_case(lead: Seq<char>, w: Seq<char>, trail: Seq<char>)
    requires
        text_laws::blank(lead),
        text_laws::blank(trail),
        w.len() == 4,
        w[0] == 'd' || w[0] == 'D',
        w[1] == 'o' || w[1] == 'O',
        w[2] == 'n' || w[2] == 'N',
        w[3] == 'e' || w[3] == 'E',
    ensures
        line_says_done(lead + w + trail),
{
    text_laws::trimming_finds_the_text(lead, w, trail);
    reveal_strlit("done");
    let d = "done"@;
    assert(d[0] == 'd' && d[1] == 'o' && d[2] == 'n' && d[3] == 'e');
    assert(('D' as u32 + 32) as char == 'd' && ('O' as u32 + 32) as char == 'o');
    assert(('N' as u32 + 32) as char == 'n' && ('E' as u32 + 32) as char == 'e');
    assert forall|i: int| 0 <= i < w.len() implies text::ascii_lower(#[trigger] w[i])
        == text::ascii_lower(d[i]) by {
        assert(i == 0 || i == 1 || i == 2 || i == 3);
    }
}

/// A line that says more than the word does not say that the work is done.
pub proof fn a_longer_line_does_not_say_done(line: Seq<char>)
    requires
        text::trimmed(line).len() > 5 || text::trimmed(line).len() < 4,
    ensures
        !line_says_done(line),
{
    reveal_strlit("done");
    reveal_strlit("DONE.");
    assert("done"@.len() == 4 && "DONE."@.len() == 5);
}

} // verus!
