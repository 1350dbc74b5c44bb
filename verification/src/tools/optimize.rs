//! Native token optimizer — the built-in output compressor.
//!
//! Compresses tool output (command results) before it enters the model context. A list of
//! [`OutputCompressor`]s is tried in order; a catch-all generic compressor (dedupe + middle
//! truncation) is always last so unknown commands still shrink.

use crate::bytes;
use crate::text;
use vstd::prelude::*;
use vstd::string::*;

verus! {

broadcast use crate::text::views_push;

/// Result of compressing some output. `saved` is the estimated token reduction.
#[derive(Debug, Clone, PartialEq)]
pub struct Compressed {
    pub text: String,
    pub saved: u64,
}

/// The mathematical value of a [`Compressed`].
pub struct CompressedView {
    pub text: Seq<char>,
    pub saved: u64,
}

impl View for Compressed {
    type V = CompressedView;

    open spec fn view(&self) -> CompressedView {
        CompressedView { text: self.text@, saved: self.saved }
    }
}

/// A strategy for shrinking the output of a matching command family.
pub trait OutputCompressor {
    /// The command lines that this compressor handles.
    spec fn handles(&self, cmd: Seq<char>) -> bool;

    /// What it makes of a raw output.
    spec fn shrunk(&self, raw: Seq<char>) -> CompressedView;

    /// Whether this compressor handles the given command line.
    fn matches(&self, cmd: &str) -> (r: bool)
        ensures
            r == self.handles(cmd@),
    ;

    /// Compress raw output.
    fn compress(&self, raw: &str) -> (r: Compressed)
        ensures
            r@ == self.shrunk(raw@),
    ;
}

/// A token for every four bytes, the last one begun counting whole.
pub open spec fn tokens_of(s: Seq<char>) -> nat {
    (bytes::byte_len(s) + 3) / 4
}

/// Cheap token estimate (~4 bytes/token) used for the savings metric and the context budget.
pub fn estimate_tokens(s: &str) -> (r: u64)
    ensures
        r == tokens_of(s@),
        r <= u64::MAX / 4 + 1,
{
    let len = s.as_bytes().len() as u64;
    if len % 4 == 0 {
        len / 4
    } else {
        len / 4 + 1
    }
}

/// What is left when tokens are taken away, or nothing.
pub open spec fn less_tokens(a: nat, b: nat) -> nat {
    if a >= b {
        (a - b) as nat
    } else {
        0
    }
}

// ---- duplicate lines ------------------------------------------------------------------------

/// How many of the lines from `i` on are the same as `line`, up to the first that is not.
pub open spec fn run_len(lines: Seq<Seq<char>>, line: Seq<char>, i: int) -> nat
    decreases lines.len() - i,
{
    if 0 <= i < lines.len() && lines[i] == line {
        1 + run_len(lines, line, i + 1)
    } else {
        0
    }
}

/// A line with the marker that says how often it came in a row, where it came more than once.
pub open spec fn run_lines(line: Seq<char>, run: nat) -> Seq<Seq<char>> {
    if run > 1 {
        Seq::empty().push(line).push("... (x"@ + text::decimal(run) + ")"@)
    } else {
        Seq::empty().push(line)
    }
}

/// The lines from `i` on with each run of identical lines collapsed.
pub open spec fn collapsed(lines: Seq<Seq<char>>, i: int) -> Seq<Seq<char>>
    decreases lines.len() - i,
{
    if i < 0 || i >= lines.len() {
        seq![]
    } else {
        proof {
            lemma_run_len(lines, lines[i], i + 1);
        }
        let run = run_len(lines, lines[i], i + 1) + 1;
        run_lines(lines[i], run) + collapsed(lines, i + run)
    }
}

/// The text with runs of identical lines collapsed.
pub open spec fn deduped(raw: Seq<char>) -> Seq<char> {
    text::joined(collapsed(text::lines_of(raw), 0), "\n"@)
}

/// A run ends within the lines.
pub proof fn lemma_run_len(lines: Seq<Seq<char>>, line: Seq<char>, i: int)
    requires
        0 <= i <= lines.len(),
    ensures
        i + run_len(lines, line, i) <= lines.len(),
    decreases lines.len() - i,
{
    if i < lines.len() && lines[i] == line {
        lemma_run_len(lines, line, i + 1);
    }
}

/// Collapse runs of identical lines into one line plus a `... (xN)` marker.
pub fn dedupe_consecutive(raw: &str) -> (r: String)
    ensures
        r@ == deduped(raw@),
{
    let lines = text::lines(raw);
    let ghost all = text::views(lines@);
    let mut out: Vec<String> = Vec::new();
    assert(text::views(out@) + collapsed(all, 0) =~= collapsed(all, 0));
    let mut i: usize = 0;
    while i < lines.len()
        invariant
            0 <= i <= lines.len(),
            all == text::views(lines@),
            text::views(out@) + collapsed(all, i as int) == collapsed(all, 0),
        decreases lines@.len() - i,
    {
        let line = lines[i];
        assert(line@ == all[i as int]);
        let mut j: usize = i + 1;
        while j < lines.len() && text::same(lines[j], line)
            invariant
                i < j <= lines.len(),
                all == text::views(lines@),
                (j - i - 1) + run_len(all, line@, j as int) == run_len(all, line@, i + 1),
            decreases lines@.len() - j,
        {
            assert(all[j as int] == lines@[j as int]@);
            j += 1;
        }
        proof {
            if j < lines@.len() {
                assert(all[j as int] == lines@[j as int]@);
            }
        }
        let run = j - i;
        let ghost was = text::views(out@);
        out.push(line.to_string());
        if run > 1 {
            let mut marker = "... (x".to_string();
            marker.append(text::decimal_of(run as u64).as_str());
            marker.append(")");
            out.push(marker);
        }
        proof {
            let rest = collapsed(all, j as int);
            assert(run == run_len(all, line@, i + 1) + 1);
            assert(text::views(out@) =~= was + run_lines(line@, run as nat));
            assert(text::views(out@) + rest =~= was + (run_lines(line@, run as nat) + rest));
        }
        i = j;
    }
    assert(text::views(out@) + collapsed(all, i as int) =~= text::views(out@));
    text::join(&out, "\n")
}

// ---- long output ----------------------------------------------------------------------------

/// The first and last halves of too many lines with a marker between; fewer lines stay as they are.
pub open spec fn middle_cut(s: Seq<char>, max_lines: nat) -> Seq<char> {
    let lines = text::lines_of(s);
    let keep = (max_lines / 2) as int;
    if lines.len() <= max_lines {
        s
    } else {
        text::joined(
            lines.take(keep).push(
                "... ("@ + text::decimal((lines.len() - keep * 2) as nat)
                    + " lines elided by optimizer) ..."@,
            ) + lines.skip(lines.len() - keep),
            "\n"@,
        )
    }
}

/// If the text exceeds `max_lines`, keep the first and last halves with an elision marker.
pub fn truncate_middle(s: &str, max_lines: usize) -> (r: String)
    ensures
        r@ == middle_cut(s@, max_lines as nat),
{
    let lines = text::lines(s);
    let ghost all = text::views(lines@);
    if lines.len() <= max_lines {
        return s.to_string();
    }
    let keep = max_lines / 2;
    let omitted = lines.len() - keep * 2;
    let mut out: Vec<String> = Vec::new();
    let mut i: usize = 0;
    while i < keep
        invariant
            0 <= i <= keep <= lines@.len(),
            all == text::views(lines@),
            text::views(out@) == all.take(i as int),
        decreases keep - i,
    {
        let ghost was = text::views(out@);
        out.push(lines[i].to_string());
        i += 1;
        assert(all.take(i as int) =~= was.push(all[i - 1]));
    }
    let mut marker = "... (".to_string();
    marker.append(text::decimal_of(omitted as u64).as_str());
    marker.append(" lines elided by optimizer) ...");
    let ghost head = all.take(keep as int).push(marker@);
    out.push(marker);
    let start = lines.len() - keep;
    let mut j: usize = start;
    assert(text::views(out@) =~= head + all.subrange(start as int, start as int));
    while j < lines.len()
        invariant
            start <= j <= lines@.len(),
            all == text::views(lines@),
            text::views(out@) == head + all.subrange(start as int, j as int),
        decreases lines@.len() - j,
    {
        let ghost was = text::views(out@);
        out.push(lines[j].to_string());
        j += 1;
        assert(head + all.subrange(start as int, j as int) =~= was.push(all[j - 1]));
    }
    assert(all.subrange(start as int, j as int) =~= all.skip(start as int));
    text::join(&out, "\n")
}

// ---- compressors ----------------------------------------------------------------------------

/// Catch-all: collapse consecutive duplicate lines, then keep only the head and tail when the
/// output is very long. Applies to any command.
pub struct GenericCompressor {
    pub max_lines: usize,
}

/// What the catch-all makes of an output.
pub open spec fn generic(raw: Seq<char>, max_lines: nat) -> CompressedView {
    let text = middle_cut(deduped(raw), max_lines);
    CompressedView { text, saved: less_tokens(tokens_of(raw), tokens_of(text)) as u64 }
}

impl OutputCompressor for GenericCompressor {
    open spec fn handles(&self, cmd: Seq<char>) -> bool {
        true
    }

    open spec fn shrunk(&self, raw: Seq<char>) -> CompressedView {
        generic(raw, self.max_lines as nat)
    }

    fn matches(&self, cmd: &str) -> (r: bool) {
        true
    }

    fn compress(&self, raw: &str) -> (r: Compressed) {
        let once = dedupe_consecutive(raw);
        let text = truncate_middle(once.as_str(), self.max_lines);
        let before = estimate_tokens(raw);
        let after = estimate_tokens(text.as_str());
        let saved = if before >= after {
            before - after
        } else {
            0
        };
        Compressed { text, saved }
    }
}

/// What was registered: a boxed compressor of any type, a trait object too, as a compressor.
pub struct Registered<C: OutputCompressor + ?Sized> {
    pub compressor: Box<C>,
}

impl<C: OutputCompressor + ?Sized> OutputCompressor for Registered<C> {
    open spec fn handles(&self, cmd: Seq<char>) -> bool {
        self.compressor.handles(cmd)
    }

    open spec fn shrunk(&self, raw: Seq<char>) -> CompressedView {
        self.compressor.shrunk(raw)
    }

    fn matches(&self, cmd: &str) -> (r: bool) {
        self.compressor.matches(cmd)
    }

    fn compress(&self, raw: &str) -> (r: Compressed) {
        self.compressor.compress(raw)
    }
}

/// A place among the registered compressors.
pub struct Slot<B> {
    pub compressor: B,
}

/// The compressor of a command family.
pub type Family = Slot<Box<dyn OutputCompressor>>;

impl Slot<Box<dyn OutputCompressor>> {
    /// The command lines that the compressor handles.
    pub open spec fn handles(&self, cmd: Seq<char>) -> bool {
        self.compressor.handles(cmd)
    }

    /// What the compressor makes of a raw output.
    pub open spec fn shrunk(&self, raw: Seq<char>) -> CompressedView {
        self.compressor.shrunk(raw)
    }
}

/// The place of a compressor.
fn slot<C: OutputCompressor + ?Sized + 'static>(c: Box<C>) -> (r: Family)
    ensures
        forall|cmd: Seq<char>| #[trigger] r.handles(cmd) == c.handles(cmd),
        forall|raw: Seq<char>| #[trigger] r.shrunk(raw) == c.shrunk(raw),
{
    let compressor: Box<dyn OutputCompressor> = Box::new(Registered { compressor: c });
    let family = Slot { compressor };
    family
}

/// Ordered set of compressors with a generic fallback, plus a global on/off toggle.
pub struct Optimizer {
    compressors: Vec<Family>,
    fallback: GenericCompressor,
    enabled: bool,
}

/// What the first of the compressors at or after `i` that handles the command makes of the output.
pub open spec fn applied_from(
    families: Seq<Family>,
    cmd: Seq<char>,
    raw: Seq<char>,
    i: int,
) -> CompressedView
    decreases families.len() - i,
{
    if i < 0 || i >= families.len() {
        generic(raw, 200)
    } else if families[i].handles(cmd) {
        families[i].shrunk(raw)
    } else {
        applied_from(families, cmd, raw, i + 1)
    }
}

/// One of the families handles the command.
pub open spec fn handled(families: Seq<Family>, cmd: Seq<char>) -> bool {
    exists|j: int| 0 <= j < families.len() && (#[trigger] families[j]).handles(cmd)
}

impl Optimizer {
    /// The family compressors, in the order in which they are tried. The catch-all comes after them.
    pub closed spec fn families(&self) -> Seq<Family> {
        self.compressors@
    }

    pub closed spec fn is_enabled(&self) -> bool {
        self.enabled
    }

    #[verifier::type_invariant]
    spec fn well_formed(self) -> bool {
        self.fallback.max_lines == 200
    }

    /// Build with only the generic fallback. `enabled=false` makes [`apply`](Self::apply) a
    /// passthrough (config `optimize = false`).
    pub fn new(enabled: bool) -> (r: Optimizer)
        ensures
            r.families() == Seq::<Family>::empty(),
            r.is_enabled() == enabled,
    {
        Optimizer {
            compressors: Vec::new(),
            fallback: GenericCompressor { max_lines: 200 },
            enabled,
        }
    }

    /// Register a family compressor, of a type of its own or as a trait object. It is tried after
    /// those registered before and before the generic fallback (which stays last).
    pub fn register<C: OutputCompressor + ?Sized + 'static>(&mut self, c: Box<C>)
        ensures
            final(self).families().len() == old(self).families().len() + 1,
            final(self).families().drop_last() == old(self).families(),
            forall|cmd: Seq<char>| #[trigger]
                final(self).families().last().handles(cmd) == c.handles(cmd),
            forall|raw: Seq<char>| #[trigger]
                final(self).families().last().shrunk(raw) == c.shrunk(raw),
            forall|cmd: Seq<char>| #[trigger]
                handled(final(self).families(), cmd) == (handled(old(self).families(), cmd)
                    || c.handles(cmd)),
            forall|cmd: Seq<char>, raw: Seq<char>| #[trigger]
                applied_from(final(self).families(), cmd, raw, 0) == (if handled(
                    old(self).families(),
                    cmd,
                ) {
                    applied_from(old(self).families(), cmd, raw, 0)
                } else if c.handles(cmd) {
                    c.shrunk(raw)
                } else {
                    generic(raw, 200)
                }),
            final(self).is_enabled() == old(self).is_enabled(),
    {
        proof {
            use_type_invariant(&*self);
        }
        let mut compressors: Vec<Family> = Vec::new();
        std::mem::swap(&mut compressors, &mut self.compressors);
        let family = slot(c);
        let ghost before = compressors@;
        compressors.push(family);
        self.compressors = compressors;
        proof {
            let after = self.compressors@;
            assert(after.drop_last() =~= before);
            assert forall|cmd: Seq<char>| #[trigger] handled(after, cmd) == (handled(before, cmd)
                || c.handles(cmd)) by {
                assert(after.last().handles(cmd) == c.handles(cmd));
                if handled(before, cmd) {
                    let j = choose|j: int|
                        0 <= j < before.len() && (#[trigger] before[j]).handles(cmd);
                    assert(after[j].handles(cmd));
                }
                if c.handles(cmd) {
                    assert(after[before.len() as int].handles(cmd));
                }
                if handled(after, cmd) {
                    let j = choose|j: int|
                        0 <= j < after.len() && (#[trigger] after[j]).handles(cmd);
                    if j < before.len() {
                        assert(before[j].handles(cmd));
                    }
                }
            }
            assert forall|cmd: Seq<char>, raw: Seq<char>| #[trigger]
                applied_from(after, cmd, raw, 0) == (if handled(before, cmd) {
                    applied_from(before, cmd, raw, 0)
                } else if c.handles(cmd) {
                    c.shrunk(raw)
                } else {
                    generic(raw, 200)
                }) by {
                registering_adds_behind(after, cmd, raw);
                assert(after.last().handles(cmd) == c.handles(cmd));
                assert(after.last().shrunk(raw) == c.shrunk(raw));
            }
        }
    }

    /// Compress `raw` for the given `cmd`. Passthrough when disabled.
    pub fn apply(&self, cmd: &str, raw: &str) -> (r: Compressed)
        ensures
            r@ == (if self.is_enabled() {
                applied_from(self.families(), cmd@, raw@, 0)
            } else {
                CompressedView { text: raw@, saved: 0 }
            }),
    {
        proof {
            use_type_invariant(self);
        }
        if !self.enabled {
            return Compressed { text: raw.to_string(), saved: 0 };
        }
        let mut i: usize = 0;
        while i < self.compressors.len()
            invariant
                0 <= i <= self.compressors@.len(),
                applied_from(self.families(), cmd@, raw@, 0) == applied_from(
                    self.families(),
                    cmd@,
                    raw@,
                    i as int,
                ),
                self.enabled,
            decreases self.compressors@.len() - i,
        {
            if self.compressors[i].compressor.matches(cmd) {
                return self.compressors[i].compressor.compress(raw);
            }
            i += 1;
        }
        self.fallback.compress(raw)
    }
}

proof fn lemma_passed_by(
    families: Seq<Family>,
    cmd: Seq<char>,
    raw: Seq<char>,
    i: int,
    k: int,
)
    requires
        0 <= i <= k <= families.len(),
        forall|j: int| 0 <= j < k ==> !(#[trigger] families[j]).handles(cmd),
    ensures
        applied_from(families, cmd, raw, i) == applied_from(families, cmd, raw, k),
    decreases k - i,
{
    if i < k {
        assert(!families[i].handles(cmd));
        lemma_passed_by(families, cmd, raw, i + 1, k);
    }
}

/// The first family in registration order that handles a command compresses its output, whatever
/// families come after it.
pub proof fn the_first_family_wins(
    families: Seq<Family>,
    cmd: Seq<char>,
    raw: Seq<char>,
    k: int,
)
    requires
        0 <= k < families.len(),
        families[k].handles(cmd),
        forall|j: int| 0 <= j < k ==> !(#[trigger] families[j]).handles(cmd),
    ensures
        applied_from(families, cmd, raw, 0) == families[k].shrunk(raw),
{
    lemma_passed_by(families, cmd, raw, 0, k);
}

/// The catch-all stays last: it compresses the output of a command that no family handles, just as
/// where no family is registered.
pub proof fn the_fallback_stays_last(
    families: Seq<Family>,
    cmd: Seq<char>,
    raw: Seq<char>,
)
    requires
        forall|j: int| 0 <= j < families.len() ==> !(#[trigger] families[j]).handles(cmd),
    ensures
        applied_from(families, cmd, raw, 0) == generic(raw, 200),
        applied_from(families, cmd, raw, 0) == applied_from(Seq::empty(), cmd, raw, 0),
{
    lemma_passed_by(families, cmd, raw, 0, families.len() as int);
}

/// The family that was registered last takes over just the commands that no family handled before.
pub proof fn registering_adds_behind(families: Seq<Family>, cmd: Seq<char>, raw: Seq<char>)
    requires
        families.len() > 0,
    ensures
        applied_from(families, cmd, raw, 0) == (if handled(families.drop_last(), cmd) {
            applied_from(families.drop_last(), cmd, raw, 0)
        } else if families.last().handles(cmd) {
            families.last().shrunk(raw)
        } else {
            generic(raw, 200)
        }),
{
    lemma_added_behind(families, cmd, raw, 0);
}

proof fn lemma_added_behind(families: Seq<Family>, cmd: Seq<char>, raw: Seq<char>, i: int)
    requires
        0 <= i < families.len(),
        forall|j: int| 0 <= j < i ==> !(#[trigger] families[j]).handles(cmd),
    ensures
        applied_from(families, cmd, raw, i) == (if handled(families.drop_last(), cmd) {
            applied_from(families.drop_last(), cmd, raw, i)
        } else if families.last().handles(cmd) {
            families.last().shrunk(raw)
        } else {
            generic(raw, 200)
        }),
    decreases families.len() - i,
{
    if i < families.len() - 1 {
        assert(families.drop_last()[i] == families[i]);
        if !families[i].handles(cmd) {
            lemma_added_behind(families, cmd, raw, i + 1);
        }
    } else {
        reveal_with_fuel(applied_from, 2);
    }
}

/// With two families registered, the first is tried before the second, and the catch-all after both.
pub proof fn registration_order_holds(families: Seq<Family>, cmd: Seq<char>, raw: Seq<char>)
    requires
        families.len() == 2,
    ensures
        applied_from(families, cmd, raw, 0) == (if families[0].handles(cmd) {
            families[0].shrunk(raw)
        } else if families[1].handles(cmd) {
            families[1].shrunk(raw)
        } else {
            applied_from(Seq::empty(), cmd, raw, 0)
        }),
{
    reveal_with_fuel(applied_from, 3);
}

/// Output with no repeated line in a row and no more lines than the catch-all keeps comes out line for
/// line as it was: nothing of it is lost.
pub proof fn short_distinct_output_keeps_its_lines(raw: Seq<char>)
    requires
        text::lines_of(raw).len() <= 200,
        forall|i: int|
            0 <= i < text::lines_of(raw).len() - 1 ==> #[trigger] text::lines_of(raw)[i]
                != text::lines_of(raw)[i + 1],
    ensures
        generic(raw, 200).text == text::joined(text::lines_of(raw), "\n"@),
{
    lemma_collapsed_is_identity(text::lines_of(raw), 0);
    assert(text::lines_of(raw).skip(0) =~= text::lines_of(raw));
    text::lemma_lines_hold_no_feed(raw, 0);
    text::lemma_joined_lines(text::lines_of(raw));
    reveal_strlit("\n");
    assert("\n"@ =~= seq!['\n']);
}

/// However long an output is, what the catch-all makes of it has no more lines than it keeps and the
/// marker between them.
pub proof fn compressed_output_is_bounded(raw: Seq<char>)
    ensures
        text::lines_of(generic(raw, 200).text).len() <= 201,
{
    let whole = deduped(raw);
    let lines = text::lines_of(whole);
    if lines.len() > 200 {
        let elided = (lines.len() - 200) as nat;
        let marker = "... ("@ + text::decimal(elided) + " lines elided by optimizer) ..."@;
        let parts = lines.take(100).push(marker) + lines.skip(lines.len() - 100);
        text::lemma_lines_hold_no_feed(whole, 0);
        text::lemma_decimal_digits(elided);
        reveal_strlit("... (");
        reveal_strlit(" lines elided by optimizer) ...");
        reveal_strlit("\n");
        assert("\n"@ =~= seq!['\n']);
        assert forall|k: int| 0 <= k < marker.len() implies #[trigger] marker[k] != '\n' by {
            let head = "... ("@.len() as int;
            let digits = text::decimal(elided).len() as int;
            if k >= head && k < head + digits {
                assert(marker[k] == text::decimal(elided)[k - head]);
            }
        }
        assert forall|i: int, k: int|
            0 <= i < parts.len() && 0 <= k < parts[i].len() implies #[trigger] parts[i][k]
            != '\n' by {
            if i < 100 {
                assert(parts[i] == lines[i]);
                assert(lines[i][k] != '\n');
            } else if i > 100 {
                let at = lines.len() - 100 + (i - 101);
                assert(parts[i] == lines[at]);
                assert(lines[at][k] != '\n');
            } else {
                assert(parts[i] == marker);
            }
        }
        text::lemma_joined_lines(parts);
    }
}

proof fn lemma_collapsed_is_identity(lines: Seq<Seq<char>>, i: int)
    requires
        0 <= i <= lines.len(),
        forall|k: int| 0 <= k < lines.len() - 1 ==> #[trigger] lines[k] != lines[k + 1],
    ensures
        collapsed(lines, i) == lines.skip(i),
    decreases lines.len() - i,
{
    if i < lines.len() {
        lemma_collapsed_is_identity(lines, i + 1);
        assert(run_len(lines, lines[i], i + 1) == 0);
        assert(collapsed(lines, i) =~= lines.skip(i));
    } else {
        assert(lines.skip(i) =~= seq![]);
    }
}

proof fn lemma_run(lines: Seq<Seq<char>>, line: Seq<char>, i: int, k: nat)
    requires
        0 <= i,
        i + k <= lines.len(),
        forall|j: int| i <= j < i + k ==> #[trigger] lines[j] == line,
        i + k < lines.len() ==> lines[i + k] != line,
    ensures
        run_len(lines, line, i) == k,
    decreases k,
{
    if k > 0 {
        assert(lines[i] == line);
        lemma_run(lines, line, i + 1, (k - 1) as nat);
    }
}

/// A line that comes several times in a row is told once, with how often it came; one that comes once
/// is told as it is. What follows is told in its turn.
pub proof fn a_run_is_told_with_its_length(lines: Seq<Seq<char>>, i: int, k: nat)
    requires
        0 <= i,
        k > 0,
        i + k <= lines.len(),
        forall|j: int| i <= j < i + k ==> #[trigger] lines[j] == lines[i],
        i + k < lines.len() ==> lines[i + k] != lines[i],
    ensures
        collapsed(lines, i) == (if k > 1 {
            seq![lines[i], "... (x"@ + text::decimal(k) + ")"@]
        } else {
            seq![lines[i]]
        }) + collapsed(lines, i + k),
{
    lemma_run(lines, lines[i], i + 1, (k - 1) as nat);
    assert(run_lines(lines[i], k) =~= (if k > 1 {
        seq![lines[i], "... (x"@ + text::decimal(k) + ")"@]
    } else {
        seq![lines[i]]
    }));
}

/// No line is lost by collapsing: each is still told.
pub proof fn collapsing_keeps_every_line(lines: Seq<Seq<char>>, i: int, at: int)
    requires
        0 <= i <= at < lines.len(),
    ensures
        collapsed(lines, i).contains(lines[at]),
    decreases lines.len() - i,
{
    lemma_run_len(lines, lines[i], i + 1);
    let run = run_len(lines, lines[i], i + 1) + 1;
    let own = run_lines(lines[i], run);
    let rest = collapsed(lines, i + run);
    if at < i + run {
        lemma_within_run(lines, lines[i], i + 1, at);
        assert((own + rest)[0] == lines[i]);
    } else {
        collapsing_keeps_every_line(lines, i + run, at);
        let k = choose|k: int| 0 <= k < rest.len() && rest[k] == lines[at];
        assert((own + rest)[own.len() + k] == lines[at]);
    }
}

proof fn lemma_within_run(lines: Seq<Seq<char>>, line: Seq<char>, i: int, at: int)
    requires
        0 < i,
        i - 1 <= at < i + run_len(lines, line, i),
        lines[i - 1] == line,
    ensures
        lines[at] == line,
    decreases at - i,
{
    if at >= i {
        if at > i {
            lemma_within_run(lines, line, i + 1, at);
        }
    }
}

/// A long output keeps both its ends, line for line, and says between them how many lines are left
/// out; a short one stays as it is.
pub proof fn a_long_output_keeps_both_ends(s: Seq<char>, half: nat)
    ensures
        ({
            let lines = text::lines_of(s);
            let cut = text::split(middle_cut(s, 2 * half), '\n');
            if lines.len() <= 2 * half {
                middle_cut(s, 2 * half) == s
            } else {
                &&& cut.len() == 2 * half + 1
                &&& cut.take(half as int) == lines.take(half as int)
                &&& cut[half as int] == "... ("@ + text::decimal((lines.len() - 2 * half) as nat)
                    + " lines elided by optimizer) ..."@
                &&& cut.skip(half as int + 1) == lines.skip(lines.len() - half)
            }
        }),
{
    let lines = text::lines_of(s);
    if lines.len() > 2 * half {
        let elided = (lines.len() - 2 * half) as nat;
        let marker = "... ("@ + text::decimal(elided) + " lines elided by optimizer) ..."@;
        let keep = half as int;
        assert((2 * half) / 2 == half);
        let parts = lines.take(keep).push(marker) + lines.skip(lines.len() - keep);
        text::lemma_lines_hold_no_feed(s, 0);
        text::lemma_decimal_digits(elided);
        reveal_strlit("... (");
        reveal_strlit(" lines elided by optimizer) ...");
        reveal_strlit("\n");
        assert("\n"@ =~= seq!['\n']);
        assert forall|k: int| 0 <= k < marker.len() implies #[trigger] marker[k] != '\n' by {
            let head = "... ("@.len() as int;
            let digits = text::decimal(elided).len() as int;
            if k >= head && k < head + digits {
                assert(marker[k] == text::decimal(elided)[k - head]);
            }
        }
        assert forall|i: int, k: int|
            0 <= i < parts.len() && 0 <= k < parts[i].len() implies #[trigger] parts[i][k]
            != '\n' by {
            if i < keep {
                assert(parts[i] == lines[i]);
                assert(lines[i][k] != '\n');
            } else if i > keep {
                let at = lines.len() - keep + (i - keep - 1);
                assert(parts[i] == lines[at]);
                assert(lines[at][k] != '\n');
            } else {
                assert(parts[i] == marker);
            }
        }
        text::joined_parts_split_again(parts, '\n');
        assert(keep * 2 == 2 * half);
        assert(parts.take(keep) =~= lines.take(keep));
        assert(parts.skip(keep + 1) =~= lines.skip(lines.len() - keep));
    }
}

/// What compressing saves is what the text costs less than before.
pub proof fn the_saving_is_the_difference(before: nat, after: nat)
    ensures
        after <= before ==> less_tokens(before, after) + after == before,
        after > before ==> less_tokens(before, after) == 0,
{
}

} // verus!
