//! Context management — deciding when and how to compact conversation history.
//!
//! Auto-compact is per-API-family: providers that manage context server-side
//! (`Caps::native_context_mgmt`) need no client work; everything else relies on the client-side
//! compactor here. This module owns the *decision* (threshold) and the *plan* (which messages to
//! summarize vs keep). The summary itself is produced by a cheap model, driven by the caller.

use super::records;
use super::types::{Message, MessageView};
use crate::json;
use crate::text;
use crate::tools::optimize;
use vstd::prelude::*;
use vstd::slice::slice_subrange;
use vstd::string::*;

verus! {

/// The token estimate of a message: that of its JSON text.
pub open spec fn message_tokens(m: MessageView) -> nat {
    optimize::tokens_of(json::json_printed(records::message_json(m)))
}

/// The token estimate of the first `n` messages.
pub open spec fn total_tokens(messages: Seq<MessageView>, n: int) -> nat
    decreases n,
{
    if n <= 0 {
        0
    } else {
        total_tokens(messages, n - 1) + message_tokens(messages[n - 1])
    }
}

/// Rough token estimate for a slice of messages (serialized length / 4), or the largest number where
/// the estimate exceeds it.
pub fn estimate_messages_tokens(messages: &[Message]) -> (r: u64)
    ensures
        r == (if total_tokens(text::views(messages@), messages@.len() as int) <= u64::MAX {
            total_tokens(text::views(messages@), messages@.len() as int)
        } else {
            u64::MAX as nat
        }),
{
    let ghost all = text::views(messages@);
    let mut sum: u64 = 0;
    let mut i: usize = 0;
    while i < messages.len()
        invariant
            0 <= i <= messages@.len(),
            all == text::views(messages@),
            sum == (if total_tokens(all, i as int) <= u64::MAX {
                total_tokens(all, i as int)
            } else {
                u64::MAX as nat
            }),
        decreases messages@.len() - i,
    {
        let j = records::message_to_json(&messages[i]);
        let line = json::print(&j);
        let tokens = optimize::estimate_tokens(line.as_str());
        assert(tokens == message_tokens(all[i as int]));
        sum = if sum <= u64::MAX - tokens {
            sum + tokens
        } else {
            u64::MAX
        };
        i += 1;
    }
    sum
}

/// Modes for triggering compaction.
#[derive(Debug, Clone, Copy, PartialEq, Eq, Structural)]
pub enum CompactMode {
    /// Only when the user asks (`/compact`).
    Manual,
    /// Automatically once the threshold is crossed.
    Auto,
}

/// Decides when history should be compacted and how to split it.
pub struct ContextManager {
    pub threshold_tokens: u64,
    pub mode: CompactMode,
    /// When true the provider manages context itself; the client-side compactor stays idle.
    pub native: bool,
    /// Messages always kept verbatim (the most recent turns).
    pub keep_recent: usize,
}

impl ContextManager {
    pub fn new(threshold_tokens: u64, mode: CompactMode, native: bool) -> (r: ContextManager)
        ensures
            r == (ContextManager { threshold_tokens, mode, native, keep_recent: 6 }),
    {
        ContextManager { threshold_tokens, mode, native, keep_recent: 6 }
    }

    /// Whether auto-compaction should fire for the given history.
    pub fn needs_compaction(&self, messages: &[Message]) -> (r: bool)
        ensures
            r == (!self.native && self.mode == CompactMode::Auto && total_tokens(
                text::views(messages@),
                messages@.len() as int,
            ) >= self.threshold_tokens),
    {
        if self.native || self.mode != CompactMode::Auto {
            return false;
        }
        estimate_messages_tokens(messages) >= self.threshold_tokens
    }

    /// Split history into `(to_summarize, to_keep)`: the oldest messages are summarized while the
    /// most recent `keep_recent` are preserved verbatim. None when there is nothing old enough to be
    /// worth summarizing. The two parts together are the history.
    pub fn plan_compaction<'a>(&self, messages: &'a [Message]) -> (r: Option<
        (&'a [Message], &'a [Message]),
    >)
        ensures
            r is Some <==> messages@.len() > self.keep_recent,
            r matches Some((old_part, kept)) ==> {
                &&& kept@.len() == self.keep_recent
                &&& old_part@ + kept@ == messages@
            },
    {
        if messages.len() <= self.keep_recent {
            return None;
        }
        let split = messages.len() - self.keep_recent;
        let old_part = slice_subrange(messages, 0, split);
        let kept = slice_subrange(messages, split, messages.len());
        assert(old_part@ + kept@ =~= messages@);
        Some((old_part, kept))
    }
}

/// A conversation costs what its parts cost: nothing where it is empty, and each message adds its own.
pub proof fn tokens_add_up(a: Seq<MessageView>, b: Seq<MessageView>, n: int)
    requires
        0 <= n <= b.len(),
    ensures
        total_tokens(a, 0) == 0,
        total_tokens(a + b, a.len() + n) == total_tokens(a, a.len() as int) + total_tokens(b, n),
    decreases n,
{
    if n > 0 {
        tokens_add_up(a, b, n - 1);
        assert((a + b)[a.len() + n - 1] == b[n - 1]);
    } else {
        lemma_tokens_prefix(a + b, a, a.len() as int);
    }
}

proof fn lemma_tokens_prefix(a: Seq<MessageView>, b: Seq<MessageView>, n: int)
    requires
        0 <= n <= a.len(),
        n <= b.len(),
        forall|i: int| 0 <= i < n ==> a[i] == b[i],
    ensures
        total_tokens(a, n) == total_tokens(b, n),
    decreases n,
{
    if n > 0 {
        lemma_tokens_prefix(a, b, n - 1);
    }
}

} // verus!
