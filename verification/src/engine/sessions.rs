//! What holds of stored sessions, from one operation on them to the next.

use crate::engine::session_store;
use crate::engine::session_store::{FileView, LoadErrorView, MetaView, SummaryView};
use crate::engine::types::{BlockView, MessageView};
use crate::paths;
use crate::text;
use vstd::prelude::*;

verus! {

// ---- copies ---------------------------------------------------------------------------------

/// A renamed session has another title and is otherwise the same.
pub proof fn renaming_changes_the_title_alone(meta: MetaView, title: Seq<char>)
    ensures
        ({
            let after = session_store::renamed(meta, title);
            &&& after.title == title
            &&& after.id == meta.id && after.created_at == meta.created_at
            &&& after.provider == meta.provider && after.model == meta.model
            &&& after.cwd == meta.cwd
        }),
{
}

/// A fork is a session of its own, under its own id and made at its own time, for the same provider,
/// model and directory. Its title says what it was made from, and is never empty.
pub proof fn a_fork_is_a_session_of_its_own(meta: MetaView, id: Seq<char>, now: u64)
    ensures
        ({
            let after = session_store::forked(meta, id, now);
            &&& after.id == id && after.created_at == now
            &&& after.provider == meta.provider && after.model == meta.model
            &&& after.cwd == meta.cwd
            &&& after.title.len() > 0
            &&& meta.title.is_prefix_of(after.title)
            &&& after.title != meta.title
        }),
{
    reveal_strlit("fork");
    reveal_strlit(" (fork)");
    let after = session_store::forked(meta, id, now);
    assert(meta.title =~= after.title.subrange(0, meta.title.len() as int));
}

// ---- listings -------------------------------------------------------------------------------

proof fn lemma_order_covers(order: Seq<int>, keys: Seq<u64>, k: int)
    requires
        session_store::is_newest_first(order, keys),
        0 <= k < keys.len(),
    ensures
        exists|i: int| 0 <= i < order.len() && order[i] == k,
{
    let n = keys.len();
    assert forall|i: int, j: int| 0 <= i < order.len() && 0 <= j < order.len() && i != j implies order[i]
        != order[j] by {
        if i < j {
            let a = order[i];
            let b = order[j];
        } else {
            let a = order[j];
            let b = order[i];
        }
    }
    assert(order.no_duplicates());
    order.unique_seq_to_set();
    let all = vstd::set_lib::set_int_range(0, n as int);
    vstd::set_lib::lemma_int_range(0, n as int);
    assert forall|x: int| order.to_set().contains(x) implies all.contains(x) by {
        let i = choose|i: int| 0 <= i < order.len() && order[i] == x;
        assert(0 <= order[i] < keys.len());
    }
    assert(order.to_set().subset_of(all));
    vstd::set_lib::lemma_subset_equality(order.to_set(), all);
    assert(all.contains(k));
    assert(order.to_set().contains(k));
}

/// A listing holds every session, and only sessions, the newest first.
pub proof fn a_listing_holds_every_session(listed: Seq<MetaView>, metas: Seq<MetaView>)
    requires
        session_store::is_listing(listed, metas),
    ensures
        listed.len() == metas.len(),
        forall|k: int|
            0 <= k < metas.len() ==> listed.contains(#[trigger] metas[k]),
        forall|i: int|
            0 <= i < listed.len() ==> metas.contains(#[trigger] listed[i]),
        forall|i: int, j: int|
            0 <= i < j < listed.len() ==> (#[trigger] listed[i]).created_at >= (#[trigger] listed[j]).created_at,
{
    let keys = session_store::created(metas);
    let order = choose|order: Seq<int>|
        #[trigger] session_store::is_newest_first(order, keys) && listed == order.map_values(
            |i: int| metas[i],
        );
    assert forall|k: int| 0 <= k < metas.len() implies listed.contains(#[trigger] metas[k]) by {
        lemma_order_covers(order, keys, k);
        let i = choose|i: int| 0 <= i < order.len() && order[i] == k;
        assert(listed[i] == metas[k]);
    }
    assert forall|i: int| 0 <= i < listed.len() implies metas.contains(#[trigger] listed[i]) by {
        assert(listed[i] == metas[order[i]]);
        assert(0 <= order[i] < keys.len());
    }
    assert forall|i: int, j: int| 0 <= i < j < listed.len() implies (#[trigger] listed[i]).created_at >= (
    #[trigger] listed[j]).created_at by {
        let a = order[i];
        let b = order[j];
        assert(keys[a] == listed[i].created_at && keys[b] == listed[j].created_at);
    }
}

/// A listing of summaries holds every one of them, the one last active first.
pub proof fn a_summary_listing_holds_every_session(
    listed: Seq<SummaryView>,
    summaries: Seq<SummaryView>,
)
    requires
        session_store::is_summary_listing(listed, summaries),
    ensures
        listed.len() == summaries.len(),
        forall|k: int|
            0 <= k < summaries.len() ==> listed.contains(#[trigger] summaries[k]),
        forall|i: int, j: int|
            0 <= i < j < listed.len() ==> (#[trigger] listed[i]).updated >= (#[trigger] listed[j]).updated,
{
    let keys = session_store::activity(summaries);
    let order = choose|order: Seq<int>|
        #[trigger] session_store::is_newest_first(order, keys) && listed == order.map_values(
            |i: int| summaries[i],
        );
    assert forall|k: int| 0 <= k < summaries.len() implies listed.contains(
        #[trigger] summaries[k],
    ) by {
        lemma_order_covers(order, keys, k);
        let i = choose|i: int| 0 <= i < order.len() && order[i] == k;
        assert(listed[i] == summaries[k]);
    }
    assert forall|i: int, j: int| 0 <= i < j < listed.len() implies (#[trigger] listed[i]).updated >= (
    #[trigger] listed[j]).updated by {
        let a = order[i];
        let b = order[j];
        assert(keys[a] == listed[i].updated && keys[b] == listed[j].updated);
    }
}

proof fn lemma_headers(files: Seq<FileView>, n: int, i: int, meta: MetaView)
    requires
        0 <= i < n <= files.len(),
        session_store::header_of(files[i]) == Some(meta),
    ensures
        session_store::headers_to(files, n).contains(meta),
    decreases n,
{
    let before = session_store::headers_to(files, n - 1);
    let all = session_store::headers_to(files, n);
    if i < n - 1 {
        lemma_headers(files, n - 1, i, meta);
        let k = choose|k: int| 0 <= k < before.len() && before[k] == meta;
        assert(all[k] == meta);
    } else {
        assert(all[before.len() as int] == meta);
    }
}

/// A session that can be read is among those listed, with what its header says.
pub proof fn a_readable_session_is_listed(
    files: Seq<FileView>,
    i: int,
    stem: Seq<char>,
    meta: MetaView,
    messages: Seq<MessageView>,
)
    requires
        0 <= i < files.len(),
        stem.len() > 0,
        files[i].name == stem + seq!['.'] + "jsonl"@,
        session_store::loaded(files[i].text) == Ok::<(MetaView, Seq<MessageView>), LoadErrorView>(
            (meta, messages),
        ),
    ensures
        session_store::headers_to(files, files.len() as int).contains(meta),
{
    paths::a_stem_is_the_name_without_the_ending(stem, "jsonl"@);
    lemma_headers(files, files.len() as int, i, meta);
}

// ---- summaries ------------------------------------------------------------------------------

/// The texts of a message, in order.
pub open spec fn texts_of(m: MessageView) -> Seq<Seq<char>> {
    m.content.filter(|b: BlockView| b is Text).map_values(|b: BlockView| b->Text_text)
}

proof fn lemma_texts(blocks: Seq<BlockView>, n: int)
    requires
        0 <= n <= blocks.len(),
    ensures
        session_store::texts_to(blocks, n) == blocks.take(n).filter(
            |b: BlockView| b is Text,
        ).map_values(|b: BlockView| b->Text_text),
    decreases n,
{
    reveal(Seq::filter);
    let keep = |b: BlockView| b is Text;
    let read = |b: BlockView| b->Text_text;
    let some = blocks.take(n);
    if n <= 0 {
        assert(some.filter(keep) =~= Seq::empty());
        assert(some.filter(keep).map_values(read) =~= Seq::empty());
    } else {
        lemma_texts(blocks, n - 1);
        assert(some.drop_last() =~= blocks.take(n - 1));
        assert(some.last() == blocks[n - 1]);
        if keep(blocks[n - 1]) {
            assert(some.filter(keep).map_values(read) =~= blocks.take(n - 1).filter(keep).map_values(
                read,
            ).push(read(blocks[n - 1])));
        }
    }
}

proof fn lemma_scanned(lines: Seq<Seq<char>>, n: int, k: int)
    requires
        n <= lines.len(),
        session_store::messages_to(lines, n) is Ok,
        -1 <= k < session_store::messages_to(lines, n)->Ok_0.len(),
        k >= 0 ==> session_store::speaks(session_store::messages_to(lines, n)->Ok_0[k]),
        forall|j: int|
            k < j < session_store::messages_to(lines, n)->Ok_0.len() ==> !session_store::speaks(
                #[trigger] session_store::messages_to(lines, n)->Ok_0[j],
            ),
    ensures
        session_store::scanned(lines, n).0 == session_store::messages_to(lines, n)->Ok_0.len(),
        k >= 0 ==> session_store::scanned(lines, n).1 == session_store::preview(
            session_store::messages_to(lines, n)->Ok_0[k],
        ),
        k < 0 ==> session_store::scanned(lines, n).1.len() == 0,
    decreases n,
{
    if n > 1 {
        let all = session_store::messages_to(lines, n)->Ok_0;
        let before = session_store::messages_to(lines, n - 1)->Ok_0;
        if session_store::is_blank(lines[n - 1]) {
            lemma_scanned(lines, n - 1, k);
        } else {
            let last = all.last();
            assert(all == before.push(last));
            if k == before.len() {
                lemma_some_scan(lines, n - 1);
            } else {
                assert(!session_store::speaks(all[before.len() as int]));
                assert forall|j: int| k < j < before.len() implies !session_store::speaks(
                    #[trigger] before[j],
                ) by {
                    assert(all[j] == before[j]);
                }
                if k >= 0 {
                    assert(all[k] == before[k]);
                }
                lemma_scanned(lines, n - 1, k);
            }
        }
    }
}

proof fn lemma_some_scan(lines: Seq<Seq<char>>, n: int)
    requires
        n <= lines.len(),
        session_store::messages_to(lines, n) is Ok,
    ensures
        session_store::scanned(lines, n).0 == session_store::messages_to(lines, n)->Ok_0.len(),
    decreases n,
{
    if n > 1 {
        lemma_some_scan(lines, n - 1);
    }
}

/// A summary tells of the session what loading it gives: how many messages it has, and what the user
/// said last, with single blanks between the words. Where the user said nothing it is empty.
pub proof fn a_summary_tells_of_the_session(
    file: FileView,
    meta: MetaView,
    messages: Seq<MessageView>,
    k: int,
)
    requires
        paths::stem_of(file.name, "jsonl"@) is Some,
        session_store::loaded(file.text) == Ok::<(MetaView, Seq<MessageView>), LoadErrorView>(
            (meta, messages),
        ),
        -1 <= k < messages.len(),
        k >= 0 ==> session_store::speaks(messages[k]),
        forall|j: int| k < j < messages.len() ==> !session_store::speaks(#[trigger] messages[j]),
    ensures
        ({
            let summary = session_store::summary_of(file);
            &&& summary is Some
            &&& summary->0.meta == meta
            &&& summary->0.messages == messages.len()
            &&& k >= 0 ==> summary->0.last_user == text::joined(
                text::words_of(text::joined(texts_of(messages[k]), seq![' '])),
                seq![' '],
            )
            &&& k < 0 ==> summary->0.last_user.len() == 0
            &&& file.modified matches Some(t) ==> summary->0.updated == t
            &&& file.modified is None ==> summary->0.updated == meta.created_at
        }),
{
    let lines = text::lines_of(file.text);
    lemma_scanned(lines, lines.len() as int, k);
    reveal_strlit(" ");
    assert(" "@ =~= seq![' ']);
    if k >= 0 {
        let m = messages[k];
        lemma_texts(m.content, m.content.len() as int);
        assert(m.content.take(m.content.len() as int) =~= m.content);
    }
}

/// The user speaks where a message of theirs holds more than white space.
pub proof fn the_user_speaks_in_words(m: MessageView)
    ensures
        session_store::speaks(m) <==> m.role is User && text::trimmed(
            text::joined(texts_of(m), seq![' ']),
        ).len() > 0,
{
    reveal_strlit(" ");
    assert(" "@ =~= seq![' ']);
    lemma_texts(m.content, m.content.len() as int);
    assert(m.content.take(m.content.len() as int) =~= m.content);
}

} // verus!
