//! What a whole run of the sitemap writer leaves behind: how the entries are
//! divided over the partitions, which files are created, and what each file
//! receives.

use crate::output::{
    appended, created, lemma_appended_concat, lemma_appended_push, lemma_created_concat,
    lemma_created_push, FileOpView,
};
use crate::sitemap::generator::{
    capacity, lemma_partition_is_not_index, lemma_partition_names_distinct, partition_name,
    url_entry, GeneratorView, URLSET_FOOT, URLSET_HEAD,
};
use crate::sitemap::indexer::{index_record, IndexerView, INDEX_FOOT, INDEX_HEAD, INDEX_NAME};
use crate::division::{
    chunk_end, chunk_start, chunks, lemma_chunk_is_range, lemma_chunks_shape, lemma_chunks_total,
};
use vstd::arithmetic::div_mod::lemma_fundamental_div_mod_converse;
use vstd::prelude::*;

verus! {

/// The state `n` writes after `start`.
pub open spec fn after_writes(start: GeneratorView, n: nat) -> GeneratorView
    decreases n,
{
    if n == 0 {
        start
    } else {
        after_writes(start, (n - 1) as nat).after_write()
    }
}

/// The instructions of writing `urls`, one after the other, from `start`.
pub open spec fn writes_ops(start: GeneratorView, urls: Seq<Seq<char>>) -> Seq<FileOpView>
    decreases urls.len(),
{
    if urls.len() == 0 {
        Seq::empty()
    } else {
        writes_ops(start, urls.drop_last()) + after_writes(
            start,
            (urls.len() - 1) as nat,
        ).write_ops(urls.last())
    }
}

/// Where the writer stands after a run: the open partition is the last one
/// of the division, and it holds what the writer counts.
pub proof fn lemma_state_after_writes(start: GeneratorView, urls: Seq<Seq<char>>)
    requires
        start.partition == 0,
        start.count == 0,
    ensures
        ({
            let state = after_writes(start, urls.len());
            let ch = chunks(urls, capacity(start.max));
            &&& state.wf()
            &&& state.partition == ch.len() - 1
            &&& state.count == ch.last().len()
            &&& state.index == start.index
            &&& state.lastmod == start.lastmod
            &&& state.max == start.max
        }),
    decreases urls.len(),
{
    let cap = capacity(start.max);
    if urls.len() > 0 {
        lemma_state_after_writes(start, urls.drop_last());
        lemma_chunks_total(urls.drop_last(), cap);
        let before = chunks(urls.drop_last(), cap);
        let filled = before.drop_last().push(before.last().push(urls.last()));
        assert(urls.drop_last().len() == urls.len() - 1);
    }
}

/// `text` as a list of one text if `present`, else the empty list.
pub open spec fn only_if(present: bool, text: Seq<char>) -> Seq<Seq<char>> {
    if present {
        seq![text]
    } else {
        Seq::empty()
    }
}

/// What the opening of the index creates and appends.
proof fn lemma_index_opening_log(file: Seq<char>)
    ensures
        created(IndexerView::opening_ops()) == seq![INDEX_NAME@],
        appended(IndexerView::opening_ops(), file) == only_if(file == INDEX_NAME@, INDEX_HEAD@),
{
    let none = Seq::<FileOpView>::empty();
    let a = FileOpView::Create { name: INDEX_NAME@ };
    let b = FileOpView::Append { name: INDEX_NAME@, text: INDEX_HEAD@ };
    assert(IndexerView::opening_ops() =~= none.push(a).push(b));
    lemma_created_push(none, a);
    lemma_created_push(none.push(a), b);
    lemma_appended_push(none, a, file);
    lemma_appended_push(none.push(a), b, file);
    assert(created(IndexerView::opening_ops()) =~= seq![INDEX_NAME@]);
    assert(appended(IndexerView::opening_ops(), file) =~= only_if(
        file == INDEX_NAME@,
        INDEX_HEAD@,
    ));
}

/// What the opening of a partition creates and appends.
proof fn lemma_partition_opening_log(index: nat, file: Seq<char>)
    ensures
        created(GeneratorView::partition_opening_ops(index)) == seq![partition_name(index)],
        appended(GeneratorView::partition_opening_ops(index), file) == only_if(
            file == partition_name(index),
            URLSET_HEAD@,
        ),
{
    let none = Seq::<FileOpView>::empty();
    let a = FileOpView::Create { name: partition_name(index) };
    let b = FileOpView::Append { name: partition_name(index), text: URLSET_HEAD@ };
    let ops = GeneratorView::partition_opening_ops(index);
    assert(ops =~= none.push(a).push(b));
    lemma_created_push(none, a);
    lemma_created_push(none.push(a), b);
    lemma_appended_push(none, a, file);
    lemma_appended_push(none.push(a), b, file);
    assert(created(ops) =~= seq![partition_name(index)]);
    assert(appended(ops, file) =~= only_if(file == partition_name(index), URLSET_HEAD@));
}

/// What the recording of a partition creates and appends.
proof fn lemma_record_log(index: IndexerView, name: Seq<char>, file: Seq<char>)
    ensures
        created(index.record_ops(name)) == Seq::<Seq<char>>::empty(),
        appended(index.record_ops(name), file) == only_if(
            file == INDEX_NAME@,
            index_record(index.base_url, index.lastmod, name),
        ),
{
    let none = Seq::<FileOpView>::empty();
    let a = FileOpView::Append {
        name: INDEX_NAME@,
        text: index_record(index.base_url, index.lastmod, name),
    };
    assert(index.record_ops(name) =~= none.push(a));
    lemma_created_push(none, a);
    lemma_appended_push(none, a, file);
    assert(appended(index.record_ops(name), file) =~= only_if(
        file == INDEX_NAME@,
        index_record(index.base_url, index.lastmod, name),
    ));
}

/// What the writing of one entry creates and appends.
proof fn lemma_entry_log(state: GeneratorView, url: Seq<char>, file: Seq<char>)
    ensures
        created(state.entry_ops(url)) == Seq::<Seq<char>>::empty(),
        appended(state.entry_ops(url), file) == only_if(
            file == partition_name(state.partition),
            url_entry(state.lastmod, url),
        ),
{
    let none = Seq::<FileOpView>::empty();
    let a = FileOpView::Append {
        name: partition_name(state.partition),
        text: url_entry(state.lastmod, url),
    };
    assert(state.entry_ops(url) =~= none.push(a));
    lemma_created_push(none, a);
    lemma_appended_push(none, a, file);
    assert(appended(state.entry_ops(url), file) =~= only_if(
        file == partition_name(state.partition),
        url_entry(state.lastmod, url),
    ));
}

/// What a rotation creates and appends.
proof fn lemma_rotation_log(state: GeneratorView, file: Seq<char>)
    ensures
        created(state.rotation_ops()) == seq![partition_name(state.partition + 1)],
        appended(state.rotation_ops(), file) == only_if(
            file == partition_name(state.partition),
            URLSET_FOOT@,
        ) + only_if(file == partition_name(state.partition + 1), URLSET_HEAD@) + only_if(
            file == INDEX_NAME@,
            index_record(
                state.index.base_url,
                state.index.lastmod,
                partition_name(state.partition + 1),
            ),
        ),
{
    let here = partition_name(state.partition);
    let next = partition_name(state.partition + 1);
    let none = Seq::<FileOpView>::empty();
    let a = FileOpView::Append { name: here, text: URLSET_FOOT@ };
    let b = FileOpView::Flush { name: here };
    let c = FileOpView::Close { name: here };
    let closing = none.push(a).push(b).push(c);
    let opening = GeneratorView::partition_opening_ops(state.partition + 1);
    let record = state.index.record_ops(next);
    assert(state.rotation_ops() =~= closing + opening + record);
    lemma_created_push(none, a);
    lemma_created_push(none.push(a), b);
    lemma_created_push(none.push(a).push(b), c);
    lemma_appended_push(none, a, file);
    lemma_appended_push(none.push(a), b, file);
    lemma_appended_push(none.push(a).push(b), c, file);
    assert(appended(closing, file) =~= only_if(file == here, URLSET_FOOT@));
    lemma_partition_opening_log(state.partition + 1, file);
    lemma_record_log(state.index, next, file);
    lemma_created_concat(closing, opening);
    lemma_created_concat(closing + opening, record);
    lemma_appended_concat(closing, opening, file);
    lemma_appended_concat(closing + opening, record, file);
    assert(created(state.rotation_ops()) =~= seq![next]);
}

/// What one `write` creates, and what it appends to `file`.
pub proof fn lemma_write_log(state: GeneratorView, url: Seq<char>, file: Seq<char>)
    ensures
        created(state.write_ops(url)) == only_if(
            state.fills(),
            partition_name(state.partition + 1),
        ),
        appended(state.write_ops(url), file) == only_if(
            file == partition_name(state.partition),
            url_entry(state.lastmod, url),
        ) + only_if(state.fills() && file == partition_name(state.partition), URLSET_FOOT@)
            + only_if(state.fills() && file == partition_name(state.partition + 1), URLSET_HEAD@)
            + only_if(
            state.fills() && file == INDEX_NAME@,
            index_record(
                state.index.base_url,
                state.index.lastmod,
                partition_name(state.partition + 1),
            ),
        ),
{
    lemma_entry_log(state, url, file);
    let entry = only_if(file == partition_name(state.partition), url_entry(state.lastmod, url));
    if state.fills() {
        lemma_rotation_log(state, file);
        lemma_created_concat(state.entry_ops(url), state.rotation_ops());
        lemma_appended_concat(state.entry_ops(url), state.rotation_ops(), file);
        assert(created(state.write_ops(url)) =~= seq![partition_name(state.partition + 1)]);
        assert(appended(state.write_ops(url), file) =~= entry + only_if(
            file == partition_name(state.partition),
            URLSET_FOOT@,
        ) + only_if(file == partition_name(state.partition + 1), URLSET_HEAD@) + only_if(
            file == INDEX_NAME@,
            index_record(
                state.index.base_url,
                state.index.lastmod,
                partition_name(state.partition + 1),
            ),
        ));
    } else {
        assert(appended(state.write_ops(url), file) =~= entry + Seq::<Seq<char>>::empty()
            + Seq::<Seq<char>>::empty() + Seq::<Seq<char>>::empty());
    }
}

/// The instructions of a run up to its last write: the opening, then the
/// writes.
pub open spec fn session_ops(start: GeneratorView, urls: Seq<Seq<char>>) -> Seq<FileOpView> {
    start.opening_ops() + writes_ops(start, urls)
}

/// The instructions of a whole run: the opening, the writes, the finish.
pub open spec fn run_ops(start: GeneratorView, urls: Seq<Seq<char>>) -> Seq<FileOpView> {
    session_ops(start, urls) + after_writes(start, urls.len()).finish_ops()
}

/// The names of the first `count` partitions, in the order of their indexes.
pub open spec fn partition_names(count: nat) -> Seq<Seq<char>> {
    Seq::new(count, |k: int| partition_name(k as nat))
}

/// The index records of the first `count` partitions, in the order of their
/// indexes.
pub open spec fn index_records(index: IndexerView, count: nat) -> Seq<Seq<char>> {
    Seq::new(count, |k: int| index_record(index.base_url, index.lastmod, partition_name(k as nat)))
}

/// The entries of `urls`, in their order.
pub open spec fn entries(lastmod: Seq<char>, urls: Seq<Seq<char>>) -> Seq<Seq<char>> {
    urls.map_values(|url: Seq<char>| url_entry(lastmod, url))
}

/// What a partition that holds `urls` has received while it is open: the
/// head, then the entries.
pub open spec fn open_partition(lastmod: Seq<char>, urls: Seq<Seq<char>>) -> Seq<Seq<char>> {
    seq![URLSET_HEAD@] + entries(lastmod, urls)
}

/// What a partition that holds `urls` has received once it is ended: the
/// head, the entries, the foot.
pub open spec fn closed_partition(lastmod: Seq<char>, urls: Seq<Seq<char>>) -> Seq<Seq<char>> {
    open_partition(lastmod, urls).push(URLSET_FOOT@)
}

/// What the partition `k` has received after the writes of a run that
/// divided its entries into `ch`.
pub open spec fn partition_received(lastmod: Seq<char>, ch: Seq<Seq<Seq<char>>>, k: int) -> Seq<
    Seq<char>,
> {
    if 0 <= k < ch.len() - 1 {
        closed_partition(lastmod, ch[k])
    } else if k == ch.len() - 1 {
        open_partition(lastmod, ch[k])
    } else {
        Seq::empty()
    }
}

/// What the opening of a run creates and appends.
proof fn lemma_opening_log(start: GeneratorView, k: nat)
    requires
        start.partition == 0,
    ensures
        created(start.opening_ops()) == seq![INDEX_NAME@, partition_name(0)],
        appended(start.opening_ops(), INDEX_NAME@) == seq![
            INDEX_HEAD@,
            index_record(start.index.base_url, start.index.lastmod, partition_name(0)),
        ],
        appended(start.opening_ops(), partition_name(k)) == only_if(k == 0, URLSET_HEAD@),
{
    let a = IndexerView::opening_ops();
    let b = GeneratorView::partition_opening_ops(0);
    let c = start.index.record_ops(partition_name(0));
    lemma_created_concat(a, b);
    lemma_created_concat(a + b, c);
    lemma_index_opening_log(INDEX_NAME@);
    lemma_partition_opening_log(0, INDEX_NAME@);
    lemma_record_log(start.index, partition_name(0), INDEX_NAME@);
    lemma_appended_concat(a, b, INDEX_NAME@);
    lemma_appended_concat(a + b, c, INDEX_NAME@);
    lemma_partition_is_not_index(0);
    lemma_partition_is_not_index(k);
    lemma_index_opening_log(partition_name(k));
    lemma_partition_opening_log(0, partition_name(k));
    lemma_record_log(start.index, partition_name(0), partition_name(k));
    lemma_appended_concat(a, b, partition_name(k));
    lemma_appended_concat(a + b, c, partition_name(k));
    if partition_name(k) == partition_name(0) {
        lemma_partition_names_distinct(k, 0);
    }
    assert(created(start.opening_ops()) =~= seq![INDEX_NAME@, partition_name(0)]);
    assert(appended(start.opening_ops(), INDEX_NAME@) =~= seq![
        INDEX_HEAD@,
        index_record(start.index.base_url, start.index.lastmod, partition_name(0)),
    ]);
    assert(appended(start.opening_ops(), partition_name(k)) =~= only_if(k == 0, URLSET_HEAD@));
}

/// The files that a run creates: the index, then the partitions in the
/// order of their indexes, one for each part of the division.
pub proof fn lemma_session_created(start: GeneratorView, urls: Seq<Seq<char>>)
    requires
        start.partition == 0,
        start.count == 0,
    ensures
        created(session_ops(start, urls)) == seq![INDEX_NAME@] + partition_names(
            chunks(urls, capacity(start.max)).len(),
        ),
    decreases urls.len(),
{
    let cap = capacity(start.max);
    let ch = chunks(urls, cap);
    let log = session_ops(start, urls);
    if urls.len() == 0 {
        lemma_opening_log(start, 0);
        assert(log =~= start.opening_ops());
        assert(created(log) =~= seq![INDEX_NAME@] + partition_names(1));
    } else {
        let before = urls.drop_last();
        let state = after_writes(start, before.len());
        let step = state.write_ops(urls.last());
        lemma_session_created(start, before);
        lemma_state_after_writes(start, before);
        lemma_chunks_total(before, cap);
        lemma_write_log(state, urls.last(), INDEX_NAME@);
        assert(log =~= session_ops(start, before) + step);
        lemma_created_concat(session_ops(start, before), step);
        let count = chunks(before, cap).len();
        if state.fills() {
            assert(ch.len() == count + 1);
            assert(partition_names(count + 1) =~= partition_names(count).push(
                partition_name(count),
            ));
            assert(created(log) =~= seq![INDEX_NAME@] + partition_names(ch.len()));
        } else {
            assert(ch.len() == count);
            assert(created(log) =~= seq![INDEX_NAME@] + partition_names(ch.len()));
        }
    }
}

/// What a run appends to the index up to its last write: the head, then
/// one record for each partition, in the order in which the partitions were
/// opened.
pub proof fn lemma_session_index(start: GeneratorView, urls: Seq<Seq<char>>)
    requires
        start.partition == 0,
        start.count == 0,
    ensures
        appended(session_ops(start, urls), INDEX_NAME@) == seq![INDEX_HEAD@] + index_records(
            start.index,
            chunks(urls, capacity(start.max)).len(),
        ),
    decreases urls.len(),
{
    let cap = capacity(start.max);
    let ch = chunks(urls, cap);
    let log = session_ops(start, urls);
    if urls.len() == 0 {
        lemma_opening_log(start, 0);
        assert(log =~= start.opening_ops());
        assert(appended(log, INDEX_NAME@) =~= seq![INDEX_HEAD@] + index_records(start.index, 1));
    } else {
        let before = urls.drop_last();
        let state = after_writes(start, before.len());
        let step = state.write_ops(urls.last());
        lemma_session_index(start, before);
        lemma_state_after_writes(start, before);
        lemma_chunks_total(before, cap);
        lemma_write_log(state, urls.last(), INDEX_NAME@);
        lemma_partition_is_not_index(state.partition);
        lemma_partition_is_not_index(state.partition + 1);
        assert(log =~= session_ops(start, before) + step);
        lemma_appended_concat(session_ops(start, before), step, INDEX_NAME@);
        let count = chunks(before, cap).len();
        if state.fills() {
            assert(ch.len() == count + 1);
            assert(index_records(start.index, count + 1) =~= index_records(
                start.index,
                count,
            ).push(
                index_record(start.index.base_url, start.index.lastmod, partition_name(count)),
            ));
            assert(appended(log, INDEX_NAME@) =~= seq![INDEX_HEAD@] + index_records(
                start.index,
                ch.len(),
            ));
        } else {
            assert(ch.len() == count);
            assert(appended(log, INDEX_NAME@) =~= seq![INDEX_HEAD@] + index_records(
                start.index,
                ch.len(),
            ));
        }
    }
}

/// What a run appends to the partition `k` up to its last write: the head,
/// the entries of the `k`-th part of the division in their order, and the
/// foot if the partition was rotated away from. A partition that the run
/// did not reach receives nothing.
pub proof fn lemma_session_partition(start: GeneratorView, urls: Seq<Seq<char>>, k: nat)
    requires
        start.partition == 0,
        start.count == 0,
    ensures
        appended(session_ops(start, urls), partition_name(k)) == partition_received(
            start.lastmod,
            chunks(urls, capacity(start.max)),
            k as int,
        ),
    decreases urls.len(),
{
    let cap = capacity(start.max);
    let ch = chunks(urls, cap);
    let log = session_ops(start, urls);
    let file = partition_name(k);
    let lastmod = start.lastmod;
    if urls.len() == 0 {
        lemma_opening_log(start, k);
        assert(log =~= start.opening_ops());
        assert(entries(lastmod, ch[0]) =~= Seq::<Seq<char>>::empty());
        assert(appended(log, file) =~= partition_received(lastmod, ch, k as int));
    } else {
        let before = urls.drop_last();
        let state = after_writes(start, before.len());
        let step = state.write_ops(urls.last());
        let old_ch = chunks(before, cap);
        let p = state.partition;
        lemma_session_partition(start, before, k);
        lemma_state_after_writes(start, before);
        lemma_chunks_total(before, cap);
        lemma_write_log(state, urls.last(), file);
        lemma_partition_is_not_index(k);
        if file == partition_name(p) {
            lemma_partition_names_distinct(k, p);
        }
        if file == partition_name(p + 1) {
            lemma_partition_names_distinct(k, p + 1);
        }
        assert(log =~= session_ops(start, before) + step);
        lemma_appended_concat(session_ops(start, before), step, file);
        let grown = old_ch.last().push(urls.last());
        let filled = old_ch.drop_last().push(grown);
        assert(entries(lastmod, grown) =~= entries(lastmod, old_ch.last()).push(
            url_entry(lastmod, urls.last()),
        ));
        if k < p {
            assert(ch[k as int] == old_ch[k as int]);
            assert(appended(log, file) =~= partition_received(lastmod, ch, k as int));
        } else if k == p {
            assert(ch[k as int] == grown);
            assert(appended(log, file) =~= partition_received(lastmod, ch, k as int));
        } else if k == p + 1 {
            if state.fills() {
                assert(ch[k as int] =~= Seq::<Seq<char>>::empty());
                assert(entries(lastmod, ch[k as int]) =~= Seq::<Seq<char>>::empty());
            }
            assert(appended(log, file) =~= partition_received(lastmod, ch, k as int));
        } else {
            assert(appended(log, file) =~= partition_received(lastmod, ch, k as int));
        }
    }
}

/// What the finish of a run creates and appends.
proof fn lemma_finish_log(state: GeneratorView, k: nat)
    ensures
        created(state.finish_ops()) == Seq::<Seq<char>>::empty(),
        appended(state.finish_ops(), INDEX_NAME@) == seq![INDEX_FOOT@],
        appended(state.finish_ops(), partition_name(k)) == only_if(
            k == state.partition,
            URLSET_FOOT@,
        ),
{
    let none = Seq::<FileOpView>::empty();
    let a = FileOpView::Append { name: partition_name(state.partition), text: URLSET_FOOT@ };
    let b = FileOpView::Append { name: INDEX_NAME@, text: INDEX_FOOT@ };
    let ops = state.finish_ops();
    assert(ops =~= none.push(a).push(b));
    lemma_partition_is_not_index(state.partition);
    lemma_partition_is_not_index(k);
    if partition_name(k) == partition_name(state.partition) {
        lemma_partition_names_distinct(k, state.partition);
    }
    lemma_created_push(none, a);
    lemma_created_push(none.push(a), b);
    lemma_appended_push(none, a, INDEX_NAME@);
    lemma_appended_push(none.push(a), b, INDEX_NAME@);
    lemma_appended_push(none, a, partition_name(k));
    lemma_appended_push(none.push(a), b, partition_name(k));
    assert(appended(ops, INDEX_NAME@) =~= seq![INDEX_FOOT@]);
    assert(appended(ops, partition_name(k)) =~= only_if(k == state.partition, URLSET_FOOT@));
}

/// A whole run, from the opening to the finish, of a writer with at most
/// `max` entries per partition over `urls`.
///
/// With `count = urls.len() / capacity(max) + 1`: the run creates the index
/// and then the partitions `0` to `count - 1`, in this order, and nothing
/// else. The index receives its head, one record for each of these
/// partitions in the same order, and its foot. The partition `k` receives
/// its head, the entries of the URLs from `k * capacity(max)` up to
/// `(k + 1) * capacity(max)`, or up to the last one, in the order in which
/// they were written, and its foot. So every partition but the last holds
/// exactly `capacity(max)` entries, the last holds the rest, which may be
/// none, and no partition holds more.
pub proof fn law_whole_run(
    max: nat,
    lastmod: Seq<char>,
    base_url: Seq<char>,
    urls: Seq<Seq<char>>,
    k: int,
)
    requires
        0 <= k <= urls.len() / capacity(max),
    ensures
        ({
            let start = GeneratorView::initial(max, lastmod, base_url);
            let cap = capacity(max);
            let count = urls.len() / cap + 1;
            let log = run_ops(start, urls);
            let from = chunk_start(cap, k);
            let to = chunk_end(urls.len(), cap, k);
            &&& created(log) == seq![INDEX_NAME@] + partition_names(count)
            &&& appended(log, INDEX_NAME@) == (seq![INDEX_HEAD@] + index_records(
                start.index,
                count,
            )).push(INDEX_FOOT@)
            &&& 0 <= from <= to <= urls.len()
            &&& appended(log, partition_name(k as nat)) == closed_partition(
                lastmod,
                urls.subrange(from, to),
            )
            &&& k < count - 1 ==> to - from == cap
            &&& k == count - 1 ==> to - from == urls.len() % cap
        }),
{
    let start = GeneratorView::initial(max, lastmod, base_url);
    let cap = capacity(max);
    let ch = chunks(urls, cap);
    let state = after_writes(start, urls.len());
    let session = session_ops(start, urls);
    let file = partition_name(k as nat);
    lemma_chunks_shape(urls, cap);
    lemma_state_after_writes(start, urls);
    lemma_session_created(start, urls);
    lemma_session_index(start, urls);
    lemma_session_partition(start, urls, k as nat);
    lemma_chunk_is_range(urls, cap, k);
    lemma_finish_log(state, k as nat);
    lemma_created_concat(session, state.finish_ops());
    lemma_appended_concat(session, state.finish_ops(), INDEX_NAME@);
    lemma_appended_concat(session, state.finish_ops(), file);
    let log = run_ops(start, urls);
    assert(created(log) =~= seq![INDEX_NAME@] + partition_names(ch.len()));
    assert(appended(log, INDEX_NAME@) =~= (seq![INDEX_HEAD@] + index_records(
        start.index,
        ch.len(),
    )).push(INDEX_FOOT@));
    assert(appended(log, file) =~= closed_partition(lastmod, ch[k]));
    assert(ch[k].len() == chunk_end(urls.len(), cap, k) - chunk_start(cap, k));
}

/// One `write` records what it opens: a write that fills the open partition
/// creates exactly the next partition, appends exactly its record to the
/// index and advances the partition index by one; any other write creates
/// no file, appends nothing to the index and leaves the partition index as
/// it is.
pub proof fn law_write_records_what_it_opens(state: GeneratorView, url: Seq<char>)
    ensures
        created(state.write_ops(url)) == only_if(
            state.fills(),
            partition_name(state.partition + 1),
        ),
        appended(state.write_ops(url), INDEX_NAME@) == only_if(
            state.fills(),
            index_record(
                state.index.base_url,
                state.index.lastmod,
                partition_name(state.partition + 1),
            ),
        ),
        state.after_write().partition == if state.fills() {
            state.partition + 1
        } else {
            state.partition
        },
{
    lemma_write_log(state, url, INDEX_NAME@);
    lemma_partition_is_not_index(state.partition);
    lemma_partition_is_not_index(state.partition + 1);
    assert(appended(state.write_ops(url), INDEX_NAME@) =~= only_if(
        state.fills(),
        index_record(
            state.index.base_url,
            state.index.lastmod,
            partition_name(state.partition + 1),
        ),
    ));
}

/// At any time of a run, the index holds one record for each partition that
/// was opened, in the order of the opening, and there is no other: after
/// the opening and `n` writes, with the writer in partition `p`, the run
/// has created the index and the partitions `0` to `p`, the index has
/// received its head and the records of the partitions `0` to `p`, and
/// `p` is `n / capacity(max)`.
pub proof fn law_index_follows_partitions(
    max: nat,
    lastmod: Seq<char>,
    base_url: Seq<char>,
    urls: Seq<Seq<char>>,
)
    ensures
        ({
            let start = GeneratorView::initial(max, lastmod, base_url);
            let state = after_writes(start, urls.len());
            let log = session_ops(start, urls);
            &&& state.partition == urls.len() / capacity(max)
            &&& created(log) == seq![INDEX_NAME@] + partition_names(state.partition + 1)
            &&& appended(log, INDEX_NAME@) == seq![INDEX_HEAD@] + index_records(
                start.index,
                state.partition + 1,
            )
        }),
{
    let start = GeneratorView::initial(max, lastmod, base_url);
    lemma_chunks_shape(urls, capacity(max));
    lemma_state_after_writes(start, urls);
    lemma_session_created(start, urls);
    lemma_session_index(start, urls);
}

/// The partitions hold the URLs of the run, each once and in the order in
/// which they were written: the parts of the division, one after the other,
/// are the URLs, and the partition `k` has received the entries of the
/// `k`-th part between its head and, once it is rotated away from, its foot.
pub proof fn law_partitions_hold_the_urls(
    max: nat,
    lastmod: Seq<char>,
    base_url: Seq<char>,
    urls: Seq<Seq<char>>,
)
    ensures
        ({
            let start = GeneratorView::initial(max, lastmod, base_url);
            let parts = chunks(urls, capacity(max));
            &&& parts.flatten() == urls
            &&& parts.len() == after_writes(start, urls.len()).partition + 1
            &&& forall|k: int|
                0 <= k < parts.len() ==> appended(
                    session_ops(start, urls),
                    partition_name(k as nat),
                ) == #[trigger] partition_received(lastmod, parts, k)
        }),
{
    let start = GeneratorView::initial(max, lastmod, base_url);
    let parts = chunks(urls, capacity(max));
    lemma_chunks_shape(urls, capacity(max));
    lemma_state_after_writes(start, urls);
    assert forall|k: int| 0 <= k < parts.len() implies appended(
        session_ops(start, urls),
        partition_name(k as nat),
    ) == #[trigger] partition_received(lastmod, parts, k) by {
        lemma_session_partition(start, urls, k as nat);
    }
}

/// Where the writer stands after `n` writes: in partition `n / capacity(max)`
/// with `n % capacity(max)` entries in it. So it rotates with every
/// `capacity(max)`-th write and with no other.
pub proof fn law_rotation_points(max: nat, lastmod: Seq<char>, base_url: Seq<char>, n: nat)
    ensures
        ({
            let state = after_writes(GeneratorView::initial(max, lastmod, base_url), n);
            &&& state.wf()
            &&& state.partition == n / capacity(max)
            &&& state.count == n % capacity(max)
        }),
{
    let start = GeneratorView::initial(max, lastmod, base_url);
    let urls = Seq::new(n, |i: int| Seq::<char>::empty());
    lemma_state_after_writes(start, urls);
    lemma_chunks_shape(urls, capacity(max));
}

/// `n` divided by `d`, rounded up.
pub open spec fn divided_rounding_up(n: nat, d: nat) -> nat {
    ((n + d - 1) / (d as int)) as nat
}

/// The number of partitions of a run whose writes do not end on a full
/// partition: for `n` entries and a maximum of `max` that does not divide
/// `n`, the run opens `n / max` rounded up partitions, and one for no entry
/// at all; the index records exactly these, in the order of their opening.
pub proof fn law_partitions_opened(
    max: nat,
    lastmod: Seq<char>,
    base_url: Seq<char>,
    urls: Seq<Seq<char>>,
)
    requires
        max > 0,
        urls.len() == 0 || urls.len() % max != 0,
    ensures
        ({
            let start = GeneratorView::initial(max, lastmod, base_url);
            let count = if urls.len() == 0 {
                1
            } else {
                divided_rounding_up(urls.len(), max)
            };
            &&& created(session_ops(start, urls)) == seq![INDEX_NAME@] + partition_names(count)
            &&& appended(session_ops(start, urls), INDEX_NAME@) == seq![INDEX_HEAD@]
                + index_records(start.index, count)
        }),
{
    let start = GeneratorView::initial(max, lastmod, base_url);
    let n = urls.len();
    lemma_chunks_shape(urls, max);
    lemma_session_created(start, urls);
    lemma_session_index(start, urls);
    if n > 0 {
        let q = n / max;
        let r = n % max;
        vstd::arithmetic::div_mod::lemma_fundamental_div_mod(n as int, max as int);
        assert(n + max - 1 == (q + 1) * max + (r - 1)) by (nonlinear_arith)
            requires
                n == max * q + r,
        ;
        lemma_fundamental_div_mod_converse(n + max - 1, max as int, (q + 1) as int, r - 1);
    } else {
        assert(0nat / max == 0) by (nonlinear_arith)
            requires
                max > 0,
        ;
    }
}

/// With a maximum of one entry, a run over `n` URLs leaves `n` partitions
/// of exactly one entry each, the `k`-th with the `k`-th URL, and a last
/// one without entries.
pub proof fn law_single_entry_partitions(
    lastmod: Seq<char>,
    base_url: Seq<char>,
    urls: Seq<Seq<char>>,
    k: int,
)
    requires
        0 <= k <= urls.len(),
    ensures
        ({
            let log = run_ops(GeneratorView::initial(1, lastmod, base_url), urls);
            &&& created(log) == seq![INDEX_NAME@] + partition_names(urls.len() + 1)
            &&& k < urls.len() ==> appended(log, partition_name(k as nat)) == seq![
                URLSET_HEAD@,
                url_entry(lastmod, urls[k]),
                URLSET_FOOT@,
            ]
            &&& k == urls.len() ==> appended(log, partition_name(k as nat)) == seq![
                URLSET_HEAD@,
                URLSET_FOOT@,
            ]
        }),
{
    let n = urls.len();
    assert(n / 1 == n && n % 1 == 0);
    law_whole_run(1, lastmod, base_url, urls, k);
    let from = chunk_start(1, k);
    let to = chunk_end(n, 1, k);
    assert(from == k);
    if k < n {
        assert(to == k + 1);
        assert(entries(lastmod, urls.subrange(from, to)) =~= seq![url_entry(lastmod, urls[k])]);
        assert(closed_partition(lastmod, urls.subrange(from, to)) =~= seq![
            URLSET_HEAD@,
            url_entry(lastmod, urls[k]),
            URLSET_FOOT@,
        ]);
    } else {
        assert(to == n);
        assert(entries(lastmod, urls.subrange(from, to)) =~= Seq::<Seq<char>>::empty());
        assert(closed_partition(lastmod, urls.subrange(from, to)) =~= seq![
            URLSET_HEAD@,
            URLSET_FOOT@,
        ]);
    }
}

/// A run without entries still leaves partition 0, with its head and its
/// foot and nothing between them, and an index with the one record of that
/// partition.
pub proof fn law_empty_run(max: nat, lastmod: Seq<char>, base_url: Seq<char>)
    ensures
        ({
            let log = run_ops(GeneratorView::initial(max, lastmod, base_url), Seq::empty());
            &&& created(log) == seq![INDEX_NAME@, partition_name(0)]
            &&& appended(log, partition_name(0)) == seq![URLSET_HEAD@, URLSET_FOOT@]
            &&& appended(log, INDEX_NAME@) == seq![
                INDEX_HEAD@,
                index_record(base_url, lastmod, partition_name(0)),
                INDEX_FOOT@,
            ]
        }),
{
    let urls = Seq::<Seq<char>>::empty();
    let start = GeneratorView::initial(max, lastmod, base_url);
    let cap = capacity(max);
    assert(0nat / cap == 0 && 0nat % cap == 0) by (nonlinear_arith)
        requires
            cap > 0,
    ;
    law_whole_run(max, lastmod, base_url, urls, 0);
    let log = run_ops(start, urls);
    assert(partition_names(1) =~= seq![partition_name(0)]);
    assert(index_records(start.index, 1) =~= seq![
        index_record(base_url, lastmod, partition_name(0)),
    ]);
    assert(created(log) =~= seq![INDEX_NAME@, partition_name(0)]);
    assert(entries(lastmod, urls.subrange(0, 0)) =~= Seq::<Seq<char>>::empty());
    assert(closed_partition(lastmod, urls.subrange(0, 0)) =~= seq![URLSET_HEAD@, URLSET_FOOT@]);
    assert(chunk_start(cap, 0) == 0 && chunk_end(0, cap, 0) == 0) by (nonlinear_arith)
        requires
            cap > 0,
            chunk_start(cap, 0) == 0 * cap,
            chunk_end(0, cap, 0) == if (0 + 1) * cap <= 0 {
                (0 + 1) * cap
            } else {
                0
            },
    ;
    assert(appended(log, INDEX_NAME@) =~= seq![
        INDEX_HEAD@,
        index_record(base_url, lastmod, partition_name(0)),
        INDEX_FOOT@,
    ]);
}

} // verus!
