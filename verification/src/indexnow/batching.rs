//! What a whole run of the batch accumulator leaves behind: how the URLs are
//! divided over the batches, and what each batch file holds.

use crate::division::{
    chunk_end, chunk_start, chunks, lemma_chunk_is_range, lemma_chunks_shape, lemma_chunks_total,
};
use crate::indexnow::generator::{batch_name, RequestGeneratorView, BATCH_PREFIX, BATCH_SUFFIX};
use crate::output::{lemma_stored_concat, lemma_stored_push, stored, FileOpView};
use crate::text::lemma_numbered_names_distinct;
use vstd::prelude::*;

verus! {

/// Batch files with different indexes have different names.
pub proof fn law_batch_names_distinct(a: nat, b: nat)
    requires
        batch_name(a) == batch_name(b),
    ensures
        a == b,
{
    lemma_numbered_names_distinct(BATCH_PREFIX@, BATCH_SUFFIX@, a, b);
}

/// The number of URLs of a batch that `push` writes out.
pub open spec fn batch_size(max: nat) -> nat {
    max + 1
}

/// The state after pushing `urls`, one after the other, from `start`, if
/// every batch is written.
pub open spec fn after_pushes(start: RequestGeneratorView, urls: Seq<Seq<char>>)
    -> RequestGeneratorView
    decreases urls.len(),
{
    if urls.len() == 0 {
        start
    } else {
        after_pushes(start, urls.drop_last()).after_push(urls.last())
    }
}

/// The instructions of pushing `urls`, one after the other, from `start`.
pub open spec fn pushes_ops(start: RequestGeneratorView, urls: Seq<Seq<char>>) -> Seq<FileOpView>
    decreases urls.len(),
{
    if urls.len() == 0 {
        Seq::empty()
    } else {
        pushes_ops(start, urls.drop_last()) + after_pushes(start, urls.drop_last()).push_ops(
            urls.last(),
        )
    }
}

/// The instructions of a whole run: the pushes, then the finish.
pub open spec fn run_ops(start: RequestGeneratorView, urls: Seq<Seq<char>>) -> Seq<FileOpView> {
    pushes_ops(start, urls) + after_pushes(start, urls).finish_ops()
}

/// The first `count` batch files of a run that divided its URLs into `ch`:
/// each with its name and the document of its URLs.
pub open spec fn batch_files(start: RequestGeneratorView, ch: Seq<Seq<Seq<char>>>, count: nat)
    -> Seq<(Seq<char>, Seq<char>)> {
    Seq::new(count, |k: int| (batch_name(k as nat), start.request(ch[k]).json()))
}

/// Where the accumulator stands after a run of pushes, and what the pushes
/// have written out: the buffer holds the last part of the division, and
/// every part before it went out as the batch of its index.
pub proof fn lemma_pushes(start: RequestGeneratorView, urls: Seq<Seq<char>>)
    requires
        start.batch == 0,
        start.buffer.len() == 0,
    ensures
        ({
            let state = after_pushes(start, urls);
            let ch = chunks(urls, batch_size(start.max));
            &&& state.wf()
            &&& state == (RequestGeneratorView {
                batch: (ch.len() - 1) as nat,
                buffer: ch.last(),
                ..start
            })
            &&& stored(pushes_ops(start, urls)) == batch_files(start, ch, (ch.len() - 1) as nat)
        }),
    decreases urls.len(),
{
    let size = batch_size(start.max);
    let ch = chunks(urls, size);
    if urls.len() == 0 {
        assert(start.buffer =~= ch.last());
        assert(stored(pushes_ops(start, urls)) =~= batch_files(start, ch, 0));
    } else {
        let before = urls.drop_last();
        let old_ch = chunks(before, size);
        let state = after_pushes(start, before);
        lemma_pushes(start, before);
        lemma_chunks_total(before, size);
        let step = state.push_ops(urls.last());
        lemma_stored_concat(pushes_ops(start, before), step);
        let grown = old_ch.last().push(urls.last());
        let count = (old_ch.len() - 1) as nat;
        assert forall|k: int| 0 <= k < count implies ch[k] == old_ch[k] by {}
        if state.overflows() {
            let op = FileOpView::Store {
                name: batch_name(state.batch),
                text: state.request(grown).json(),
            };
            assert(step =~= Seq::<FileOpView>::empty().push(op));
            lemma_stored_push(Seq::<FileOpView>::empty(), op);
            assert(stored(step) =~= seq![(batch_name(state.batch), state.request(grown).json())]);
            assert(ch[count as int] == grown);
            assert(after_pushes(start, urls).buffer =~= ch.last());
            assert(stored(pushes_ops(start, urls)) =~= batch_files(start, ch, count + 1));
        } else {
            assert(stored(step) =~= Seq::<(Seq<char>, Seq<char>)>::empty());
            assert(stored(pushes_ops(start, urls)) =~= batch_files(start, ch, count));
        }
    }
}

/// The batches and the buffer hold the URLs that were pushed, each once and
/// in the order of the pushes, if every batch is written: the parts of the
/// division, one after the other, are the URLs; every part but the last
/// went out as the batch of its index, and the buffer holds the last.
pub proof fn law_batches_hold_the_urls(
    max: nat,
    host: Seq<char>,
    key: Seq<char>,
    key_location: Seq<char>,
    urls: Seq<Seq<char>>,
)
    ensures
        ({
            let start = RequestGeneratorView::initial(max, host, key, key_location);
            let parts = chunks(urls, batch_size(max));
            &&& parts.len() >= 1
            &&& parts.flatten() == urls
            &&& stored(pushes_ops(start, urls)) == batch_files(
                start,
                parts,
                (parts.len() - 1) as nat,
            )
            &&& after_pushes(start, urls).buffer == parts.last()
        }),
{
    let start = RequestGeneratorView::initial(max, host, key, key_location);
    lemma_chunks_shape(urls, batch_size(max));
    lemma_pushes(start, urls);
}

/// A whole run of an accumulator with the threshold `max` over `urls`, if
/// every batch is written.
///
/// With `count = urls.len() / (max + 1) + 1`: the run writes the batch files
/// `0` to `count - 1`, in this order, each once, and nothing else. The batch
/// `k` holds the URLs from `k * (max + 1)` up to `(k + 1) * (max + 1)`, or
/// up to the last one, in the order in which they were pushed. So every
/// batch but the last holds exactly `max + 1` URLs and none holds more; the
/// last one holds the rest, and is written also when that is nothing.
pub proof fn law_whole_run(
    max: nat,
    host: Seq<char>,
    key: Seq<char>,
    key_location: Seq<char>,
    urls: Seq<Seq<char>>,
    k: int,
)
    requires
        0 <= k <= urls.len() / batch_size(max),
    ensures
        ({
            let start = RequestGeneratorView::initial(max, host, key, key_location);
            let size = batch_size(max);
            let count = urls.len() / size + 1;
            let log = run_ops(start, urls);
            let from = chunk_start(size, k);
            let to = chunk_end(urls.len(), size, k);
            &&& stored(log).len() == count
            &&& 0 <= from <= to <= urls.len()
            &&& stored(log)[k] == (
                batch_name(k as nat),
                start.request(urls.subrange(from, to)).json(),
            )
            &&& k < count - 1 ==> to - from == size
            &&& k == count - 1 ==> to - from == urls.len() % size
        }),
{
    let start = RequestGeneratorView::initial(max, host, key, key_location);
    let size = batch_size(max);
    let ch = chunks(urls, size);
    let state = after_pushes(start, urls);
    lemma_chunks_shape(urls, size);
    lemma_pushes(start, urls);
    lemma_chunk_is_range(urls, size, k);
    let last = FileOpView::Store {
        name: batch_name(state.batch),
        text: state.request(state.buffer).json(),
    };
    assert(state.finish_ops() =~= Seq::<FileOpView>::empty().push(last));
    lemma_stored_push(Seq::<FileOpView>::empty(), last);
    lemma_stored_concat(pushes_ops(start, urls), state.finish_ops());
    assert(stored(run_ops(start, urls)) =~= batch_files(start, ch, ch.len()));
    assert(ch[k].len() == chunk_end(urls.len(), size, k) - chunk_start(size, k));
}

/// Where the accumulator stands after `n` pushes: at batch `n / (max + 1)`
/// with `n % (max + 1)` URLs in its buffer. The batch that `finish` then
/// writes holds exactly these, so it is without URLs exactly when `n` is a
/// multiple of `max + 1`, zero included.
pub proof fn law_last_batch(
    max: nat,
    host: Seq<char>,
    key: Seq<char>,
    key_location: Seq<char>,
    urls: Seq<Seq<char>>,
)
    ensures
        ({
            let state = after_pushes(
                RequestGeneratorView::initial(max, host, key, key_location),
                urls,
            );
            &&& state.wf()
            &&& state.batch == urls.len() / batch_size(max)
            &&& state.buffer.len() == urls.len() % batch_size(max)
            &&& state.finish_ops() == seq![
                FileOpView::Store {
                    name: batch_name(state.batch),
                    text: state.request(state.buffer).json(),
                },
            ]
        }),
{
    let start = RequestGeneratorView::initial(max, host, key, key_location);
    lemma_chunks_shape(urls, batch_size(max));
    lemma_pushes(start, urls);
}

} // verus!
