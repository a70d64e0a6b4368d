//! What a whole run of the pipeline hands to its sinks: the URL of every
//! key's first coming, once, and nothing of a later coming.

use crate::indexnow::batching::{after_pushes, pushes_ops};
use crate::output::{
    appended, created, lemma_appended_concat, lemma_created_concat, lemma_only_stores,
    lemma_stored_concat, lemma_stored_none, stored, FileOpView,
};
use crate::indexnow::generator::RequestGeneratorView;
use crate::pipeline::fanout::{
    seen_after_name, seen_after_record, PipelineView, RecordView, LISTED_ITEM_TYPE,
};
use crate::pipeline::query::{page_location, search_query};
use crate::sitemap::generator::GeneratorView;
use crate::sitemap::indexer::{INDEX_HEAD, INDEX_NAME};
use crate::sitemap::rotation::{
    after_writes, divided_rounding_up, index_records, law_partitions_opened, partition_names,
    writes_ops,
};
use vstd::prelude::*;

verus! {

/// A key and the URL that came with it.
pub type Pair = (Seq<char>, Seq<char>);

/// The keys seen after `pairs` came by, one after the other.
pub open spec fn seen_after_all(seen: Set<Seq<char>>, pairs: Seq<Pair>) -> Set<Seq<char>>
    decreases pairs.len(),
{
    if pairs.len() == 0 {
        seen
    } else {
        seen_after_all(seen, pairs.drop_last()).insert(pairs.last().0)
    }
}

/// The URLs of `pairs` that are forwarded, in their order: those that came
/// with a key that was neither seen before the run nor came earlier in it.
pub open spec fn forwarded(seen: Set<Seq<char>>, pairs: Seq<Pair>) -> Seq<Seq<char>>
    decreases pairs.len(),
{
    if pairs.len() == 0 {
        Seq::empty()
    } else if seen_after_all(seen, pairs.drop_last()).contains(pairs.last().0) {
        forwarded(seen, pairs.drop_last())
    } else {
        forwarded(seen, pairs.drop_last()).push(pairs.last().1)
    }
}

/// The state after forwarding `pairs`, one after the other, if every batch
/// is written.
pub open spec fn after_forwards(start: PipelineView, seen: Set<Seq<char>>, pairs: Seq<Pair>)
    -> PipelineView
    decreases pairs.len(),
{
    if pairs.len() == 0 {
        start
    } else {
        after_forwards(start, seen, pairs.drop_last()).after_forward(
            seen_after_all(seen, pairs.drop_last()),
            pairs.last().0,
            pairs.last().1,
        )
    }
}

/// The instructions of forwarding `pairs`, one after the other.
pub open spec fn forwards_ops(start: PipelineView, seen: Set<Seq<char>>, pairs: Seq<Pair>) -> Seq<
    FileOpView,
>
    decreases pairs.len(),
{
    if pairs.len() == 0 {
        Seq::empty()
    } else {
        forwards_ops(start, seen, pairs.drop_last()) + after_forwards(
            start,
            seen,
            pairs.drop_last(),
        ).forward_ops(seen_after_all(seen, pairs.drop_last()), pairs.last().0, pairs.last().1)
    }
}

/// The pair of one name of a record: the name as the key, with the URL of
/// its search page; none where the record lacks the name.
pub open spec fn name_pairs(base_url: Seq<char>, name: Option<Seq<char>>, japanese: bool) -> Seq<
    Pair,
> {
    match name {
        Some(keyword) => seq![
            (keyword, page_location(base_url, search_query(keyword, japanese))),
        ],
        None => Seq::empty(),
    }
}

/// The pairs that a record stands for: none for a record of another item
/// type, else that of its name, then that of its Japanese name.
pub open spec fn record_pairs(base_url: Seq<char>, record: RecordView) -> Seq<Pair> {
    if record.item_type == LISTED_ITEM_TYPE {
        name_pairs(base_url, record.name, false) + name_pairs(
            base_url,
            record.name_japanese,
            true,
        )
    } else {
        Seq::empty()
    }
}

/// Forwarding one pair is one `forward`.
proof fn lemma_forwards_one(start: PipelineView, seen: Set<Seq<char>>, pair: Pair)
    ensures
        after_forwards(start, seen, seq![pair]) == start.after_forward(seen, pair.0, pair.1),
        forwards_ops(start, seen, seq![pair]) == start.forward_ops(seen, pair.0, pair.1),
        seen_after_all(seen, seq![pair]) == seen.insert(pair.0),
{
    let one = seq![pair];
    let none = one.drop_last();
    assert(none =~= Seq::<Pair>::empty());
    assert(after_forwards(start, seen, none) == start);
    assert(seen_after_all(seen, none) == seen);
    assert(forwards_ops(start, seen, none) =~= Seq::<FileOpView>::empty());
    assert(forwards_ops(start, seen, one) =~= start.forward_ops(seen, pair.0, pair.1));
}

/// Forwarding two runs of pairs, one after the other, is forwarding the
/// pairs of both in one run.
proof fn lemma_forwards_concat(
    start: PipelineView,
    seen: Set<Seq<char>>,
    a: Seq<Pair>,
    b: Seq<Pair>,
)
    ensures
        seen_after_all(seen, a + b) == seen_after_all(seen_after_all(seen, a), b),
        after_forwards(start, seen, a + b) == after_forwards(
            after_forwards(start, seen, a),
            seen_after_all(seen, a),
            b,
        ),
        forwards_ops(start, seen, a + b) == forwards_ops(start, seen, a) + forwards_ops(
            after_forwards(start, seen, a),
            seen_after_all(seen, a),
            b,
        ),
    decreases b.len(),
{
    if b.len() == 0 {
        assert(a + b =~= a);
        assert(forwards_ops(start, seen, a + b) =~= forwards_ops(start, seen, a)
            + Seq::<FileOpView>::empty());
    } else {
        assert((a + b).drop_last() =~= a + b.drop_last());
        assert((a + b).last() == b.last());
        lemma_forwards_concat(start, seen, a, b.drop_last());
        let middle = after_forwards(start, seen, a);
        let seen_middle = seen_after_all(seen, a);
        assert(forwards_ops(start, seen, a + b) =~= forwards_ops(start, seen, a) + forwards_ops(
            middle,
            seen_middle,
            b,
        ));
    }
}

/// Processing a record is forwarding the pairs that it stands for: the
/// state after it, the keys seen after it and its instructions are those of
/// forwarding its pairs one after the other.
pub proof fn law_record_is_its_pairs(start: PipelineView, seen: Set<Seq<char>>, record: RecordView)
    ensures
        ({
            let pairs = record_pairs(start.base_url, record);
            &&& start.after_record(seen, record) == after_forwards(start, seen, pairs)
            &&& seen_after_record(seen, record) == seen_after_all(seen, pairs)
            &&& start.record_ops(seen, record) == forwards_ops(start, seen, pairs)
        }),
{
    let base = start.base_url;
    let first = name_pairs(base, record.name, false);
    let second = name_pairs(base, record.name_japanese, true);
    if record.item_type == LISTED_ITEM_TYPE {
        lemma_forwards_concat(start, seen, first, second);
        let middle = start.after_name(seen, record.name, false);
        let seen_middle = seen_after_name(seen, record.name);
        if record.name is Some {
            lemma_forwards_one(start, seen, first[0]);
            assert(first =~= seq![first[0]]);
        }
        assert(middle.base_url == base);
        if record.name_japanese is Some {
            lemma_forwards_one(middle, seen_middle, second[0]);
            assert(second =~= seq![second[0]]);
        } else {
            assert(start.record_ops(seen, record) =~= forwards_ops(start, seen, first)
                + Seq::<FileOpView>::empty());
        }
    }
}

/// A key is seen after a run if it was seen before or came in the run.
pub proof fn lemma_seen_after_all(seen: Set<Seq<char>>, pairs: Seq<Pair>, key: Seq<char>)
    ensures
        seen_after_all(seen, pairs).contains(key) <==> seen.contains(key) || exists|i: int|
            0 <= i < pairs.len() && (#[trigger] pairs[i]).0 == key,
    decreases pairs.len(),
{
    if pairs.len() > 0 {
        let before = pairs.drop_last();
        lemma_seen_after_all(seen, before, key);
        if seen_after_all(seen, pairs).contains(key) && !seen.contains(key) {
            if pairs.last().0 == key {
                assert(pairs[pairs.len() - 1].0 == key);
            } else {
                let i = choose|i: int| 0 <= i < before.len() && (#[trigger] before[i]).0 == key;
                assert(pairs[i].0 == key);
            }
        }
        if exists|i: int| 0 <= i < pairs.len() && (#[trigger] pairs[i]).0 == key {
            let i = choose|i: int| 0 <= i < pairs.len() && (#[trigger] pairs[i]).0 == key;
            if i < before.len() {
                assert(before[i].0 == key);
            }
        }
    }
}

/// Each distinct key that was not seen before has exactly one URL
/// forwarded, however often it comes: the number of URLs forwarded is the
/// number of keys by which the set of seen keys grows.
pub proof fn law_one_url_per_new_key(seen: Set<Seq<char>>, pairs: Seq<Pair>)
    requires
        seen.finite(),
    ensures
        seen_after_all(seen, pairs).finite(),
        seen_after_all(seen, pairs).len() == seen.len() + forwarded(seen, pairs).len(),
    decreases pairs.len(),
{
    if pairs.len() > 0 {
        law_one_url_per_new_key(seen, pairs.drop_last());
    }
}

/// The URL of a pair is forwarded when the pair comes if and only if its
/// key was not seen before the run and comes for the first time.
pub proof fn law_first_coming_is_forwarded(seen: Set<Seq<char>>, pairs: Seq<Pair>)
    requires
        pairs.len() > 0,
    ensures
        forwarded(seen, pairs) == if seen.contains(pairs.last().0) || exists|i: int|
            0 <= i < pairs.len() - 1 && (#[trigger] pairs[i]).0 == pairs.last().0 {
            forwarded(seen, pairs.drop_last())
        } else {
            forwarded(seen, pairs.drop_last()).push(pairs.last().1)
        },
{
    let before = pairs.drop_last();
    let key = pairs.last().0;
    lemma_seen_after_all(seen, before, key);
    if exists|i: int| 0 <= i < pairs.len() - 1 && (#[trigger] pairs[i]).0 == key {
        let i = choose|i: int| 0 <= i < pairs.len() - 1 && (#[trigger] pairs[i]).0 == key;
        assert(before[i].0 == key);
    }
    if exists|i: int| 0 <= i < before.len() && (#[trigger] before[i]).0 == key {
        let i = choose|i: int| 0 <= i < before.len() && (#[trigger] before[i]).0 == key;
        assert(pairs[i].0 == key);
    }
}

/// Where no key was seen and no key comes twice, every URL is forwarded.
pub proof fn law_distinct_keys_all_forwarded(pairs: Seq<Pair>)
    requires
        forall|i: int, j: int|
            0 <= i < j < pairs.len() ==> (#[trigger] pairs[i]).0 != (#[trigger] pairs[j]).0,
    ensures
        forwarded(Set::empty(), pairs) == pairs.map_values(|pair: Pair| pair.1),
    decreases pairs.len(),
{
    let urls = pairs.map_values(|pair: Pair| pair.1);
    if pairs.len() == 0 {
        assert(forwarded(Set::empty(), pairs) =~= urls);
    } else {
        let before = pairs.drop_last();
        assert forall|i: int, j: int| 0 <= i < j < before.len() implies (#[trigger] before[i]).0
            != (#[trigger] before[j]).0 by {
            assert(before[i] == pairs[i] && before[j] == pairs[j]);
        }
        law_distinct_keys_all_forwarded(before);
        law_first_coming_is_forwarded(Set::empty(), pairs);
        assert(before.map_values(|pair: Pair| pair.1).push(pairs.last().1) =~= urls);
        if exists|i: int| 0 <= i < pairs.len() - 1 && (#[trigger] pairs[i]).0 == pairs.last().0 {
            let i = choose|i: int|
                0 <= i < pairs.len() - 1 && (#[trigger] pairs[i]).0 == pairs.last().0;
            assert(pairs[i].0 != pairs[pairs.len() - 1].0);
        }
    }
}

/// Both sinks receive the forwarded URLs and nothing else: after a run of
/// the pipeline, the sitemap writer stands where as many writes bring it,
/// the accumulator where the pushes of the forwarded URLs bring it; what
/// the run creates and appends is what these writes create and append, and
/// what it stores is what these pushes store.
pub proof fn law_sinks_receive_forwarded(
    start: PipelineView,
    seen: Set<Seq<char>>,
    pairs: Seq<Pair>,
    file: Seq<char>,
)
    ensures
        ({
            let urls = forwarded(seen, pairs);
            let log = forwards_ops(start, seen, pairs);
            &&& after_forwards(start, seen, pairs) == (PipelineView {
                sitemap: after_writes(start.sitemap, urls.len()),
                batches: after_pushes(start.batches, urls),
                ..start
            })
            &&& created(log) == created(writes_ops(start.sitemap, urls))
            &&& appended(log, file) == appended(writes_ops(start.sitemap, urls), file)
            &&& stored(log) == stored(pushes_ops(start.batches, urls))
        }),
    decreases pairs.len(),
{
    let urls = forwarded(seen, pairs);
    let log = forwards_ops(start, seen, pairs);
    if pairs.len() == 0 {
        assert(log =~= writes_ops(start.sitemap, urls));
        assert(log =~= pushes_ops(start.batches, urls));
    } else {
        let before = pairs.drop_last();
        let old_urls = forwarded(seen, before);
        law_sinks_receive_forwarded(start, seen, before, file);
        let state = after_forwards(start, seen, before);
        let old_seen = seen_after_all(seen, before);
        let (key, url) = pairs.last();
        let old_log = forwards_ops(start, seen, before);
        let step = state.forward_ops(old_seen, key, url);
        lemma_created_concat(old_log, step);
        lemma_appended_concat(old_log, step, file);
        lemma_stored_concat(old_log, step);
        if old_seen.contains(key) {
            assert(log =~= old_log);
        } else {
            let written = state.sitemap.write_ops(url);
            let pushed = state.batches.push_ops(url);
            assert(urls.drop_last() =~= old_urls);
            assert(urls.last() == url);
            lemma_stored_none(written);
            lemma_only_stores(pushed, file);
            lemma_created_concat(written, pushed);
            lemma_appended_concat(written, pushed, file);
            lemma_stored_concat(written, pushed);
            lemma_created_concat(writes_ops(start.sitemap, old_urls), written);
            lemma_appended_concat(writes_ops(start.sitemap, old_urls), written, file);
            lemma_stored_concat(pushes_ops(start.batches, old_urls), pushed);
            assert(created(step) =~= created(written));
            assert(appended(step, file) =~= appended(written, file));
            assert(stored(step) =~= stored(pushed));
        }
    }
}

/// A run over `n` pairs whose keys are all different, with a sitemap
/// maximum of `max` that does not divide `n`: the run opens `n / max`
/// rounded up partitions, one where there is no pair at all, and the index
/// records exactly these partitions, in the order of their opening.
pub proof fn law_partitions_of_distinct_keys(
    max: nat,
    lastmod: Seq<char>,
    sitemap_base_url: Seq<char>,
    batches: RequestGeneratorView,
    page_base_url: Seq<char>,
    pairs: Seq<Pair>,
)
    requires
        max > 0,
        pairs.len() == 0 || pairs.len() % max != 0,
        forall|i: int, j: int|
            0 <= i < j < pairs.len() ==> (#[trigger] pairs[i]).0 != (#[trigger] pairs[j]).0,
    ensures
        ({
            let sitemap = GeneratorView::initial(max, lastmod, sitemap_base_url);
            let start = PipelineView { sitemap, batches, base_url: page_base_url };
            let log = sitemap.opening_ops() + forwards_ops(start, Set::empty(), pairs);
            let count = if pairs.len() == 0 {
                1
            } else {
                divided_rounding_up(pairs.len(), max)
            };
            &&& created(log) == seq![INDEX_NAME@] + partition_names(count)
            &&& appended(log, INDEX_NAME@) == seq![INDEX_HEAD@] + index_records(
                sitemap.index,
                count,
            )
        }),
{
    let sitemap = GeneratorView::initial(max, lastmod, sitemap_base_url);
    let start = PipelineView { sitemap, batches, base_url: page_base_url };
    let urls = pairs.map_values(|pair: Pair| pair.1);
    let run = forwards_ops(start, Set::empty(), pairs);
    law_distinct_keys_all_forwarded(pairs);
    law_sinks_receive_forwarded(start, Set::empty(), pairs, INDEX_NAME@);
    law_partitions_opened(max, lastmod, sitemap_base_url, urls);
    lemma_created_concat(sitemap.opening_ops(), run);
    lemma_created_concat(sitemap.opening_ops(), writes_ops(sitemap, urls));
    lemma_appended_concat(sitemap.opening_ops(), run, INDEX_NAME@);
    lemma_appended_concat(sitemap.opening_ops(), writes_ops(sitemap, urls), INDEX_NAME@);
}

} // verus!
