//! A partition that was rotated away from is left alone: once it is closed,
//! no instruction of the run names it again.

use crate::output::{closed_files_rest, lemma_closed_files_rest_concat, FileOpView};
use crate::sitemap::generator::{
    lemma_partition_is_not_index, lemma_partition_names_distinct, partition_name, GeneratorView,
};
use crate::sitemap::indexer::INDEX_NAME;
use crate::sitemap::rotation::{after_writes, run_ops, session_ops};
use vstd::prelude::*;

verus! {

/// Whether `name` is the name of a partition with an index below `bound`.
pub open spec fn is_partition_below(name: Seq<char>, bound: nat) -> bool {
    exists|k: nat| k < bound && name == #[trigger] partition_name(k)
}

/// Whether every file that `ops` closes is a partition below `bound`.
pub open spec fn closes_only_below(ops: Seq<FileOpView>, bound: nat) -> bool {
    forall|i: int|
        0 <= i < ops.len() && (#[trigger] ops[i]) is Close ==> is_partition_below(
            ops[i].name(),
            bound,
        )
}

/// Whether every file that `ops` names is the index or a partition from
/// `bound` on.
pub open spec fn names_only_from(ops: Seq<FileOpView>, bound: nat) -> bool {
    forall|i: int|
        0 <= i < ops.len() ==> !is_partition_below((#[trigger] ops[i]).name(), bound)
}

/// The index and the partitions from `bound` on are no partitions below
/// `bound`.
proof fn lemma_not_below(bound: nat, k: nat)
    requires
        k >= bound,
    ensures
        !is_partition_below(partition_name(k), bound),
        !is_partition_below(INDEX_NAME@, bound),
{
    assert forall|j: nat| j < bound implies partition_name(k) != #[trigger] partition_name(j)
        && INDEX_NAME@ != partition_name(j) by {
        lemma_partition_is_not_index(j);
        if partition_name(k) == partition_name(j) {
            lemma_partition_names_distinct(k, j);
        }
    }
}

/// One `write` names the open partition, the next one and the index, and
/// no other file; it closes at most the open partition, and names it no
/// more after that.
proof fn lemma_write_closes(state: GeneratorView, url: Seq<char>)
    ensures
        names_only_from(state.write_ops(url), state.partition),
        closes_only_below(state.write_ops(url), state.partition + 1),
        closed_files_rest(state.write_ops(url)),
{
    let p = state.partition;
    let ops = state.write_ops(url);
    lemma_not_below(p, p);
    lemma_not_below(p, p + 1);
    lemma_partition_is_not_index(p);
    if partition_name(p) == partition_name(p + 1) {
        lemma_partition_names_distinct(p, p + 1);
    }
    assert forall|i: int| 0 <= i < ops.len() implies {
        let name = (#[trigger] ops[i]).name();
        &&& name == partition_name(p) || name == partition_name(p + 1) || name == INDEX_NAME@
        &&& ops[i] is Close ==> i == 3 && name == partition_name(p)
        &&& i > 3 ==> name != partition_name(p)
    } by {}
    assert(partition_name(p) == partition_name(p));
    assert forall|i: int| 0 <= i < ops.len() && (#[trigger] ops[i]) is Close implies
        is_partition_below(ops[i].name(), p + 1) by {
        assert(p < p + 1 && ops[i].name() == partition_name(p));
    }
}

/// What a run has closed at any time are partitions below the open one, and
/// it has named none of them since.
proof fn lemma_session_closes(start: GeneratorView, urls: Seq<Seq<char>>)
    requires
        start.partition == 0,
        start.count == 0,
    ensures
        closed_files_rest(session_ops(start, urls)),
        closes_only_below(session_ops(start, urls), after_writes(start, urls.len()).partition),
    decreases urls.len(),
{
    let log = session_ops(start, urls);
    if urls.len() == 0 {
        let ops = start.opening_ops();
        assert(log =~= ops);
        assert forall|i: int| 0 <= i < ops.len() implies !((#[trigger] ops[i]) is Close) by {}
    } else {
        let before = urls.drop_last();
        let old_log = session_ops(start, before);
        let state = after_writes(start, before.len());
        let step = state.write_ops(urls.last());
        lemma_session_closes(start, before);
        lemma_write_closes(state, urls.last());
        assert(log =~= old_log + step);
        lemma_closed_files_rest_concat(old_log, step);
        let next = after_writes(start, urls.len());
        assert(next.partition == state.partition || next.partition == state.partition + 1);
        assert(state.fills() ==> next.partition == state.partition + 1);
        assert forall|i: int| 0 <= i < log.len() && (#[trigger] log[i]) is Close implies
            is_partition_below(log[i].name(), next.partition) by {
            if i < old_log.len() {
                assert(log[i] == old_log[i]);
                let k = choose|k: nat|
                    k < state.partition && old_log[i].name() == #[trigger] partition_name(k);
                assert(k < next.partition);
            } else {
                assert(log[i] == step[i - old_log.len()]);
                assert(state.fills());
            }
        }
    }
}

/// In a whole run, from the opening to the finish, no instruction names a
/// partition after the instruction that closed it: what was rotated away
/// from stays as it was left.
pub proof fn law_closed_partitions_stay_closed(
    max: nat,
    lastmod: Seq<char>,
    base_url: Seq<char>,
    urls: Seq<Seq<char>>,
)
    ensures
        closed_files_rest(run_ops(GeneratorView::initial(max, lastmod, base_url), urls)),
{
    let start = GeneratorView::initial(max, lastmod, base_url);
    let state = after_writes(start, urls.len());
    let finish = state.finish_ops();
    lemma_session_closes(start, urls);
    lemma_not_below(state.partition, state.partition);
    assert forall|i: int| 0 <= i < finish.len() implies !((#[trigger] finish[i]) is Close)
        && !is_partition_below(finish[i].name(), state.partition) by {}
    lemma_closed_files_rest_concat(session_ops(start, urls), finish);
}

} // verus!
