//! How a stream of items is divided into numbered parts of bounded size.
//! Both sinks divide their input in this way, each with its own bound.

use vstd::arithmetic::div_mod::lemma_fundamental_div_mod_converse;
use vstd::prelude::*;

verus! {

/// `items` divided into parts of `cap` items: a part that receives its
/// `cap`-th item is followed by a new, empty one at once.
pub open spec fn chunks<A>(items: Seq<A>, cap: nat) -> Seq<Seq<A>>
    decreases items.len(),
{
    if items.len() == 0 {
        seq![Seq::empty()]
    } else {
        let before = chunks(items.drop_last(), cap);
        let filled = before.drop_last().push(before.last().push(items.last()));
        if before.last().len() + 1 >= cap {
            filled.push(Seq::empty())
        } else {
            filled
        }
    }
}

/// The shape of the division: every part but the last holds exactly `cap`
/// items, the last holds fewer; the parts, one after the other, hold the
/// items in the order in which they came, each once; and there are
/// `n / cap + 1` parts for `n` items.
pub proof fn lemma_chunks_shape<A>(items: Seq<A>, cap: nat)
    requires
        cap > 0,
    ensures
        chunks(items, cap).len() >= 1,
        forall|k: int| 0 <= k < chunks(items, cap).len() - 1 ==> (#[trigger] chunks(items, cap)[k]).len() == cap,
        chunks(items, cap).last().len() < cap,
        chunks(items, cap).flatten() == items,
        chunks(items, cap).len() == items.len() / cap + 1,
        chunks(items, cap).last().len() == items.len() % cap,
    decreases items.len(),
{
    lemma_chunks_total(items, cap);
    let ch = chunks(items, cap);
    lemma_fundamental_div_mod_converse(
        items.len() as int,
        cap as int,
        ch.len() - 1,
        ch.last().len() as int,
    );
}

/// The facts of [`lemma_chunks_shape`] before division comes in.
pub proof fn lemma_chunks_total<A>(items: Seq<A>, cap: nat)
    requires
        cap > 0,
    ensures
        chunks(items, cap).len() >= 1,
        forall|k: int| 0 <= k < chunks(items, cap).len() - 1 ==> (#[trigger] chunks(items, cap)[k]).len() == cap,
        chunks(items, cap).last().len() < cap,
        chunks(items, cap).flatten() == items,
        items.len() == (chunks(items, cap).len() - 1) * cap + chunks(items, cap).last().len(),
    decreases items.len(),
{
    let ch = chunks(items, cap);
    if items.len() == 0 {
        let only: Seq<Seq<A>> = seq![Seq::empty()];
        assert(only.flatten() =~= items) by {
            only.lemma_flatten_singleton();
        }
        assert((ch.len() - 1) * cap == 0) by (nonlinear_arith)
            requires
                ch.len() == 1,
        ;
    } else {
        let before = chunks(items.drop_last(), cap);
        lemma_chunks_total(items.drop_last(), cap);
        let front = before.drop_last();
        let grown = before.last().push(items.last());
        let filled = front.push(grown);
        assert(before =~= front.push(before.last()));
        assert(filled.flatten() =~= items) by {
            front.lemma_flatten_push(before.last());
            front.lemma_flatten_push(grown);
            assert(items =~= items.drop_last().push(items.last()));
        }
        assert forall|k: int| 0 <= k < filled.len() - 1 implies (#[trigger] filled[k]).len()
            == cap by {
            assert(filled[k] == before[k]);
        }
        let q = before.len() - 1;
        if before.last().len() + 1 >= cap {
            assert(ch =~= filled.push(Seq::empty()));
            assert(ch.flatten() =~= items) by {
                filled.lemma_flatten_push(Seq::empty());
            }
            assert forall|k: int| 0 <= k < ch.len() - 1 implies (#[trigger] ch[k]).len()
                == cap by {
                if k < filled.len() - 1 {
                    assert(ch[k] == filled[k]);
                } else {
                    assert(ch[k] == grown);
                }
            }
            assert((q + 1) * cap == q * cap + cap) by (nonlinear_arith);
        } else {
            assert(ch =~= filled);
        }
    }
}

/// Where the `k`-th part of the division starts.
pub open spec fn chunk_start(cap: nat, k: int) -> int {
    k * cap
}

/// Where the `k`-th part of the division of `n` items ends.
pub open spec fn chunk_end(n: nat, cap: nat, k: int) -> int {
    if (k + 1) * cap <= n {
        (k + 1) * cap
    } else {
        n as int
    }
}

/// Each part of the division is a run of consecutive items: the `k`-th
/// part starts at item `k * cap` and ends before item `(k + 1) * cap`, or
/// with the last item if there are fewer.
pub proof fn lemma_chunk_is_range<A>(items: Seq<A>, cap: nat, k: int)
    requires
        cap > 0,
        0 <= k < chunks(items, cap).len(),
    ensures
        0 <= chunk_start(cap, k) <= chunk_end(items.len(), cap, k) <= items.len(),
        chunks(items, cap)[k] == items.subrange(
            chunk_start(cap, k),
            chunk_end(items.len(), cap, k),
        ),
    decreases items.len(),
{
    let ch = chunks(items, cap);
    let n = items.len();
    lemma_chunks_total(items, cap);
    let last = ch.len() - 1;
    assert(k * cap <= last * cap && (k < last ==> (k + 1) * cap <= last * cap) && k * cap >= 0)
        by (nonlinear_arith)
        requires
            0 <= k <= last,
            cap > 0,
    ;
    assert((last + 1) * cap == last * cap + cap) by (nonlinear_arith);
    if items.len() == 0 {
        assert(ch[k] =~= items.subrange(chunk_start(cap, k), chunk_end(n, cap, k)));
    } else {
        let before = items.drop_last();
        let old_ch = chunks(before, cap);
        lemma_chunks_total(before, cap);
        let p = old_ch.len() - 1;
        assert((p + 1) * cap == p * cap + cap) by (nonlinear_arith);
        if k < p {
            lemma_chunk_is_range(before, cap, k);
            assert(k * cap <= p * cap && (k + 1) * cap <= p * cap) by (nonlinear_arith)
                requires
                    0 <= k < p,
                    cap > 0,
            ;
            assert(ch[k] == old_ch[k]);
            assert(ch[k] =~= items.subrange(chunk_start(cap, k), chunk_end(n, cap, k)));
        } else if k == p {
            lemma_chunk_is_range(before, cap, k);
            assert(ch[k] == old_ch.last().push(items.last()));
            assert(ch[k] =~= items.subrange(chunk_start(cap, k), chunk_end(n, cap, k)));
        } else {
            assert(ch[k] =~= Seq::<A>::empty());
            assert(ch[k] =~= items.subrange(chunk_start(cap, k), chunk_end(n, cap, k)));
        }
    }
}

} // verus!
