//! Batch-wide laws of the multiplexer, stated over the drain model that the
//! executable functions' contracts use.
use vstd::prelude::*;

use vstd::multiset::Multiset;

use crate::batch::Operation;
use crate::batch::beats;
use crate::batch::is_winner;
use crate::batch::lemma_winner_props;
use crate::batch::winner_index;
use crate::drain::drain_ops;
use crate::drain::lemma_drain_ops_len;
use crate::drain::lemma_drain_ops_unfold;

verus! {

/// Exactly-once delivery: draining a batch of N operations yields exactly
/// N results, and the operations delivered are exactly the operations
/// pushed, each of them once.
pub proof fn lemma_exactly_once_delivery<T, E>(s: Seq<Operation<T, E>>)
    ensures
        drain_ops(s).len() == s.len(),
        drain_ops(s).to_multiset() == s.to_multiset(),
    decreases s.len(),
{
    broadcast use vstd::seq_lib::group_to_multiset_ensures;
    broadcast use vstd::multiset::group_multiset_axioms;

    lemma_drain_ops_len(s);
    if s.len() > 0 {
        lemma_winner_props(s);
        let w = winner_index(s);
        let rest = s.remove(w);
        lemma_exactly_once_delivery(rest);
        lemma_drain_ops_unfold(s);
        vstd::seq_lib::lemma_multiset_commutative(seq![s[w]], drain_ops(rest));
        assert(seq![s[w]] =~= Seq::<Operation<T, E>>::empty().push(s[w]));
        assert(Seq::<Operation<T, E>>::empty().to_multiset() =~= Multiset::<Operation<T, E>>::empty());
        assert(s.contains(s[w]));
        assert(s.to_multiset().count(s[w]) > 0);
        assert(drain_ops(s).to_multiset() =~= s.to_multiset());
    }
}

/// Completion order is a function of latency alone: the drain of any batch
/// is sorted by latency, never by submission order.
pub proof fn lemma_completion_order_by_latency<T, E>(s: Seq<Operation<T, E>>)
    ensures
        forall|p: int, q: int|
            0 <= p < q < drain_ops(s).len() ==> #[trigger] drain_ops(s)[p].latency
                <= #[trigger] drain_ops(s)[q].latency,
    decreases s.len(),
{
    broadcast use vstd::seq_lib::group_to_multiset_ensures;

    if s.len() > 0 {
        lemma_winner_props(s);
        let w = winner_index(s);
        let rest = s.remove(w);
        lemma_completion_order_by_latency(rest);
        lemma_exactly_once_delivery(rest);
        lemma_drain_ops_unfold(s);
        lemma_drain_ops_len(rest);
        assert forall|j: int| 0 <= j < rest.len() implies rest[j] == (if j < w {
            s[j]
        } else {
            s[j + 1]
        }) by {}
        let d = drain_ops(s);
        let dr = drain_ops(rest);
        assert forall|p: int| 0 <= p < dr.len() implies s[w].latency <= dr[p].latency by {
            assert(dr.contains(dr[p]));
            assert(dr.to_multiset().count(dr[p]) > 0);
            assert(rest.contains(dr[p]));
            let j = choose|j: int| 0 <= j < rest.len() && rest[j] == dr[p];
            if j < w {
                assert(!beats(s[j], s[w]));
            } else {
                assert(!beats(s[j + 1], s[w]));
            }
        }
        assert forall|p: int, q: int|
            0 <= p < q < d.len() implies #[trigger] d[p].latency <= #[trigger] d[q].latency by {
            if p == 0 {
                assert(d[q] == dr[q - 1]);
            } else {
                assert(d[p] == dr[p - 1]);
                assert(d[q] == dr[q - 1]);
            }
        }
    }
}

/// Order independence for a pair: whichever way round two operations with
/// distinct latencies are pushed, the one with the shorter latency is
/// yielded first.
pub proof fn lemma_order_independence<T, E>(a: Operation<T, E>, b: Operation<T, E>)
    requires
        a.latency < b.latency,
    ensures
        drain_ops(seq![a, b]) == seq![a, b],
        drain_ops(seq![b, a]) == seq![a, b],
{
    let empty = Seq::<Operation<T, E>>::empty();
    assert(is_winner(seq![b], 0));
    lemma_winner_props(seq![b]);
    lemma_drain_ops_unfold(seq![b]);
    assert(seq![b].remove(0) =~= empty);
    assert(drain_ops(seq![b]) =~= seq![b]);

    let s1 = seq![a, b];
    assert(is_winner(s1, 0));
    lemma_winner_props(s1);
    lemma_drain_ops_unfold(s1);
    assert(s1.remove(0) =~= seq![b]);
    assert(drain_ops(s1) =~= seq![a, b]);

    let s2 = seq![b, a];
    assert(is_winner(s2, 1));
    lemma_winner_props(s2);
    lemma_drain_ops_unfold(s2);
    assert(s2.remove(1) =~= seq![b]);
    assert(drain_ops(s2) =~= seq![a, b]);
}

/// Failure isolation: replacing one operation's outcome (say, by one that
/// always fails) while keeping its latency and token leaves every other
/// delivered result, and the whole completion order, unchanged; the drain
/// neither short-circuits nor reorders.
pub proof fn lemma_failure_isolation<T, E>(s: Seq<Operation<T, E>>, k: int, op2: Operation<T, E>)
    requires
        0 <= k < s.len(),
        op2.latency == s[k].latency,
        op2.token == s[k].token,
    ensures
        drain_ops(s.update(k, op2)).len() == s.len(),
        forall|p: int|
            0 <= p < s.len() ==> (#[trigger] drain_ops(s.update(k, op2))[p] == drain_ops(s)[p] || (
            drain_ops(s)[p] == s[k] && drain_ops(s.update(k, op2))[p] == op2)),
    decreases s.len(),
{
    let s2 = s.update(k, op2);
    lemma_winner_props(s);
    let w = winner_index(s);
    assert forall|i: int| 0 <= i < s2.len() implies !beats(#[trigger] s2[i], s2[w]) by {
        assert(s2[i].latency == s[i].latency && s2[i].token == s[i].token);
        assert(s2[w].latency == s[w].latency && s2[w].token == s[w].token);
        assert(!beats(s[i], s[w]));
    }
    assert forall|i: int| 0 <= i < w implies beats(s2[w], #[trigger] s2[i]) by {
        assert(s2[i].latency == s[i].latency && s2[i].token == s[i].token);
        assert(s2[w].latency == s[w].latency && s2[w].token == s[w].token);
        assert(beats(s[w], s[i]));
    }
    assert(is_winner(s2, w));
    lemma_winner_props(s2);
    assert(winner_index(s2) == w);
    lemma_drain_ops_unfold(s);
    lemma_drain_ops_unfold(s2);
    lemma_drain_ops_len(s);
    lemma_drain_ops_len(s2);
    let rest = s.remove(w);
    let rest2 = s2.remove(w);
    lemma_drain_ops_len(rest);
    lemma_drain_ops_len(rest2);
    assert forall|j: int| 0 <= j < rest.len() implies rest[j] == (if j < w {
        s[j]
    } else {
        s[j + 1]
    }) by {}
    assert forall|j: int| 0 <= j < rest2.len() implies rest2[j] == (if j < w {
        s2[j]
    } else {
        s2[j + 1]
    }) by {}
    if w == k {
        assert(rest2 =~= rest);
        assert forall|p: int|
            0 <= p < s.len() implies (#[trigger] drain_ops(s2)[p] == drain_ops(s)[p] || (drain_ops(
            s,
        )[p] == s[k] && drain_ops(s2)[p] == op2)) by {
            if p == 0 {
                assert(drain_ops(s)[0] == s[k]);
                assert(drain_ops(s2)[0] == op2);
            } else {
                assert(drain_ops(s)[p] == drain_ops(rest)[p - 1]);
                assert(drain_ops(s2)[p] == drain_ops(rest2)[p - 1]);
            }
        }
    } else {
        let k2: int = if w < k {
            k - 1
        } else {
            k
        };
        assert(rest[k2] == s[k]);
        assert(rest2 =~= rest.update(k2, op2));
        lemma_failure_isolation(rest, k2, op2);
        assert forall|p: int|
            0 <= p < s.len() implies (#[trigger] drain_ops(s2)[p] == drain_ops(s)[p] || (drain_ops(
            s,
        )[p] == s[k] && drain_ops(s2)[p] == op2)) by {
            if p == 0 {
                assert(drain_ops(s)[0] == s[w]);
                assert(drain_ops(s2)[0] == s2[w]);
                assert(s2[w] == s[w]);
            } else {
                assert(drain_ops(s)[p] == drain_ops(rest)[p - 1]);
                assert(drain_ops(s2)[p] == drain_ops(rest.update(k2, op2))[p - 1]);
            }
        }
    }
}

} // verus!
