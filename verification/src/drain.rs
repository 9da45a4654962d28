//! Aggregation over a draining batch: the canonical consumption pattern is
//! to pull `next` until exhaustion and fold each yielded result.  The three
//! folds offered here mirror the uniform drain-loop shapes: wait for all
//! results discarding them, sum the success values, and partition successes
//! from failures.  Each is specified against `drain_seq`, the full sequence
//! of results in completion order.
use vstd::prelude::*;

use crate::batch::Multiplexer;
use crate::batch::Operation;
use crate::batch::is_winner;
use crate::batch::lemma_winner_props;
use crate::batch::winner_index;

verus! {

/// The pending operations of `s` in completion order: the first completion,
/// then the drain of the rest.
pub open spec fn drain_ops<T, E>(s: Seq<Operation<T, E>>) -> Seq<Operation<T, E>>
    decreases s.len(),
{
    if s.len() == 0 {
        Seq::empty()
    } else {
        let w = winner_index(s);
        // The winner always lies in range (`lemma_winner_props`); the range
        // test only keeps the recursion well-founded, since a spec body
        // cannot invoke that lemma.
        if 0 <= w < s.len() {
            seq![s[w]] + drain_ops(s.remove(w))
        } else {
            Seq::empty()
        }
    }
}

/// The results that draining the batch `s` yields, in completion order.
pub open spec fn drain_seq<T, E>(s: Seq<Operation<T, E>>) -> Seq<Result<T, E>> {
    drain_ops(s).map_values(|op: Operation<T, E>| op.outcome)
}

/// What a result contributes to a success sum: its value if it is a
/// success, nothing if it is a failure.
pub open spec fn outcome_value<E>(r: Result<u32, E>) -> int {
    match r {
        Ok(v) => v as int,
        Err(_) => 0,
    }
}

/// The sum of the success values among the results `s`.
pub open spec fn ok_sum<E>(s: Seq<Result<u32, E>>) -> int
    decreases s.len(),
{
    if s.len() == 0 {
        0
    } else {
        outcome_value(s[0]) + ok_sum(s.drop_first())
    }
}

/// The failure values among the results `s`, in order.
pub open spec fn err_seq<T, E>(s: Seq<Result<T, E>>) -> Seq<E>
    decreases s.len(),
{
    if s.len() == 0 {
        Seq::empty()
    } else {
        match s[0] {
            Ok(_) => err_seq(s.drop_first()),
            Err(e) => seq![e] + err_seq(s.drop_first()),
        }
    }
}

/// Unfolds one completion off a non-empty batch.
pub proof fn lemma_drain_ops_unfold<T, E>(s: Seq<Operation<T, E>>)
    requires
        s.len() > 0,
    ensures
        drain_ops(s) == seq![s[winner_index(s)]] + drain_ops(s.remove(winner_index(s))),
{
    lemma_winner_props(s);
}

/// Draining yields one result per pending operation.
pub proof fn lemma_drain_ops_len<T, E>(s: Seq<Operation<T, E>>)
    ensures
        drain_ops(s).len() == s.len(),
    decreases s.len(),
{
    if s.len() > 0 {
        lemma_winner_props(s);
        lemma_drain_ops_len(s.remove(winner_index(s)));
    }
}

/// Unfolds one result off the drain of a non-empty batch.
pub proof fn lemma_drain_seq_unfold<T, E>(s: Seq<Operation<T, E>>)
    requires
        s.len() > 0,
    ensures
        drain_seq(s) == seq![s[winner_index(s)].outcome] + drain_seq(s.remove(winner_index(s))),
{
    lemma_drain_ops_unfold(s);
    assert(drain_seq(s) =~= seq![s[winner_index(s)].outcome] + drain_seq(s.remove(winner_index(s))));
}

/// One result per pending operation, stated of the result sequence.
pub proof fn lemma_drain_seq_len<T, E>(s: Seq<Operation<T, E>>)
    ensures
        drain_seq(s).len() == s.len(),
{
    lemma_drain_ops_len(s);
}

/// A success sum lies between zero and the largest value times the number
/// of results.
pub proof fn lemma_ok_sum_bounds<E>(s: Seq<Result<u32, E>>)
    ensures
        0 <= ok_sum(s) <= s.len() * 0xffff_ffff,
    decreases s.len(),
{
    if s.len() > 0 {
        lemma_ok_sum_bounds(s.drop_first());
    }
}

/// The success sum of a result followed by a tail.
pub proof fn lemma_ok_sum_cons<E>(r: Result<u32, E>, t: Seq<Result<u32, E>>)
    ensures
        ok_sum(seq![r] + t) == outcome_value(r) + ok_sum(t),
{
    let s = seq![r] + t;
    assert(s[0] == r);
    assert(s.drop_first() =~= t);
}

/// The failures of a result followed by a tail.
pub proof fn lemma_err_seq_cons<T, E>(r: Result<T, E>, t: Seq<Result<T, E>>)
    ensures
        err_seq(seq![r] + t) == (match r {
            Ok(_) => err_seq(t),
            Err(e) => seq![e] + err_seq(t),
        }),
{
    let s = seq![r] + t;
    assert(s[0] == r);
    assert(s.drop_first() =~= t);
}

/// Drains the whole batch, collecting every result in completion order.
pub fn drain_results<T, E>(m: &mut Multiplexer<T, E>) -> (out: Vec<Result<T, E>>)
    ensures
        out@ == drain_seq(old(m)@),
        final(m)@.len() == 0,
{
    let ghost s0 = m@;
    let mut out: Vec<Result<T, E>> = Vec::new();
    while m.len() != 0
        invariant
            drain_seq(s0) == out@ + drain_seq(m@),
        decreases m@.len(),
    {
        let ghost mb = m@;
        let r = m.next();
        proof {
            lemma_drain_seq_unfold(mb);
            lemma_winner_props(mb);
        }
        match r {
            Some(x) => {
                out.push(x);
            },
            None => {},
        }
        proof {
            assert(drain_seq(s0) =~= out@ + drain_seq(m@));
        }
    }
    proof {
        assert(drain_seq(s0) =~= out@);
    }
    out
}

/// Drains the whole batch, discarding every result; returns how many
/// results were yielded, one per pushed operation.
pub fn drain_count<T, E>(m: &mut Multiplexer<T, E>) -> (n: usize)
    ensures
        n == old(m)@.len(),
        final(m)@.len() == 0,
{
    let ghost s0 = m@;
    let total = m.len();
    let mut n: usize = 0;
    while m.len() != 0
        invariant
            n + m@.len() == s0.len(),
            total == s0.len(),
        decreases m@.len(),
    {
        let ghost mb = m@;
        let r = m.next();
        proof {
            lemma_winner_props(mb);
        }
        match r {
            Some(_) => {
                n = n + 1;
            },
            None => {},
        }
    }
    n
}

/// Drains the whole batch, summing the success values and discarding the
/// failures; applicable in particular when operations cannot fail.
pub fn drain_sum<E>(m: &mut Multiplexer<u32, E>) -> (sum: u64)
    requires
        old(m)@.len() <= 0x1_0000_0000,
    ensures
        sum == ok_sum(drain_seq(old(m)@)),
        final(m)@.len() == 0,
{
    let ghost s0 = m@;
    let mut sum: u64 = 0;
    proof {
        lemma_drain_seq_len(s0);
        lemma_ok_sum_bounds(drain_seq(s0));
    }
    while m.len() != 0
        invariant
            sum + ok_sum(drain_seq(m@)) == ok_sum(drain_seq(s0)),
            0 <= ok_sum(drain_seq(m@)),
        decreases m@.len(),
    {
        let ghost mb = m@;
        let r = m.next();
        proof {
            lemma_drain_seq_unfold(mb);
            lemma_winner_props(mb);
            lemma_ok_sum_cons(mb[winner_index(mb)].outcome, drain_seq(m@));
            lemma_ok_sum_bounds(drain_seq(m@));
        }
        match r {
            Some(x) => {
                match x {
                    Ok(v) => {
                        sum = sum + (v as u64);
                    },
                    Err(_) => {},
                }
            },
            None => {},
        }
    }
    sum
}

/// Drains the whole batch, summing the success values and collecting the
/// failure values in completion order.
pub fn drain_partition<E>(m: &mut Multiplexer<u32, E>) -> (r: (u64, Vec<E>))
    requires
        old(m)@.len() <= 0x1_0000_0000,
    ensures
        r.0 == ok_sum(drain_seq(old(m)@)),
        r.1@ == err_seq(drain_seq(old(m)@)),
        final(m)@.len() == 0,
{
    let ghost s0 = m@;
    let mut sum: u64 = 0;
    let mut errs: Vec<E> = Vec::new();
    proof {
        lemma_drain_seq_len(s0);
        lemma_ok_sum_bounds(drain_seq(s0));
    }
    while m.len() != 0
        invariant
            sum + ok_sum(drain_seq(m@)) == ok_sum(drain_seq(s0)),
            0 <= ok_sum(drain_seq(m@)),
            err_seq(drain_seq(s0)) == errs@ + err_seq(drain_seq(m@)),
        decreases m@.len(),
    {
        let ghost mb = m@;
        let r = m.next();
        proof {
            lemma_drain_seq_unfold(mb);
            lemma_winner_props(mb);
            lemma_ok_sum_cons(mb[winner_index(mb)].outcome, drain_seq(m@));
            lemma_err_seq_cons(mb[winner_index(mb)].outcome, drain_seq(m@));
            lemma_ok_sum_bounds(drain_seq(m@));
        }
        match r {
            Some(x) => {
                match x {
                    Ok(v) => {
                        sum = sum + (v as u64);
                    },
                    Err(e) => {
                        errs.push(e);
                    },
                }
            },
            None => {},
        }
        proof {
            assert(err_seq(drain_seq(s0)) =~= errs@ + err_seq(drain_seq(m@)));
        }
    }
    proof {
        assert(err_seq(drain_seq(s0)) =~= errs@);
    }
    (sum, errs)
}

/// The success value a demonstration operation completes with: ten times
/// its index.
pub fn value_for_index(i: u32) -> (v: u32)
    requires
        i * 10 <= 0xffff_ffff,
    ensures
        v == i * 10,
{
    i * 10
}

/// The terminal result of a demonstration operation that succeeds on even
/// indices with ten times its index and fails on odd indices with its own
/// index as the error tag.
pub fn outcome_for_index(i: u32) -> (r: Result<u32, u32>)
    requires
        i % 2 == 0 ==> i * 10 <= 0xffff_ffff,
    ensures
        i % 2 == 0 ==> r == Ok::<u32, u32>((i * 10) as u32),
        i % 2 != 0 ==> r == Err::<u32, u32>(i),
{
    if i % 2 == 0 {
        Ok(value_for_index(i))
    } else {
        Err(i)
    }
}

} // verus!
