//! The multiplexer core: a batch of pending operations and the pull-based
//! `next` interface that yields each operation's terminal result exactly
//! once, in completion order.
use vstd::prelude::*;

verus! {

/// One independently-runnable unit of work.  `latency` is the number of
/// simulated time units until the operation completes; `outcome` is the
/// terminal result it completes with; `token` is an opaque identity used
/// only for diagnostics and tie-breaking, never for ordering guarantees.
pub struct Operation<T, E> {
    pub token: u64,
    pub latency: u64,
    pub outcome: Result<T, E>,
}

impl<T, E> Operation<T, E> {
    pub fn new(token: u64, latency: u64, outcome: Result<T, E>) -> (op: Operation<T, E>)
        ensures
            op.token == token,
            op.latency == latency,
            op.outcome == outcome,
    {
        Operation { token, latency, outcome }
    }
}

/// `a` completes strictly before `b`: earlier latency, with the opaque
/// token breaking ties between equal latencies.
pub open spec fn beats<T, E>(a: Operation<T, E>, b: Operation<T, E>) -> bool {
    a.latency < b.latency || (a.latency == b.latency && a.token < b.token)
}

/// `j` is the position of the operation that completes first among the
/// pending batch `s`: nothing beats it, and it strictly beats everything
/// pushed before it (so the position is unique even among duplicates).
pub open spec fn is_winner<T, E>(s: Seq<Operation<T, E>>, j: int) -> bool {
    &&& 0 <= j < s.len()
    &&& forall|i: int| 0 <= i < s.len() ==> !beats(#[trigger] s[i], s[j])
    &&& forall|i: int| 0 <= i < j ==> beats(s[j], #[trigger] s[i])
}

/// The position of the operation that completes first in `s`.
pub open spec fn winner_index<T, E>(s: Seq<Operation<T, E>>) -> int {
    choose|j: int| is_winner(s, j)
}

/// Every non-empty batch has a first completion.
pub proof fn lemma_winner_exists<T, E>(s: Seq<Operation<T, E>>)
    requires
        s.len() > 0,
    ensures
        exists|j: int| is_winner(s, j),
    decreases s.len(),
{
    if s.len() == 1 {
        assert(is_winner(s, 0));
    } else {
        let t = s.drop_first();
        lemma_winner_exists(t);
        let j0 = choose|j: int| is_winner(t, j);
        assert forall|i: int| 0 <= i < t.len() implies t[i] == s[i + 1] by {}
        let w = j0 + 1;
        if beats(s[w], s[0]) {
            assert forall|i: int| 0 <= i < s.len() implies !beats(#[trigger] s[i], s[w]) by {
                if i >= 1 {
                    assert(!beats(t[i - 1], t[j0]));
                }
            }
            assert forall|i: int| 0 <= i < w implies beats(s[w], #[trigger] s[i]) by {
                if i >= 1 {
                    assert(beats(t[j0], t[i - 1]));
                }
            }
            assert(is_winner(s, w));
        } else {
            assert forall|i: int| 0 <= i < s.len() implies !beats(#[trigger] s[i], s[0]) by {
                if i >= 1 {
                    assert(!beats(t[i - 1], t[j0]));
                }
            }
            assert(is_winner(s, 0));
        }
    }
}

/// The first completion's position is unique.
pub proof fn lemma_winner_unique<T, E>(s: Seq<Operation<T, E>>, j1: int, j2: int)
    requires
        is_winner(s, j1),
        is_winner(s, j2),
    ensures
        j1 == j2,
{
    if j1 < j2 {
        assert(beats(s[j2], s[j1]));
        assert(!beats(s[j2], s[j1]));
    }
    if j2 < j1 {
        assert(beats(s[j1], s[j2]));
        assert(!beats(s[j1], s[j2]));
    }
}

/// For a non-empty batch, `winner_index` is the one position satisfying
/// `is_winner`.
pub proof fn lemma_winner_props<T, E>(s: Seq<Operation<T, E>>)
    requires
        s.len() > 0,
    ensures
        is_winner(s, winner_index(s)),
        forall|j: int| is_winner(s, j) ==> j == winner_index(s),
{
    lemma_winner_exists(s);
    assert(is_winner(s, winner_index(s)));
    assert forall|j: int| is_winner(s, j) implies j == winner_index(s) by {
        lemma_winner_unique(s, j, winner_index(s));
    }
}

/// The unordered batch multiplexer: owns the set of pending operations and
/// yields each one's result exactly once, in completion order.  Viewed as
/// the sequence of pending operations, in submission order.
pub struct Multiplexer<T, E> {
    pending: Vec<Operation<T, E>>,
}

impl<T, E> View for Multiplexer<T, E> {
    type V = Seq<Operation<T, E>>;

    closed spec fn view(&self) -> Seq<Operation<T, E>> {
        self.pending@
    }
}

impl<T, E> Multiplexer<T, E> {
    /// An empty multiplexer: zero pending operations.
    pub fn new() -> (m: Multiplexer<T, E>)
        ensures
            m@ == Seq::<Operation<T, E>>::empty(),
    {
        Multiplexer { pending: Vec::new() }
    }

    /// How many operations are still pending.
    pub fn len(&self) -> (n: usize)
        ensures
            n == self@.len(),
    {
        self.pending.len()
    }

    /// Whether the batch is exhausted.
    pub fn is_empty(&self) -> (r: bool)
        ensures
            r <==> self@.len() == 0,
    {
        self.pending.is_empty()
    }

    /// Adds one operation to the batch; no ordering relationship with any
    /// other pushed operation is established.
    pub fn push(&mut self, op: Operation<T, E>)
        ensures
            final(self)@ == old(self)@.push(op),
    {
        self.pending.push(op);
    }

    /// Adds one operation whose latency is drawn at random from
    /// `[lo, hi)`; everything else about the new operation is fixed by the
    /// arguments, and the rest of the batch is untouched.
    pub fn push_random(&mut self, token: u64, lo: u64, hi: u64, outcome: Result<T, E>)
        requires
            lo < hi,
        ensures
            final(self)@.len() == old(self)@.len() + 1,
            final(self)@.drop_last() == old(self)@,
            final(self)@.last().token == token,
            final(self)@.last().outcome == outcome,
            lo <= final(self)@.last().latency < hi,
    {
        let latency = sample_latency(lo, hi);
        self.push(Operation { token, latency, outcome });
        proof {
            assert(self@.drop_last() =~= old(self)@);
        }
    }

    /// The position of the pending operation that completes first.
    fn winner_pos(&self) -> (j: usize)
        requires
            self@.len() > 0,
        ensures
            is_winner(self@, j as int),
    {
        let mut best: usize = 0;
        let mut i: usize = 1;
        while i < self.pending.len()
            invariant
                1 <= i <= self@.len(),
                best < i,
                forall|k: int| 0 <= k < i ==> !beats(#[trigger] self@[k], self@[best as int]),
                forall|k: int| 0 <= k < best ==> beats(self@[best as int], #[trigger] self@[k]),
            decreases self@.len() - i,
        {
            let cand_latency = self.pending[i].latency;
            let cand_token = self.pending[i].token;
            let best_latency = self.pending[best].latency;
            let best_token = self.pending[best].token;
            if cand_latency < best_latency || (cand_latency == best_latency && cand_token < best_token) {
                best = i;
            }
            i = i + 1;
        }
        best
    }

    /// Waits for the next completion.  Returns the terminal result of the
    /// pending operation that completes first and removes that operation
    /// from the batch; returns `None` if and only if the batch is empty,
    /// leaving it empty, so that exhaustion is a stable terminal state.
    pub fn next(&mut self) -> (r: Option<Result<T, E>>)
        ensures
            old(self)@.len() == 0 ==> (r is None && final(self)@ == old(self)@),
            old(self)@.len() > 0 ==> r == Some(old(self)@[winner_index(old(self)@)].outcome),
            old(self)@.len() > 0 ==> final(self)@ == old(self)@.remove(winner_index(old(self)@)),
            (r is None) <==> old(self)@.len() == 0,
    {
        if self.pending.len() == 0 {
            return None;
        }
        let j = self.winner_pos();
        proof {
            lemma_winner_props(self@);
        }
        let op = self.pending.remove(j);
        Some(op.outcome)
    }
}

/// Relies on rand's `Uniform::from` and `Distribution::sample`: the sample
/// is uniformly distributed in `[lo, hi)`, and `Uniform::from` panics when
/// `lo >= hi`.  Nothing is assumed beyond the result's range.
#[verifier::external_body]
fn sample_latency(lo: u64, hi: u64) -> (r: u64)
    requires
        lo < hi,
    ensures
        lo <= r < hi,
{
    let between = rand::distributions::Uniform::from(lo..hi);
    let mut rng = rand::thread_rng();
    rand::distributions::Distribution::sample(&between, &mut rng)
}

} // verus!
