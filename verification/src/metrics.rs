//! Process-wide request and token counters.
//!
//! One `AppState` value stands for the cumulative totals of the whole process.
//! Each session contributes one request at its start and its final token count
//! at its end; the lemmas below show that after any number of sessions the
//! totals equal the number of sessions and the sum of their contributions.

use vstd::prelude::*;

verus! {

/// Cumulative process-wide counters, read by the stats endpoint.
pub struct AppState {
    pub total_tokens_processed: u64,
    pub request_count: u64,
}

impl AppState {
    /// A fresh process starts with both totals at zero.
    pub fn new() -> (s: AppState)
        ensures
            s.request_count == 0,
            s.total_tokens_processed == 0,
    {
        AppState { total_tokens_processed: 0, request_count: 0 }
    }

    /// Called once when a streaming request begins.
    pub fn record_request_start(&mut self)
        requires
            old(self).request_count < u64::MAX,
        ensures
            final(self).request_count == old(self).request_count + 1,
            final(self).total_tokens_processed == old(self).total_tokens_processed,
    {
        self.request_count = self.request_count + 1;
    }

    /// Called once when a session finishes, with that session's final
    /// output-token count.
    pub fn record_session_tokens(&mut self, tokens: u64)
        requires
            old(self).total_tokens_processed + tokens <= u64::MAX,
        ensures
            final(self).total_tokens_processed == old(self).total_tokens_processed + tokens,
            final(self).request_count == old(self).request_count,
    {
        self.total_tokens_processed = self.total_tokens_processed + tokens;
    }
}

/// The sum of the sessions' final token counts, as an unbounded integer.
pub open spec fn sum_tokens(counts: Seq<u64>) -> int
    decreases counts.len(),
{
    if counts.len() == 0 {
        0
    } else {
        counts[0] + sum_tokens(counts.drop_first())
    }
}

/// The cumulative totals after each listed session has recorded its one
/// request and, on finishing, its token count.
pub open spec fn totals_after(requests: int, tokens: int, counts: Seq<u64>) -> (int, int)
    decreases counts.len(),
{
    if counts.len() == 0 {
        (requests, tokens)
    } else {
        totals_after(requests + 1, tokens + counts[0], counts.drop_first())
    }
}

/// After any number of completed sessions, the request total equals the
/// number of sessions and the token total the sum of their contributions:
/// no update is lost.
pub proof fn lemma_metrics_totals(requests: int, tokens: int, counts: Seq<u64>)
    ensures
        totals_after(requests, tokens, counts).0 == requests + counts.len(),
        totals_after(requests, tokens, counts).1 == tokens + sum_tokens(counts),
    decreases counts.len(),
{
    if counts.len() > 0 {
        lemma_metrics_totals(requests + 1, tokens + counts[0], counts.drop_first());
    }
}

/// Removing one contribution takes exactly its value out of the sum.
proof fn lemma_sum_remove(counts: Seq<u64>, i: int)
    requires
        0 <= i < counts.len(),
    ensures
        sum_tokens(counts) == sum_tokens(counts.remove(i)) + counts[i],
    decreases i,
{
    if i == 0 {
        assert(counts.remove(0) =~= counts.drop_first());
    } else {
        lemma_sum_remove(counts.drop_first(), i - 1);
        assert(counts.remove(i).drop_first() =~= counts.drop_first().remove(i - 1));
        assert(counts.remove(i)[0] == counts[0]);
    }
}

/// The token total does not depend on the order in which the sessions
/// completed: any interleaving with the same contributions gives the same
/// sum.
pub proof fn lemma_sum_permutation(a: Seq<u64>, b: Seq<u64>)
    requires
        a.to_multiset() == b.to_multiset(),
    ensures
        sum_tokens(a) == sum_tokens(b),
    decreases a.len(),
{
    broadcast use vstd::seq_lib::group_to_multiset_ensures;

    if a.len() == 0 {
        assert(b.to_multiset().len() == 0);
    } else {
        let x = a[0];
        assert(a.to_multiset().count(x) > 0) by {
            assert(a.contains(x));
        }
        assert(b.contains(x));
        let j = choose|j: int| 0 <= j < b.len() && b[j] == x;
        assert(a.remove(0).to_multiset() =~= b.remove(j).to_multiset()) by {
            assert(a.remove(0).to_multiset() =~= a.to_multiset().remove(x));
            assert(b.remove(j).to_multiset() =~= b.to_multiset().remove(x));
        }
        lemma_sum_permutation(a.remove(0), b.remove(j));
        lemma_sum_remove(a, 0);
        lemma_sum_remove(b, j);
    }
}

} // verus!
