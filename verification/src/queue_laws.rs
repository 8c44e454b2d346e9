//! Laws of the unbonding queue.

use crate::storage::StorageView;
use crate::types::{CoinView, Timestamp, UnbondingView};
use vstd::prelude::*;

verus! {

/// Whether the payouts of a queue are in the order of their times.
pub open spec fn sorted_by_payout(queue: Seq<UnbondingView>) -> bool {
    forall|i: int, j: int|
        0 <= i <= j < queue.len() ==> (#[trigger] queue[i]).payout_at.nanos <= (
        #[trigger] queue[j]).payout_at.nanos
}

/// The payouts counted as due are at the head of the queue and are due, and
/// the one after them, if there is one, is not.
pub proof fn lemma_due_count_splits(queue: Seq<UnbondingView>, now: Timestamp)
    ensures
        StorageView::due_count(queue, now) <= queue.len(),
        forall|i: int|
            0 <= i < StorageView::due_count(queue, now) ==> (#[trigger] queue[i]).payout_at.nanos
                <= now.nanos,
        StorageView::due_count(queue, now) < queue.len() ==> queue[StorageView::due_count(
            queue,
            now,
        ) as int].payout_at.nanos > now.nanos,
    decreases queue.len(),
{
    if queue.len() > 0 && queue[0].payout_at.nanos <= now.nanos {
        let rest = queue.drop_first();
        lemma_due_count_splits(rest, now);
        let n = StorageView::due_count(rest, now) as int;
        assert forall|i: int| 0 <= i < n + 1 implies (#[trigger] queue[i]).payout_at.nanos
            <= now.nanos by {
            if i > 0 {
                assert(queue[i] == rest[i - 1]);
            }
        }
        if n < rest.len() {
            assert(queue[n + 1] == rest[n]);
        }
    }
}

/// The processing of the queue at `now` pays a head of the queue, in the
/// order in which it was queued, every payout of it being due; it leaves the
/// rest of the queue as it was, and what is then at the head of the queue is
/// not due yet.
pub proof fn process_queue_pays_the_due_head_in_order(s: StorageView, now: Timestamp)
    ensures
        s.due_payouts(now) + s.process_queue(now).unbonding_queue == s.unbonding_queue,
        forall|i: int|
            0 <= i < s.due_payouts(now).len() ==> (#[trigger] s.due_payouts(
                now,
            )[i]).payout_at.nanos <= now.nanos,
        s.process_queue(now).unbonding_queue.len() > 0 ==> s.process_queue(
            now,
        ).unbonding_queue[0].payout_at.nanos > now.nanos,
{
    lemma_due_count_splits(s.unbonding_queue, now);
    let n = StorageView::due_count(s.unbonding_queue, now) as int;
    assert(s.due_payouts(now) + s.process_queue(now).unbonding_queue =~= s.unbonding_queue);
    assert forall|i: int| 0 <= i < s.due_payouts(now).len() implies (#[trigger] s.due_payouts(
        now,
    )[i]).payout_at.nanos <= now.nanos by {
        assert(s.due_payouts(now)[i] == s.unbonding_queue[i]);
    }
    if s.process_queue(now).unbonding_queue.len() > 0 {
        assert(s.process_queue(now).unbonding_queue[0] == s.unbonding_queue[n]);
    }
}

/// In a queue that is in the order of its payout times, the processing at
/// `now` pays every payout that is due: none of those that stay is.
pub proof fn process_queue_pays_all_that_is_due(s: StorageView, now: Timestamp)
    requires
        sorted_by_payout(s.unbonding_queue),
    ensures
        forall|i: int|
            0 <= i < s.process_queue(now).unbonding_queue.len() ==> (#[trigger] s.process_queue(
                now,
            ).unbonding_queue[i]).payout_at.nanos > now.nanos,
        sorted_by_payout(s.process_queue(now).unbonding_queue),
{
    lemma_due_count_splits(s.unbonding_queue, now);
    let n = StorageView::due_count(s.unbonding_queue, now) as int;
    let rest = s.process_queue(now).unbonding_queue;
    assert forall|i: int| 0 <= i < rest.len() implies (#[trigger] rest[i]).payout_at.nanos
        > now.nanos by {
        assert(rest[i] == s.unbonding_queue[n + i]);
        assert(s.unbonding_queue[n].payout_at.nanos <= s.unbonding_queue[n + i].payout_at.nanos);
    }
    assert forall|i: int, j: int| 0 <= i <= j < rest.len() implies (
    #[trigger] rest[i]).payout_at.nanos <= (#[trigger] rest[j]).payout_at.nanos by {
        assert(rest[i] == s.unbonding_queue[n + i]);
        assert(rest[j] == s.unbonding_queue[n + j]);
    }
}

/// Unbonding puts its payout at the end of the queue and leaves the payouts
/// before it alone. The queue stays in the order of its payout times where
/// the new payout is no earlier than the last one, as it is while the
/// unbonding time is fixed and the time of the calls does not go back.
pub proof fn undelegate_queues_at_the_end(
    s: StorageView,
    now: Timestamp,
    delegator: Seq<char>,
    validator: Seq<char>,
    amount: CoinView,
)
    requires
        s.undelegate(now, delegator, validator, amount) is Ok,
    ensures
        s.payout_time(now) is Some,
        s.undelegate(now, delegator, validator, amount)->Ok_0.unbonding_queue
            == s.unbonding_queue.push(
            UnbondingView {
                delegator,
                payout_at: s.payout_time(now)->Some_0,
                amount: amount.amount,
            },
        ),
        sorted_by_payout(s.unbonding_queue) && (s.unbonding_queue.len() > 0
            ==> s.unbonding_queue.last().payout_at.nanos <= s.payout_time(now)->Some_0.nanos)
            ==> sorted_by_payout(
            s.undelegate(now, delegator, validator, amount)->Ok_0.unbonding_queue,
        ),
{
    let next = s.undelegate(now, delegator, validator, amount)->Ok_0.unbonding_queue;
    let n = s.unbonding_queue.len() as int;
    if sorted_by_payout(s.unbonding_queue) && (s.unbonding_queue.len() > 0
        ==> s.unbonding_queue.last().payout_at.nanos <= s.payout_time(now)->Some_0.nanos) {
        assert forall|i: int, j: int| 0 <= i <= j < next.len() implies (
        #[trigger] next[i]).payout_at.nanos <= (#[trigger] next[j]).payout_at.nanos by {
            if j < n {
                assert(next[i] == s.unbonding_queue[i]);
                assert(next[j] == s.unbonding_queue[j]);
            } else if i < n {
                assert(next[i] == s.unbonding_queue[i]);
                assert(s.unbonding_queue[i].payout_at.nanos <= s.unbonding_queue[n
                    - 1].payout_at.nanos);
            }
        }
    }
}

} // verus!
