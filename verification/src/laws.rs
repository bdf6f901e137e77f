//! Laws that relate the combinators to each other.

use crate::taskflow::{
    all_defined, chain, chain_slots, fan_out, first_success, joined, merge_into, ConcurrentTask,
    Error, IfTask, LoopTask, PromiseTask, SequenceTask, State, Task,
};
use vstd::prelude::*;

verus! {

/// Running one list of tasks after another is running the first list and,
/// where it succeeds, the second list on the state that the first produced.
pub proof fn chain_splits<T: State>(
    front: Seq<&dyn Task<T>>,
    back: Seq<&dyn Task<T>>,
    state: T,
)
    ensures
        chain(front + back, state) == match chain(front, state) {
            None => None,
            Some(Err(e)) => Some(Err(e)),
            Some(Ok(mid)) => chain(back, mid),
        },
    decreases front.len(),
{
    if front.len() == 0 {
        assert(front + back =~= back);
    } else {
        assert((front + back)[0] == front[0]);
        assert((front + back).drop_first() =~= front.drop_first() + back);
        match front[0].outcome(state) {
            Some(Ok(next)) => {
                chain_splits(front.drop_first(), back, next);
            },
            _ => {},
        }
    }
}

/// Sequencing is associative: a sequence gives the same result as the
/// sequence in which its leading tasks are replaced by one task that is
/// itself the sequence of them.
pub proof fn sequence_is_associative<T: State>(
    flat: SequenceTask<T>,
    nested: SequenceTask<T>,
    inner: SequenceTask<T>,
    state: T,
)
    requires
        nested.tasks@.len() >= 1,
        flat.tasks@ == inner.tasks@ + nested.tasks@.drop_first(),
        forall|s: T| (#[trigger] nested.tasks@[0].outcome(s)) == inner.outcome(s),
    ensures
        flat.outcome(state) == nested.outcome(state),
{
    chain_splits(inner.tasks@, nested.tasks@.drop_first(), state);
}

/// An alternation of `tasks` returns the result of the first of them that
/// succeeds: the one at `k`, where all before it fail.
pub proof fn or_returns_first_success<T: State>(tasks: Seq<&dyn Task<T>>, state: T, k: int)
    requires
        0 <= k < tasks.len(),
        forall|i: int| 0 <= i < k ==> (#[trigger] tasks[i].outcome(state) matches Some(Err(_))),
        tasks[k].outcome(state) matches Some(Ok(_)),
    ensures
        first_success(tasks, state) == tasks[k].outcome(state),
    decreases k,
{
    if k > 0 {
        assert(tasks[0].outcome(state) matches Some(Err(_)));
        let rest = tasks.drop_first();
        assert forall|i: int| 0 <= i < k - 1 implies (#[trigger] rest[i].outcome(state) matches Some(
            Err(_),
        )) by {
            assert(rest[i] == tasks[i + 1]);
        }
        assert(rest[k - 1] == tasks[k]);
        or_returns_first_success(rest, state, k - 1);
    }
}

/// An alternation of `tasks` that all fail fails with `NoResult`.
pub proof fn or_fails_when_all_fail<T: State>(tasks: Seq<&dyn Task<T>>, state: T)
    requires
        forall|i: int|
            0 <= i < tasks.len() ==> (#[trigger] tasks[i].outcome(state) matches Some(Err(_))),
    ensures
        first_success(tasks, state) == Some(Err::<T, Error>(Error::NoResult)),
    decreases tasks.len(),
{
    if tasks.len() > 0 {
        assert(tasks[0].outcome(state) matches Some(Err(_)));
        let rest = tasks.drop_first();
        assert forall|i: int| 0 <= i < rest.len() implies (#[trigger] rest[i].outcome(
            state,
        ) matches Some(Err(_))) by {
            assert(rest[i] == tasks[i + 1]);
        }
        or_fails_when_all_fail(rest, state);
    }
}

/// Where its condition holds, a branch is its first child.
pub proof fn if_true_is_then<T: State>(node: IfTask<T>, state: T)
    requires
        node.condition.verdict(state) == Some(Ok::<bool, Error>(true)),
    ensures
        node.outcome(state) == node.then_do.outcome(state),
{
}

/// Where its condition does not hold, a branch is its second child, and
/// fails with `NoResult` where it has none.
pub proof fn if_false_is_default<T: State>(node: IfTask<T>, state: T)
    requires
        node.condition.verdict(state) == Some(Ok::<bool, Error>(false)),
    ensures
        node.default_do matches Some(other) ==> node.outcome(state) == other.outcome(state),
        node.default_do.is_none() ==> node.outcome(state) == Some(
            Err::<T, Error>(Error::NoResult),
        ),
{
}

/// A loop whose condition does not hold returns its input.
pub proof fn loop_ends_on_false<T: State>(node: LoopTask<T>, state: T)
    requires
        node.condition.verdict(state) == Some(Ok::<bool, Error>(false)),
    ensures
        node.outcome(state) == Some(Ok::<T, Error>(state)),
{
    node.outcome_is_repeat(state, 0);
}

/// A loop whose condition holds, and whose body succeeds, is the loop on the
/// state that the body produced.
pub proof fn loop_unrolls<T: State>(node: LoopTask<T>, state: T, next: T)
    requires
        node.condition.verdict(state) == Some(Ok::<bool, Error>(true)),
        node.task.outcome(state) == Some(Ok::<T, Error>(next)),
    ensures
        node.outcome(state) == node.outcome(next),
{
    if node.halts(next) {
        let n = node.enough(next);
        assert(node.repeat(state, n + 1) == node.repeat(next, n));
        node.outcome_is_repeat(state, n + 1);
    } else if node.halts(state) {
        let n = node.enough(state);
        assert(n > 0);
        assert(node.repeat(next, (n - 1) as nat).is_some());
    }
}

/// A loop whose condition or body fails on its input fails in the same way.
pub proof fn loop_fails_with_its_children<T: State>(node: LoopTask<T>, state: T, e: Error)
    requires
        node.condition.verdict(state) == Some(Err::<bool, Error>(e)) || (node.condition.verdict(
            state,
        ) == Some(Ok::<bool, Error>(true)) && node.task.outcome(state) == Some(
            Err::<T, Error>(e),
        )),
    ensures
        node.outcome(state) == Some(Err::<T, Error>(e)),
{
    node.outcome_is_repeat(state, 1);
}

/// Merging into a state a list of results of which the one at `k` is the
/// first failure gives that failure.
pub proof fn merge_stops_at_first_failure<T: State>(
    acc: T,
    rest: Seq<Result<T, Error>>,
    k: int,
    e: Error,
)
    requires
        0 <= k < rest.len(),
        forall|i: int| 0 <= i < k ==> (#[trigger] rest[i]).is_ok(),
        rest[k] == Err::<T, Error>(e),
    ensures
        merge_into(acc, rest) == Err::<T, Error>(e),
    decreases k,
{
    if k > 0 {
        assert(rest[0].is_ok());
        let tail = rest.drop_first();
        assert forall|i: int| 0 <= i < k - 1 implies (#[trigger] tail[i]).is_ok() by {
            assert(tail[i] == rest[i + 1]);
        }
        assert(tail[k - 1] == rest[k]);
        merge_stops_at_first_failure(acc.merged(&rest[0].unwrap()), tail, k - 1, e);
    }
}

/// A fan-out fails with the failure of the first of its children, in the
/// order in which they were declared, that fails.
pub proof fn fan_out_fails_with_first_failure<T: State>(
    node: ConcurrentTask<T>,
    state: T,
    k: int,
    e: Error,
)
    requires
        all_defined(node.tasks@, state),
        0 <= k < node.tasks@.len(),
        forall|i: int| 0 <= i < k ==> (#[trigger] node.tasks@[i].outcome(state) matches Some(Ok(_))),
        node.tasks@[k].outcome(state) == Some(Err::<T, Error>(e)),
    ensures
        node.outcome(state) == Some(Err::<T, Error>(e)),
{
    let results = fan_out(node.tasks@, state);
    if k > 0 {
        assert(node.tasks@[0].outcome(state) matches Some(Ok(_)));
        let tail = results.drop_first();
        assert forall|i: int| 0 <= i < k - 1 implies (#[trigger] tail[i]).is_ok() by {
            assert(tail[i] == results[i + 1]);
            assert(node.tasks@[i + 1].outcome(state) matches Some(Ok(_)));
        }
        assert(tail[k - 1] == results[k]);
        merge_stops_at_first_failure(results[0].unwrap(), tail, k - 1, e);
    }
}

/// A fan-out without children returns its input.
pub proof fn fan_out_without_children<T: State>(node: ConcurrentTask<T>, state: T)
    requires
        node.tasks@.len() == 0,
    ensures
        node.outcome(state) == Some(Ok::<T, Error>(state)),
{
}

/// A fan-out of two children that succeed returns the state of the first
/// merged with the state of the second, whichever of them finished first.
pub proof fn fan_out_of_two<T: State>(node: ConcurrentTask<T>, state: T, first: T, second: T)
    requires
        node.tasks@.len() == 2,
        node.tasks@[0].outcome(state) == Some(Ok::<T, Error>(first)),
        node.tasks@[1].outcome(state) == Some(Ok::<T, Error>(second)),
    ensures
        node.outcome(state) == Some(Ok::<T, Error>(first.merged(&second))),
{
    let results = fan_out(node.tasks@, state);
    let tail = results.drop_first();
    assert(tail[0] == results[1]);
    assert(tail.drop_first().len() == 0);
    reveal_with_fuel(merge_into, 2);
    assert(joined(state, results) == Ok::<T, Error>(first.merged(&second)));
}

/// An empty slot changes nothing: the slots give the same result without it.
pub proof fn empty_slot_is_skipped<T: State>(slots: Seq<Option<&dyn Task<T>>>, k: int, state: T)
    requires
        0 <= k < slots.len(),
        slots[k].is_none(),
    ensures
        chain_slots(slots, state) == chain_slots(slots.remove(k), state),
    decreases k,
{
    if k == 0 {
        assert(slots.remove(0) =~= slots.drop_first());
    } else {
        assert(slots.remove(k)[0] == slots[0]);
        assert(slots.remove(k).drop_first() =~= slots.drop_first().remove(k - 1));
        match slots[0] {
            None => {
                empty_slot_is_skipped(slots.drop_first(), k - 1, state);
            },
            Some(task) => {
                match task.outcome(state) {
                    Some(Ok(next)) => {
                        empty_slot_is_skipped(slots.drop_first(), k - 1, next);
                    },
                    _ => {},
                }
            },
        }
    }
}

/// Slots that are all filled give the result of the sequence of the tasks in
/// them.
pub proof fn filled_slots_are_a_sequence<T: State>(
    slots: Seq<Option<&dyn Task<T>>>,
    tasks: Seq<&dyn Task<T>>,
    state: T,
)
    requires
        slots.len() == tasks.len(),
        forall|i: int| 0 <= i < slots.len() ==> (#[trigger] slots[i]) == Some(tasks[i]),
    ensures
        chain_slots(slots, state) == chain(tasks, state),
    decreases slots.len(),
{
    if slots.len() > 0 {
        assert(slots[0] == Some(tasks[0]));
        let rest = slots.drop_first();
        assert forall|i: int| 0 <= i < rest.len() implies (#[trigger] rest[i]) == Some(
            tasks.drop_first()[i],
        ) by {
            assert(rest[i] == slots[i + 1]);
        }
        match tasks[0].outcome(state) {
            Some(Ok(next)) => {
                filled_slots_are_a_sequence(rest, tasks.drop_first(), next);
            },
            _ => {},
        }
    }
}

/// A promise threads the state as a sequence does: with all its slots filled
/// it gives the result of its initial task followed by the sequence of the
/// tasks in its slots.
pub proof fn promise_is_init_then_sequence<T: State>(
    node: PromiseTask<T>,
    rest: SequenceTask<T>,
    state: T,
)
    requires
        node.other_tasks@.len() == rest.tasks@.len(),
        forall|i: int|
            0 <= i < rest.tasks@.len() ==> (#[trigger] node.other_tasks@[i]) == Some(
                rest.tasks@[i],
            ),
    ensures
        node.outcome(state) == match node.init_task.outcome(state) {
            None => None,
            Some(Err(e)) => Some(Err(e)),
            Some(Ok(seed)) => rest.outcome(seed),
        },
{
    match node.init_task.outcome(state) {
        Some(Ok(seed)) => {
            filled_slots_are_a_sequence(node.other_tasks@, rest.tasks@, seed);
        },
        _ => {},
    }
}

} // verus!
