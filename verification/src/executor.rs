//! The apply executor's decisions: what is sent and what is held back on a
//! dry run, how a large bucket is cut into batches, and how the outcomes of
//! the units of work are gathered.
//!
//! The calls themselves are made by the caller, who runs the units of a
//! bucket on a pool of bounded width and hands the outcomes back.

use vstd::prelude::*;
use crate::queue::Queue;

verus! {

/// The number of event writes that may be under way at once.
pub const CONCURRENT_REQUESTS: usize = 3;

/// The number of writes to the access list that may be under way at once.
/// The remote service limits the rate of these when more than one is.
pub const CONCURRENT_REQUESTS_ACL: usize = 1;

/// A remote write, fully built, with the decision whether it is sent. On a
/// dry run a write is built, can be logged, and is not sent.
#[derive(Debug, Clone, PartialEq, Eq)]
pub struct Planned<C> {
    pub call: C,
    pub send: bool,
}

/// Plans a write: it is sent unless this is a dry run.
pub fn planned<C>(call: C, dry_run: bool) -> (r: Planned<C>)
    ensures
        r.call == call,
        r.send == !dry_run,
{
    Planned { call, send: !dry_run }
}

/// The number of writes of a plan that are sent.
pub open spec fn sent_count<C>(plan: Seq<Planned<C>>) -> nat
    decreases plan.len(),
{
    if plan.len() == 0 {
        0
    } else {
        sent_count(plan.drop_last()) + if plan.last().send {
            1nat
        } else {
            0nat
        }
    }
}

/// A plan none of whose writes is sent sends nothing.
pub proof fn lemma_nothing_sent<C>(plan: Seq<Planned<C>>)
    requires
        forall|i: int| 0 <= i < plan.len() ==> !(#[trigger] plan[i]).send,
    ensures
        sent_count(plan) == 0,
    decreases plan.len(),
{
    if plan.len() > 0 {
        assert forall|i: int| 0 <= i < plan.drop_last().len() implies !(#[trigger] plan.drop_last()[i]).send by {
            assert(plan.drop_last()[i] == plan[i]);
        }
        lemma_nothing_sent(plan.drop_last());
    }
}

/// The outcome of a planned write that is held back: success, with nothing
/// done.
pub fn outcome_unsent<E>() -> (r: Result<(), E>)
    ensures
        r is Ok,
{
    Ok(())
}

/// The errors among the outcomes, in their order.
pub open spec fn failures<E>(outcomes: Seq<Result<(), E>>) -> Seq<E>
    decreases outcomes.len(),
{
    if outcomes.len() == 0 {
        Seq::empty()
    } else {
        match outcomes.last() {
            Ok(_) => failures(outcomes.drop_last()),
            Err(e) => failures(outcomes.drop_last()).push(e),
        }
    }
}

/// Outcomes without a failure among them give no failures, and only they.
pub proof fn lemma_failures<E>(outcomes: Seq<Result<(), E>>)
    ensures
        failures(outcomes).len() <= outcomes.len(),
        failures(outcomes).len() == 0 <==> forall|i: int|
            0 <= i < outcomes.len() ==> (#[trigger] outcomes[i]) is Ok,
    decreases outcomes.len(),
{
    if outcomes.len() > 0 {
        let rest = outcomes.drop_last();
        lemma_failures(rest);
        if failures(outcomes).len() == 0 {
            assert forall|i: int| 0 <= i < outcomes.len() implies (#[trigger] outcomes[i]) is Ok by {
                if i < rest.len() {
                    assert(rest[i] == outcomes[i]);
                }
            }
        }
        if forall|i: int| 0 <= i < outcomes.len() ==> (#[trigger] outcomes[i]) is Ok {
            assert forall|i: int| 0 <= i < rest.len() implies (#[trigger] rest[i]) is Ok by {
                assert(rest[i] == outcomes[i]);
            }
            assert(outcomes[outcomes.len() - 1] is Ok);
        }
    }
}

/// Gathers the outcomes of the units of a bucket once all of them have
/// ended: success if every unit succeeded, else all the failures together,
/// in the order of the units. One unit's failure hides no other's.
pub fn collect_outcomes<E>(outcomes: Vec<Result<(), E>>) -> (r: Result<(), Vec<E>>)
    ensures
        r is Ok <==> failures(outcomes@).len() == 0,
        r matches Err(errors) ==> errors@ == failures(outcomes@),
{
    let ghost all = outcomes@;
    let mut queue = Queue::new(outcomes);
    let mut errors: Vec<E> = Vec::new();
    while queue.len() > 0
        invariant
            queue@.len() <= all.len(),
            queue@ == all.skip(all.len() - queue@.len()),
            errors@ == failures(all.take(all.len() - queue@.len())),
        decreases queue@.len(),
    {
        let ghost k = all.len() - queue@.len();
        assert(all.take(k + 1).drop_last() == all.take(k));
        assert(all.take(k + 1).last() == all[k]);
        assert(all.skip(k).skip(1) == all.skip(k + 1));
        match queue.next() {
            Some(Err(e)) => errors.push(e),
            Some(Ok(_)) => {},
            None => {},
        }
    }
    assert(all.take(all.len() as int) == all);
    if errors.len() == 0 {
        Ok(())
    } else {
        Err(errors)
    }
}

/// How many units of a bucket were attempted and how many succeeded.
#[derive(Debug, Clone, Copy, PartialEq, Eq, Structural)]
pub struct Tally {
    pub attempted: usize,
    pub succeeded: usize,
}

/// Counts the units of a bucket and those that succeeded.
pub fn tally<E>(outcomes: &Vec<Result<(), E>>) -> (r: Tally)
    ensures
        r.attempted == outcomes@.len(),
        r.succeeded == outcomes@.len() - failures(outcomes@).len(),
{
    let mut succeeded: usize = 0;
    let mut i: usize = 0;
    while i < outcomes.len()
        invariant
            i <= outcomes@.len(),
            succeeded == i - failures(outcomes@.take(i as int)).len(),
            failures(outcomes@.take(i as int)).len() <= i,
        decreases outcomes@.len() - i,
    {
        assert(outcomes@.take(i + 1).drop_last() == outcomes@.take(i as int));
        assert(outcomes@.take(i + 1).last() == outcomes@[i as int]);
        match &outcomes[i] {
            Ok(_) => {
                succeeded = succeeded + 1;
            },
            Err(_) => {},
        }
        i = i + 1;
    }
    assert(outcomes@.take(outcomes@.len() as int) == outcomes@);
    Tally { attempted: outcomes.len(), succeeded }
}

/// The pieces put back together, in order.
pub open spec fn joined<T>(pieces: Seq<Vec<T>>) -> Seq<T>
    decreases pieces.len(),
{
    if pieces.len() == 0 {
        Seq::empty()
    } else {
        joined(pieces.drop_last()) + pieces.last()@
    }
}

/// Cuts a bucket into batches of at most `size` records for the batch
/// endpoints of the remote service: every batch but the last is full, none
/// is empty, and together they are the bucket, in order.
pub fn chunks<T>(items: Vec<T>, size: usize) -> (r: Vec<Vec<T>>)
    requires
        size > 0,
    ensures
        joined(r@) == items@,
        forall|i: int| 0 <= i < r@.len() - 1 ==> (#[trigger] r@[i])@.len() == size,
        r@.len() > 0 ==> 0 < r@[r@.len() - 1]@.len() <= size,
        items@.len() == 0 <==> r@.len() == 0,
{
    let ghost all = items@;
    let mut queue = Queue::new(items);
    let mut out: Vec<Vec<T>> = Vec::new();
    let mut current: Vec<T> = Vec::new();
    while queue.len() > 0
        invariant
            size > 0,
            queue@.len() <= all.len(),
            queue@ == all.skip(all.len() - queue@.len()),
            joined(out@) + current@ == all.take(all.len() - queue@.len()),
            forall|i: int| 0 <= i < out@.len() ==> (#[trigger] out@[i])@.len() == size,
            current@.len() < size,
            out@.len() == 0 && current@.len() == 0 ==> queue@.len() == all.len(),
        decreases queue@.len(),
    {
        let ghost k = all.len() - queue@.len();
        let ghost done = all.take(k);
        assert(all.skip(k).skip(1) == all.skip(k + 1));
        match queue.next() {
            Some(x) => {
                assert(all.take(k + 1) =~= done.push(x));
                current.push(x);
                assert(joined(out@) + current@ =~= done.push(x));
                if current.len() == size {
                    let ghost pieces = out@;
                    let ghost full = current@;
                    out.push(current);
                    current = Vec::new();
                    assert(out@.drop_last() == pieces);
                    assert(joined(out@) == joined(pieces) + full);
                    assert(joined(out@) + current@ =~= joined(pieces) + full);
                }
            },
            None => {},
        }
    }
    assert(all.take(all.len() as int) =~= all);
    if current.len() > 0 {
        let ghost pieces = out@;
        let ghost rest = current@;
        out.push(current);
        assert(out@.drop_last() == pieces);
        assert(joined(out@) == joined(pieces) + rest);
    } else {
        assert(joined(out@) + current@ =~= joined(out@));
    }
    out
}

/// The list, last record first.
pub fn reversed<T>(items: Vec<T>) -> (r: Vec<T>)
    ensures
        r@ == items@.reverse(),
{
    let mut items = items;
    let ghost all = items@;
    let mut out: Vec<T> = Vec::new();
    while items.len() > 0
        invariant
            items@.len() + out@.len() == all.len(),
            items@ == all.take(items@.len() as int),
            out@ == all.reverse().take(all.len() - items@.len()),
        decreases items.len(),
    {
        let ghost n = items@.len();
        assert(items@.drop_last() == all.take(n - 1));
        match items.pop() {
            Some(x) => {
                out.push(x);
                assert(all.reverse().take(all.len() - n + 1) =~= all.reverse().take(all.len() - n).push(
                    x,
                ));
            },
            None => {},
        }
    }
    assert(all.reverse().take(all.len() as int) =~= all.reverse());
    out
}

/// A dry run is a run without effect: where no write of a plan is sent,
/// and each write that is held back counts as done, nothing is sent and no
/// unit fails, however many writes the plan holds.
pub proof fn lemma_dry_run_is_no_op<C, E>(plan: Seq<Planned<C>>, outcomes: Seq<Result<(), E>>)
    requires
        outcomes.len() == plan.len(),
        forall|i: int| 0 <= i < plan.len() ==> !(#[trigger] plan[i]).send,
        forall|i: int| 0 <= i < plan.len() && !plan[i].send ==> (#[trigger] outcomes[i]) is Ok,
    ensures
        sent_count(plan) == 0,
        failures(outcomes).len() == 0,
{
    lemma_nothing_sent(plan);
    lemma_failures(outcomes);
}

} // verus!
