//! What holds of plans, of whole runs and of the ledger, whatever the inputs.

use vstd::prelude::*;
use crate::error::{Direction, ErrorView};
use crate::ledger::{
    ledger_rows,
    lemma_remove_keeps_ledger,
    lemma_slot_for,
    lemma_with_applied_keeps_ledger,
    lemma_without_removes,
    slot_for,
    versions_of,
    with_applied,
    without,
    EntryView,
};
use crate::plan::{
    absent_from,
    after_call,
    after_calls,
    after_run,
    applied_by_position,
    applied_of,
    consistent,
    down_plan,
    lemma_filter_drops_all,
    lemma_filter_keeps_all,
    lemma_filter_keeps_distinct,
    lemma_listing_has_count,
    lemma_split_at_count,
    pending_of,
    plan_of,
    present_in,
    up_plan,
};
use crate::registry::well_formed;
use crate::run::{
    initial,
    lemma_plan_by_position,
    lemma_step_keeps_invariant,
    outcome_of,
    run_invariant,
    step_of,
    EventView,
    Phase,
    RunView,
};

verus! {

/// Applying everything twice applies nothing the second time: once a run
/// upwards without a limit has recorded its plan, the next such run has an
/// empty plan.
pub proof fn law_second_up_is_empty(registry: Seq<Seq<char>>, recorded: Seq<Seq<char>>)
    ensures
        up_plan(registry, after_run(Direction::Up, recorded, up_plan(registry, recorded, None)), None)
            == Seq::<Seq<char>>::empty(),
{
    let first = up_plan(registry, recorded, None);
    let pending = pending_of(registry, recorded);
    assert(first =~= pending);
    let then = recorded + first;
    assert forall|i: int| 0 <= i < registry.len() implies !absent_from(then)(#[trigger] registry[i]) by {
        if recorded.contains(registry[i]) {
            let j = choose|j: int| 0 <= j < recorded.len() && recorded[j] == registry[i];
            assert(then[j] == registry[i]);
        } else {
            assert(absent_from(recorded)(registry[i]));
            registry.lemma_filter_contains(absent_from(recorded), i);
            let j = choose|j: int| 0 <= j < pending.len() && pending[j] == registry[i];
            assert(then[recorded.len() + j] == registry[i]);
        }
    }
    lemma_filter_drops_all(registry, absent_from(then));
}

/// After a run upwards without a limit has recorded its plan on a consistent
/// ledger, the next run upwards is planned without complaint and has
/// nothing to do.
pub proof fn law_second_run_has_nothing_to_do(registry: Seq<Seq<char>>, recorded: Seq<Seq<char>>)
    requires
        well_formed(registry),
        consistent(registry, recorded),
    ensures
        plan_of(
            Direction::Up,
            registry,
            after_call(registry, recorded, Direction::Up, None),
            None,
        ) == Ok::<Seq<Seq<char>>, ErrorView>(Seq::empty()),
{
    let first = up_plan(registry, recorded, None);
    law_prefix_is_kept(Direction::Up, registry, recorded, None, first.len());
    assert(first.take(first.len() as int) =~= first);
    law_second_up_is_empty(registry, recorded);
}

/// The applied units are always the leading units of the registry: when a
/// run was planned on a consistent ledger, then after any number of its
/// units the ledger is consistent again, with one version more for each
/// unit applied and one fewer for each unit reverted. So the versions
/// recorded are exactly the first K units of the registry.
pub proof fn law_prefix_is_kept(
    direction: Direction,
    registry: Seq<Seq<char>>,
    recorded: Seq<Seq<char>>,
    limit: Option<u32>,
    done: nat,
)
    requires
        well_formed(registry),
        plan_of(direction, registry, recorded, limit) matches Ok(plan) && done <= plan.len(),
    ensures
        ({
            let plan = plan_of(direction, registry, recorded, limit)->Ok_0;
            let after = after_run(direction, recorded, plan.take(done as int));
            &&& consistent(registry, after)
            &&& after.len() == count_after(direction, recorded.len(), done)
        }),
{
    lemma_plan_by_position(direction, registry, recorded, limit);
    let plan = plan_of(direction, registry, recorded, limit)->Ok_0;
    let completed = plan.take(done as int);
    let count = recorded.len() as int;
    let head = registry.take(count);
    let after = after_run(direction, recorded, completed);
    assert forall|i: int| 0 <= i < count implies exists|p: int|
        0 <= p < count && registry[p] == #[trigger] recorded[i] by {
        assert(recorded.contains(recorded[i]));
        assert(head.contains(recorded[i]));
        let p = choose|p: int| 0 <= p < head.len() && head[p] == recorded[i];
        assert(registry[p] == recorded[i]);
    }
    match direction {
        Direction::Up => {
            let wider = registry.take(count + done);
            assert forall|a: int, b: int| 0 <= a < after.len() && 0 <= b < after.len() && a != b implies after[a]
                != after[b] by {
                lemma_place_of(registry, recorded, completed, count, a);
                lemma_place_of(registry, recorded, completed, count, b);
            }
            assert forall|name: Seq<char>|
                #![trigger after.contains(name)]
                #![trigger wider.contains(name)]
                after.contains(name) <==> wider.contains(name) by {
                if after.contains(name) {
                    let a = choose|a: int| 0 <= a < after.len() && after[a] == name;
                    lemma_place_of(registry, recorded, completed, count, a);
                    let p = choose|p: int|
                        0 <= p < count + done && registry[p] == after[a] && (a < count <==> p
                            < count);
                    assert(wider[p] == name);
                }
                if wider.contains(name) {
                    let p = choose|p: int| 0 <= p < wider.len() && wider[p] == name;
                    if p < count {
                        assert(head[p] == name);
                        assert(recorded.contains(name));
                        let i = choose|i: int| 0 <= i < recorded.len() && recorded[i] == name;
                        assert(after[i] == name);
                    } else {
                        assert(completed[p - count] == plan[p - count]);
                        assert(after[p] == name);
                    }
                }
            }
            lemma_listing_has_count(registry, after, count + done);
        },
        Direction::Down => {
            let narrower = registry.take(count - done);
            lemma_filter_keeps_distinct(recorded, absent_from(completed));
            assert forall|name: Seq<char>|
                #![trigger after.contains(name)]
                #![trigger narrower.contains(name)]
                after.contains(name) <==> narrower.contains(name) by {
                if after.contains(name) {
                    assert(recorded.contains(name) && !completed.contains(name));
                    assert(head.contains(name));
                    let p = choose|p: int| 0 <= p < head.len() && head[p] == name;
                    if p >= count - done {
                        assert(completed[count - 1 - p] == plan[count - 1 - p]);
                        assert(completed.contains(name));
                    }
                    assert(narrower[p] == name);
                }
                if narrower.contains(name) {
                    let p = choose|p: int| 0 <= p < narrower.len() && narrower[p] == name;
                    assert(head[p] == name);
                    assert(recorded.contains(name));
                    if completed.contains(name) {
                        let j = choose|j: int| 0 <= j < completed.len() && completed[j] == name;
                        assert(completed[j] == plan[j]);
                        assert(registry[count - 1 - j] == registry[p]);
                    }
                }
            }
            lemma_listing_has_count(registry, after, count - done);
        },
    }
}

/// Where an item of a consistent listing with the next units behind it
/// stands in the registry: an item of the listing stands among the first
/// `count` units, and the unit behind the listing at `a` stands at `a`.
proof fn lemma_place_of(
    registry: Seq<Seq<char>>,
    recorded: Seq<Seq<char>>,
    completed: Seq<Seq<char>>,
    count: int,
    a: int,
)
    requires
        registry.no_duplicates(),
        count == recorded.len(),
        count + completed.len() <= registry.len(),
        forall|i: int|
            0 <= i < count ==> exists|p: int| 0 <= p < count && registry[p] == #[trigger] recorded[i],
        forall|j: int| 0 <= j < completed.len() ==> #[trigger] completed[j] == registry[count + j],
        0 <= a < count + completed.len(),
    ensures
        exists|p: int|
            0 <= p < count + completed.len() && registry[p] == (recorded + completed)[a] && (a
                < count <==> p < count),
{
    if a < count {
        let p = choose|p: int| 0 <= p < count && registry[p] == recorded[a];
        assert(registry[p] == (recorded + completed)[a]);
    } else {
        assert(completed[a - count] == registry[a]);
        assert(registry[a] == (recorded + completed)[a]);
    }
}

/// After any sequence of calls, upwards or downwards and with any limits,
/// that starts on a consistent ledger, the ledger is consistent: the
/// versions recorded are exactly the first K units of the registry, for K
/// their number.
pub proof fn law_calls_keep_prefix(
    registry: Seq<Seq<char>>,
    recorded: Seq<Seq<char>>,
    calls: Seq<(Direction, Option<u32>)>,
)
    requires
        well_formed(registry),
        consistent(registry, recorded),
    ensures
        consistent(registry, after_calls(registry, recorded, calls)),
    decreases calls.len(),
{
    if calls.len() > 0 {
        let before = after_calls(registry, recorded, calls.drop_last());
        law_calls_keep_prefix(registry, recorded, calls.drop_last());
        let plan = plan_of(calls.last().0, registry, before, calls.last().1)->Ok_0;
        law_prefix_is_kept(calls.last().0, registry, before, calls.last().1, plan.len());
        assert(plan.take(plan.len() as int) =~= plan);
    }
}

/// The order in which the ledger lists its versions does not count: two
/// consistent listings of the same number of versions give the same plan.
pub proof fn law_plan_ignores_listing_order(
    direction: Direction,
    registry: Seq<Seq<char>>,
    one: Seq<Seq<char>>,
    other: Seq<Seq<char>>,
    limit: Option<u32>,
)
    requires
        well_formed(registry),
        consistent(registry, one),
        consistent(registry, other),
        one.len() == other.len(),
    ensures
        plan_of(direction, registry, one, limit) == plan_of(direction, registry, other, limit),
{
    lemma_plan_by_position(direction, registry, one, limit);
    lemma_plan_by_position(direction, registry, other, limit);
    let a = plan_of(direction, registry, one, limit)->Ok_0;
    let b = plan_of(direction, registry, other, limit)->Ok_0;
    assert(a =~= b);
}

/// A ledger that lists the leading units of the registry in registry order
/// is consistent, and its applied units in the order of the ledger are its
/// applied units by position.
pub proof fn law_listing_in_registry_order(registry: Seq<Seq<char>>, recorded: Seq<Seq<char>>)
    requires
        well_formed(registry),
        recorded.is_prefix_of(registry),
    ensures
        consistent(registry, recorded),
        applied_of(registry, recorded) == recorded,
        applied_by_position(registry, recorded) == recorded,
{
    let count = recorded.len() as int;
    assert(recorded =~= registry.take(count));
    assert(consistent(registry, recorded));
    lemma_split_at_count(registry, recorded);
    assert forall|i: int| 0 <= i < recorded.len() implies present_in(registry)(
        #[trigger] recorded[i],
    ) by {
        assert(registry[i] == recorded[i]);
    }
    lemma_filter_keeps_all(recorded, present_in(registry));
}

/// A limited run upwards takes the leading pending units, and the next run
/// without a limit takes exactly the rest: the two plans, one after the
/// other, are the pending units of the start.
pub proof fn law_limited_up_then_the_rest(
    registry: Seq<Seq<char>>,
    recorded: Seq<Seq<char>>,
    limit: u32,
)
    requires
        well_formed(registry),
        consistent(registry, recorded),
    ensures
        ({
            let pending = pending_of(registry, recorded);
            let taken: int = if limit < pending.len() {
                limit as int
            } else {
                pending.len() as int
            };
            let first = up_plan(registry, recorded, Some(limit));
            let rest = up_plan(registry, after_run(Direction::Up, recorded, first), None);
            &&& first == pending.take(taken)
            &&& rest == pending.skip(taken)
            &&& first + rest == pending
        }),
{
    let pending = pending_of(registry, recorded);
    let first = up_plan(registry, recorded, Some(limit));
    lemma_plan_by_position(Direction::Up, registry, recorded, Some(limit));
    law_prefix_is_kept(Direction::Up, registry, recorded, Some(limit), first.len());
    assert(first.take(first.len() as int) =~= first);
    let then = after_run(Direction::Up, recorded, first);
    lemma_plan_by_position(Direction::Up, registry, then, None);
    lemma_plan_by_position(Direction::Up, registry, recorded, None);
    let rest = up_plan(registry, then, None);
    let all = up_plan(registry, recorded, None);
    assert(all =~= pending);
    assert(rest =~= pending.skip(first.len() as int));
    assert(first + rest =~= pending);
}

/// A run downwards without a limit takes one unit, the applied unit that
/// stands last in the registry, and never more; it takes none only when none
/// is applied.
pub proof fn law_down_defaults_to_one(registry: Seq<Seq<char>>, recorded: Seq<Seq<char>>)
    ensures
        down_plan(registry, recorded, None) == if applied_by_position(registry, recorded).len()
            == 0 {
            Seq::<Seq<char>>::empty()
        } else {
            seq![applied_by_position(registry, recorded).last()]
        },
{
    let applied = applied_by_position(registry, recorded);
    assert(down_plan(registry, recorded, None) =~= if applied.len() == 0 {
        Seq::<Seq<char>>::empty()
    } else {
        seq![applied.last()]
    });
}

/// A limit of zero selects nothing, in either direction.
pub proof fn law_limit_zero_selects_nothing(registry: Seq<Seq<char>>, recorded: Seq<Seq<char>>)
    ensures
        up_plan(registry, recorded, Some(0)) == Seq::<Seq<char>>::empty(),
        down_plan(registry, recorded, Some(0)) == Seq::<Seq<char>>::empty(),
{
    assert(up_plan(registry, recorded, Some(0)) =~= Seq::<Seq<char>>::empty());
    assert(down_plan(registry, recorded, Some(0)) =~= Seq::<Seq<char>>::empty());
}

/// The state of a run after a sequence of events.
pub open spec fn run_through(run: RunView, events: Seq<EventView>) -> RunView
    decreases events.len(),
{
    if events.len() == 0 {
        run
    } else {
        step_of(run_through(run, events.drop_last()), events.last()).0
    }
}

/// The events with which a run opens when the ledger can be reached: the
/// table is installed, and the ledger lists `versions`.
pub open spec fn opening(versions: Seq<Seq<char>>) -> Seq<EventView> {
    seq![EventView::Installed, EventView::Listed { versions }]
}

/// The events of units that succeed one after the other, the first executed
/// at `times[0]`: each is executed, then recorded.
pub open spec fn successes(times: Seq<int>) -> Seq<EventView>
    decreases times.len(),
{
    if times.len() == 0 {
        Seq::empty()
    } else {
        successes(times.drop_last()) + seq![
            EventView::Executed { now: times.last() },
            EventView::Recorded,
        ]
    }
}

/// Going through two sequences of events in a row is going through both.
pub proof fn lemma_run_through_both(run: RunView, first: Seq<EventView>, second: Seq<EventView>)
    ensures
        run_through(run, first + second) == run_through(run_through(run, first), second),
    decreases second.len(),
{
    if second.len() == 0 {
        assert(first + second =~= first);
    } else {
        assert((first + second).drop_last() =~= first + second.drop_last());
        lemma_run_through_both(run, first, second.drop_last());
    }
}

/// Going through two events is taking two steps.
pub proof fn lemma_run_through_two(run: RunView, first: EventView, second: EventView)
    ensures
        run_through(run, seq![first, second]) == step_of(step_of(run, first).0, second).0,
{
    let both = seq![first, second];
    assert(both.drop_last() =~= seq![first]);
    assert(seq![first].drop_last() =~= Seq::<EventView>::empty());
    assert(run_through(run, Seq::<EventView>::empty()) == run);
    assert(run_through(run, seq![first]) == step_of(run, first).0);
}

/// Every state that a run reaches keeps the invariant of the run; so at
/// every moment the applied versions it knows are the leading units of the
/// registry.
pub proof fn law_every_state_keeps_prefix(run: RunView, events: Seq<EventView>)
    requires
        run_invariant(run),
    ensures
        run_invariant(run_through(run, events)),
        run_through(run, events).applied.is_prefix_of(run_through(run, events).registry),
    decreases events.len(),
{
    if events.len() > 0 {
        law_every_state_keeps_prefix(run, events.drop_last());
        lemma_step_keeps_invariant(run_through(run, events.drop_last()), events.last());
    }
}

/// While its units succeed, a run works through its plan in order: each
/// success counts one unit more as done, adds it to the applied versions
/// (upwards) or takes the last applied one away (downwards), and the run
/// finishes with the last unit of the plan.
pub proof fn lemma_units_in_turn(run: RunView, times: Seq<int>)
    requires
        run_invariant(run),
        run.phase == Phase::Executing,
        times.len() <= run.plan.len() - run.done,
    ensures
        ({
            let end = run_through(run, successes(times));
            &&& run_invariant(end)
            &&& end.registry == run.registry
            &&& end.direction == run.direction
            &&& end.limit == run.limit
            &&& end.plan == run.plan
            &&& end.failure is None
            &&& end.done == run.done + times.len()
            &&& end.phase == if end.done == run.plan.len() {
                Phase::Finished
            } else {
                Phase::Executing
            }
            &&& end.applied == match run.direction {
                Direction::Up => run.applied + run.plan.subrange(
                    run.done as int,
                    (run.done + times.len()) as int,
                ),
                Direction::Down => run.applied.take(run.applied.len() - times.len()),
            }
        }),
    decreases times.len(),
{
    if times.len() == 0 {
        assert(run.applied + run.plan.subrange(run.done as int, run.done as int) =~= run.applied);
        assert(run.applied.take(run.applied.len() as int) =~= run.applied);
    } else {
        let earlier = successes(times.drop_last());
        let executed = EventView::Executed { now: times.last() };
        lemma_units_in_turn(run, times.drop_last());
        let before = run_through(run, earlier);
        let between = step_of(before, executed).0;
        let end = step_of(between, EventView::Recorded).0;
        assert(run_through(run, successes(times)) == end) by {
            lemma_run_through_both(run, earlier, seq![executed, EventView::Recorded]);
            lemma_run_through_two(before, executed, EventView::Recorded);
        }
        lemma_step_keeps_invariant(before, executed);
        lemma_step_keeps_invariant(between, EventView::Recorded);
        let count = times.len() as int;
        match run.direction {
            Direction::Up => {
                assert(end.applied =~= run.applied + run.plan.subrange(
                    run.done as int,
                    run.done + count,
                ));
            },
            Direction::Down => {
                assert(end.applied =~= run.applied.take(run.applied.len() - count));
            },
        }
    }
}

/// The number of applied units after `done` units of a run that started
/// with `count` of them.
pub open spec fn count_after(direction: Direction, count: nat, done: nat) -> int {
    match direction {
        Direction::Up => (count + done) as int,
        Direction::Down => count - done,
    }
}

/// A run whose units all succeed returns its whole plan, in order, and
/// leaves the leading units of the registry applied, as many as the plan
/// says: the run goes from the start through the opening and one success
/// per planned unit to the end.
pub proof fn law_run_returns_its_plan(
    registry: Seq<Seq<char>>,
    direction: Direction,
    limit: Option<u32>,
    versions: Seq<Seq<char>>,
    times: Seq<int>,
)
    requires
        well_formed(registry),
        plan_of(direction, registry, versions, limit) matches Ok(plan) && times.len() == plan.len(),
    ensures
        ({
            let plan = plan_of(direction, registry, versions, limit)->Ok_0;
            let end = run_through(
                initial(registry, direction, limit),
                opening(versions) + successes(times),
            );
            &&& outcome_of(end) == Some(Ok::<Seq<Seq<char>>, ErrorView>(plan))
            &&& end.applied == registry.take(count_after(direction, versions.len(), plan.len()))
        }),
{
    let plan = plan_of(direction, registry, versions, limit)->Ok_0;
    let start = initial(registry, direction, limit);
    let opened = lemma_opening(registry, direction, limit, versions);
    lemma_run_through_both(start, opening(versions), successes(times));
    lemma_closed_form(direction, registry, versions, limit, plan.len());
    assert(plan.take(plan.len() as int) =~= plan);
    if plan.len() == 0 {
        assert(successes(times) =~= Seq::<EventView>::empty());
    } else {
        lemma_units_in_turn(opened, times);
    }
}

/// A failing unit stops the run where it stands: the run returns the name
/// of that unit and the number of units done before it, and the applied
/// units are those of the start and of the units done, no more and no
/// fewer.
pub proof fn law_failure_is_contained(
    registry: Seq<Seq<char>>,
    direction: Direction,
    limit: Option<u32>,
    versions: Seq<Seq<char>>,
    times: Seq<int>,
)
    requires
        well_formed(registry),
        plan_of(direction, registry, versions, limit) matches Ok(plan) && times.len() < plan.len(),
    ensures
        ({
            let plan = plan_of(direction, registry, versions, limit)->Ok_0;
            let end = run_through(
                initial(registry, direction, limit),
                opening(versions) + successes(times) + seq![EventView::ExecutionFailed],
            );
            &&& outcome_of(end) == Some(
                Err::<Seq<Seq<char>>, ErrorView>(
                    ErrorView::Execution {
                        name: plan[times.len() as int],
                        direction,
                        completed: times.len(),
                    },
                ),
            )
            &&& end.applied == registry.take(count_after(direction, versions.len(), times.len()))
        }),
{
    let plan = plan_of(direction, registry, versions, limit)->Ok_0;
    let start = initial(registry, direction, limit);
    let opened = lemma_opening(registry, direction, limit, versions);
    let events = opening(versions) + successes(times);
    lemma_run_through_both(start, opening(versions), successes(times));
    lemma_units_in_turn(opened, times);
    let before = run_through(opened, successes(times));
    assert((events + seq![EventView::ExecutionFailed]).drop_last() =~= events);
    assert(run_through(start, events + seq![EventView::ExecutionFailed]) == step_of(
        before,
        EventView::ExecutionFailed,
    ).0);
    lemma_closed_form(direction, registry, versions, limit, times.len());
}

/// A ledger that disagrees with the registry stops the run before any
/// unit: the run returns the inconsistency and nothing is executed.
pub proof fn law_inconsistent_ledger_stops_the_run(
    registry: Seq<Seq<char>>,
    direction: Direction,
    limit: Option<u32>,
    versions: Seq<Seq<char>>,
)
    requires
        !consistent(registry, versions),
    ensures
        ({
            let end = run_through(initial(registry, direction, limit), opening(versions));
            &&& outcome_of(end) == Some(
                Err::<Seq<Seq<char>>, ErrorView>(
                    plan_of(direction, registry, versions, limit)->Err_0,
                ),
            )
            &&& end.done == 0
            &&& end.plan.len() == 0
        }),
{
    let start = initial(registry, direction, limit);
    lemma_run_through_two(start, EventView::Installed, EventView::Listed { versions });
}

/// The state of a run after its opening on a consistent ledger: it has the
/// leading units of the registry for applied, as many as the ledger lists,
/// and is about to execute the first unit of its plan, or has finished
/// where the plan is empty.
proof fn lemma_opening(
    registry: Seq<Seq<char>>,
    direction: Direction,
    limit: Option<u32>,
    versions: Seq<Seq<char>>,
) -> (opened: RunView)
    requires
        well_formed(registry),
        plan_of(direction, registry, versions, limit) is Ok,
    ensures
        opened == run_through(initial(registry, direction, limit), opening(versions)),
        run_invariant(opened),
        opened.registry == registry,
        opened.direction == direction,
        opened.limit == limit,
        opened.applied == registry.take(versions.len() as int),
        opened.plan == plan_of(direction, registry, versions, limit)->Ok_0,
        opened.done == 0,
        opened.failure is None,
        opened.phase == if opened.plan.len() == 0 {
            Phase::Finished
        } else {
            Phase::Executing
        },
{
    let start = initial(registry, direction, limit);
    let events = opening(versions);
    lemma_run_through_two(start, EventView::Installed, EventView::Listed { versions });
    assert(start.applied =~= registry.subrange(0, 0));
    assert(run_invariant(start));
    law_every_state_keeps_prefix(start, events);
    run_through(start, events)
}

/// The leading units of the registry with the next units of a run upwards
/// behind them, or without the last units that a run downwards takes, are
/// again leading units of the registry.
proof fn lemma_closed_form(
    direction: Direction,
    registry: Seq<Seq<char>>,
    versions: Seq<Seq<char>>,
    limit: Option<u32>,
    done: nat,
)
    requires
        well_formed(registry),
        plan_of(direction, registry, versions, limit) matches Ok(plan) && done <= plan.len(),
    ensures
        ({
            let plan = plan_of(direction, registry, versions, limit)->Ok_0;
            let applied = registry.take(versions.len() as int);
            registry.take(count_after(direction, versions.len(), done)) == match direction {
                Direction::Up => applied + plan.subrange(0, done as int),
                Direction::Down => applied.take(applied.len() - done),
            }
        }),
{
    let plan = plan_of(direction, registry, versions, limit)->Ok_0;
    let applied = registry.take(versions.len() as int);
    lemma_plan_by_position(direction, registry, versions, limit);
    match direction {
        Direction::Up => {
            assert(registry.take((versions.len() + done) as int) =~= applied + plan.subrange(
                0,
                done as int,
            ));
        },
        Direction::Down => {
            assert(registry.take(versions.len() - done) =~= applied.take(applied.len() - done));
        },
    }
}

/// Deleting the row of a version undoes recording it: the ledger is, row
/// for row, what it was before.
pub proof fn law_revert_undoes_apply(rows: Seq<EntryView>, version: Seq<char>, applied_at: int)
    requires
        ledger_rows(rows),
        !versions_of(rows).contains(version),
    ensures
        without(with_applied(rows, version, applied_at), version) == rows,
{
    let after = with_applied(rows, version, applied_at);
    lemma_slot_for(rows, applied_at);
    lemma_with_applied_keeps_ledger(rows, version, applied_at);
    lemma_without_removes(after, version, slot_for(rows, applied_at));
    assert(after.remove(slot_for(rows, applied_at)) =~= rows);
}

/// The unit that a run takes next on a consistent ledger with `count`
/// versions: upwards the unit at place `count`, downwards the one before it.
pub open spec fn next_unit(direction: Direction, registry: Seq<Seq<char>>, count: nat) -> Seq<char> {
    match direction {
        Direction::Up => registry[count as int],
        Direction::Down => registry[count - 1],
    }
}

/// The ledger follows the run, whatever the clock reads. When the ledger is
/// consistent and the run's ledger write for its next unit is made, the
/// ledger is consistent again, with one version more (upwards) or one fewer
/// (downwards): wherever the new row goes among the others, the versions
/// recorded are again the leading units of the registry.
pub proof fn law_ledger_follows_the_run(
    direction: Direction,
    registry: Seq<Seq<char>>,
    rows: Seq<EntryView>,
    now: int,
)
    requires
        well_formed(registry),
        ledger_rows(rows),
        consistent(registry, versions_of(rows)),
        match direction {
            Direction::Up => rows.len() < registry.len(),
            Direction::Down => rows.len() > 0,
        },
    ensures
        ({
            let unit = next_unit(direction, registry, rows.len());
            let after = match direction {
                Direction::Up => with_applied(rows, unit, now),
                Direction::Down => without(rows, unit),
            };
            &&& versions_of(rows).contains(unit) == (direction == Direction::Down)
            &&& ledger_rows(after)
            &&& consistent(registry, versions_of(after))
            &&& after.len() == count_after(direction, rows.len(), 1)
        }),
{
    let versions = versions_of(rows);
    let count = rows.len() as int;
    let head = registry.take(count);
    let unit = next_unit(direction, registry, rows.len());
    match direction {
        Direction::Up => {
            let after = with_applied(rows, unit, now);
            let wider = registry.take(count + 1);
            assert(!versions.contains(unit)) by {
                if versions.contains(unit) {
                    assert(head.contains(unit));
                    let p = choose|p: int| 0 <= p < head.len() && head[p] == unit;
                    assert(registry[p] == registry[count]);
                }
            }
            lemma_slot_for(rows, now);
            lemma_with_applied_keeps_ledger(rows, unit, now);
            let slot = slot_for(rows, now);
            let listed = versions_of(after);
            assert forall|name: Seq<char>|
                #![trigger listed.contains(name)]
                #![trigger wider.contains(name)]
                listed.contains(name) <==> wider.contains(name) by {
                if listed.contains(name) {
                    let a = choose|a: int| 0 <= a < listed.len() && listed[a] == name;
                    if a == slot {
                        assert(wider[count] == name);
                    } else {
                        let i = if a < slot {
                            a
                        } else {
                            a - 1
                        };
                        assert(versions[i] == name);
                        assert(versions.contains(name));
                        assert(head.contains(name));
                        let p = choose|p: int| 0 <= p < head.len() && head[p] == name;
                        assert(wider[p] == name);
                    }
                }
                if wider.contains(name) {
                    let p = choose|p: int| 0 <= p < wider.len() && wider[p] == name;
                    if p == count {
                        assert(listed[slot] == name);
                    } else {
                        assert(head[p] == name);
                        assert(versions.contains(name));
                        let i = choose|i: int| 0 <= i < versions.len() && versions[i] == name;
                        let a = if i < slot {
                            i
                        } else {
                            i + 1
                        };
                        assert(listed[a] == name);
                    }
                }
            }
            lemma_listing_has_count(registry, listed, count + 1);
        },
        Direction::Down => {
            let narrower = registry.take(count - 1);
            assert(head[count - 1] == unit);
            assert(head.contains(unit));
            assert(versions.contains(unit));
            let place = choose|place: int| 0 <= place < versions.len() && versions[place] == unit;
            lemma_without_removes(rows, unit, place);
            lemma_remove_keeps_ledger(rows, place);
            let after = without(rows, unit);
            let listed = versions_of(after);
            assert forall|name: Seq<char>|
                #![trigger listed.contains(name)]
                #![trigger narrower.contains(name)]
                listed.contains(name) <==> narrower.contains(name) by {
                if listed.contains(name) {
                    let a = choose|a: int| 0 <= a < listed.len() && listed[a] == name;
                    let i = if a < place {
                        a
                    } else {
                        a + 1
                    };
                    assert(versions[i] == name);
                    assert(versions.contains(name));
                    assert(head.contains(name));
                    let p = choose|p: int| 0 <= p < head.len() && head[p] == name;
                    assert(narrower[p] == name);
                }
                if narrower.contains(name) {
                    let p = choose|p: int| 0 <= p < narrower.len() && narrower[p] == name;
                    assert(head[p] == name);
                    assert(versions.contains(name));
                    let i = choose|i: int| 0 <= i < versions.len() && versions[i] == name;
                    assert(registry[p] != registry[count - 1]);
                    let a = if i < place {
                        i
                    } else {
                        i - 1
                    };
                    assert(listed[a] == name);
                }
            }
            lemma_listing_has_count(registry, listed, count - 1);
        },
    }
}

/// Applying one unit and then reverting one unit changes nothing, whatever
/// the clock reads: the unit reverted is the unit that was applied, and the
/// ledger is, row for row, what it was before.
pub proof fn law_up_then_down_restores(registry: Seq<Seq<char>>, rows: Seq<EntryView>, now: int)
    requires
        well_formed(registry),
        ledger_rows(rows),
        consistent(registry, versions_of(rows)),
        rows.len() < registry.len(),
    ensures
        ({
            let unit = registry[rows.len() as int];
            let applied = with_applied(rows, unit, now);
            &&& plan_of(Direction::Up, registry, versions_of(rows), Some(1)) == Ok::<
                Seq<Seq<char>>,
                ErrorView,
            >(seq![unit])
            &&& plan_of(Direction::Down, registry, versions_of(applied), Some(1)) == Ok::<
                Seq<Seq<char>>,
                ErrorView,
            >(seq![unit])
            &&& without(applied, unit) == rows
        }),
{
    let versions = versions_of(rows);
    let unit = registry[rows.len() as int];
    let applied = with_applied(rows, unit, now);
    lemma_plan_by_position(Direction::Up, registry, versions, Some(1));
    let up = plan_of(Direction::Up, registry, versions, Some(1))->Ok_0;
    assert(up =~= seq![unit]);
    law_ledger_follows_the_run(Direction::Up, registry, rows, now);
    lemma_plan_by_position(Direction::Down, registry, versions_of(applied), Some(1));
    let down = plan_of(Direction::Down, registry, versions_of(applied), Some(1))->Ok_0;
    assert(down =~= seq![unit]);
    law_revert_undoes_apply(rows, unit, now);
}

/// The rows after the units of a run upwards were recorded one after the
/// other, the first at `times[0]`.
pub open spec fn recorded_in_turn(
    rows: Seq<EntryView>,
    units: Seq<Seq<char>>,
    times: Seq<int>,
) -> Seq<EntryView>
    decreases units.len(),
{
    if units.len() == 0 || times.len() == 0 {
        rows
    } else {
        with_applied(
            recorded_in_turn(rows, units.drop_last(), times.drop_last()),
            units.last(),
            times.last(),
        )
    }
}

/// A run upwards leaves the ledger consistent, whatever the clock read for
/// each of its units; and where the run had no limit, the next run upwards
/// is planned without complaint and has nothing to do.
pub proof fn law_second_up_finds_nothing(
    registry: Seq<Seq<char>>,
    rows: Seq<EntryView>,
    limit: Option<u32>,
    times: Seq<int>,
)
    requires
        well_formed(registry),
        ledger_rows(rows),
        plan_of(Direction::Up, registry, versions_of(rows), limit) matches Ok(plan) && times.len()
            == plan.len(),
    ensures
        ({
            let plan = plan_of(Direction::Up, registry, versions_of(rows), limit)->Ok_0;
            let after = recorded_in_turn(rows, plan, times);
            &&& ledger_rows(after)
            &&& consistent(registry, versions_of(after))
            &&& after.len() == rows.len() + plan.len()
            &&& limit is None ==> plan_of(Direction::Up, registry, versions_of(after), None) == Ok::<
                Seq<Seq<char>>,
                ErrorView,
            >(Seq::empty())
        }),
{
    let plan = plan_of(Direction::Up, registry, versions_of(rows), limit)->Ok_0;
    lemma_plan_by_position(Direction::Up, registry, versions_of(rows), limit);
    lemma_recorded_in_turn(registry, rows, plan, times);
    let after = recorded_in_turn(rows, plan, times);
    lemma_plan_by_position(Direction::Up, registry, versions_of(after), None);
    if limit is None {
        let next = plan_of(Direction::Up, registry, versions_of(after), None)->Ok_0;
        assert(next =~= Seq::<Seq<char>>::empty());
    }
}

/// Recording the next units of the registry one after the other keeps the
/// ledger consistent.
proof fn lemma_recorded_in_turn(
    registry: Seq<Seq<char>>,
    rows: Seq<EntryView>,
    units: Seq<Seq<char>>,
    times: Seq<int>,
)
    requires
        well_formed(registry),
        ledger_rows(rows),
        consistent(registry, versions_of(rows)),
        times.len() == units.len(),
        rows.len() + units.len() <= registry.len(),
        forall|i: int| 0 <= i < units.len() ==> #[trigger] units[i] == registry[rows.len() + i],
    ensures
        ledger_rows(recorded_in_turn(rows, units, times)),
        consistent(registry, versions_of(recorded_in_turn(rows, units, times))),
        recorded_in_turn(rows, units, times).len() == rows.len() + units.len(),
    decreases units.len(),
{
    if units.len() > 0 {
        let before = recorded_in_turn(rows, units.drop_last(), times.drop_last());
        assert forall|i: int| 0 <= i < units.drop_last().len() implies #[trigger] units.drop_last()[i]
            == registry[rows.len() + i] by {
            assert(units.drop_last()[i] == units[i]);
        }
        lemma_recorded_in_turn(registry, rows, units.drop_last(), times.drop_last());
        law_ledger_follows_the_run(Direction::Up, registry, before, times.last());
        assert(units.last() == units[units.len() - 1]);
    }
}

} // verus!
