//! Which units are pending, which are applied, and which of them a run takes.

use vstd::prelude::*;
use crate::error::{ConsistencyFault, Direction, ErrorView, MigrationError};
use crate::names::{contains_name, names_of, position_of};
use crate::registry::Registry;

verus! {

/// The test "does not occur in `list`".
pub open spec fn absent_from(list: Seq<Seq<char>>) -> spec_fn(Seq<char>) -> bool {
    |name: Seq<char>| !list.contains(name)
}

/// The test "occurs in `list`".
pub open spec fn present_in(list: Seq<Seq<char>>) -> spec_fn(Seq<char>) -> bool {
    |name: Seq<char>| list.contains(name)
}

/// The pending units: the registry without the recorded versions, in registry order.
pub open spec fn pending_of(registry: Seq<Seq<char>>, recorded: Seq<Seq<char>>) -> Seq<Seq<char>> {
    registry.filter(absent_from(recorded))
}

/// The applied units: the recorded versions that the registry knows, in the
/// order in which the ledger lists them.
pub open spec fn applied_of(registry: Seq<Seq<char>>, recorded: Seq<Seq<char>>) -> Seq<Seq<char>> {
    recorded.filter(present_in(registry))
}

/// Computes the pending units by one scan of the registry.
pub fn compute_pending(registry: &Registry, recorded: &Vec<String>) -> (pending: Vec<String>)
    ensures
        names_of(pending@) == pending_of(registry@, names_of(recorded@)),
{
    let units = registry.all_migrations();
    let ghost all = names_of(units@);
    let ghost keep = absent_from(names_of(recorded@));
    let mut pending: Vec<String> = Vec::new();
    let mut i: usize = 0;
    assert(all.take(0).filter(keep) =~= Seq::<Seq<char>>::empty());
    while i < units.len()
        invariant
            i <= units.len(),
            all == names_of(units@),
            keep == absent_from(names_of(recorded@)),
            names_of(pending@) == all.take(i as int).filter(keep),
        decreases units.len() - i,
    {
        proof {
            assert(all.take(i + 1) =~= all.take(i as int).push(all[i as int]));
            all.take(i as int).lemma_filter_push(all[i as int], keep);
        }
        if !contains_name(recorded, &units[i]) {
            let ghost before = names_of(pending@);
            pending.push(units[i].clone());
            assert(names_of(pending@) =~= before.push(all[i as int]));
        }
        i += 1;
    }
    assert(all.take(i as int) =~= all);
    pending
}

/// Computes the applied units by one scan of the recorded versions.
pub fn compute_applied(registry: &Registry, recorded: &Vec<String>) -> (applied: Vec<String>)
    ensures
        names_of(applied@) == applied_of(registry@, names_of(recorded@)),
{
    let ghost all = names_of(recorded@);
    let ghost keep = present_in(registry@);
    let mut applied: Vec<String> = Vec::new();
    let mut i: usize = 0;
    assert(all.take(0).filter(keep) =~= Seq::<Seq<char>>::empty());
    while i < recorded.len()
        invariant
            i <= recorded.len(),
            all == names_of(recorded@),
            keep == present_in(registry@),
            names_of(applied@) == all.take(i as int).filter(keep),
        decreases recorded.len() - i,
    {
        proof {
            assert(all.take(i + 1) =~= all.take(i as int).push(all[i as int]));
            all.take(i as int).lemma_filter_push(all[i as int], keep);
        }
        if registry.contains(&recorded[i]) {
            let ghost before = names_of(applied@);
            applied.push(recorded[i].clone());
            assert(names_of(applied@) =~= before.push(all[i as int]));
        }
        i += 1;
    }
    assert(all.take(i as int) =~= all);
    applied
}

/// The applied units by their place in the registry: the units of the
/// registry that the ledger lists, in registry order.
pub open spec fn applied_by_position(
    registry: Seq<Seq<char>>,
    recorded: Seq<Seq<char>>,
) -> Seq<Seq<char>> {
    registry.filter(present_in(recorded))
}

/// Computes the applied units by their place in the registry, by one scan
/// of the registry.
pub fn compute_applied_by_position(registry: &Registry, recorded: &Vec<String>) -> (applied: Vec<
    String,
>)
    ensures
        names_of(applied@) == applied_by_position(registry@, names_of(recorded@)),
{
    let units = registry.all_migrations();
    let ghost all = names_of(units@);
    let ghost keep = present_in(names_of(recorded@));
    let mut applied: Vec<String> = Vec::new();
    let mut i: usize = 0;
    assert(all.take(0).filter(keep) =~= Seq::<Seq<char>>::empty());
    while i < units.len()
        invariant
            i <= units.len(),
            all == names_of(units@),
            keep == present_in(names_of(recorded@)),
            names_of(applied@) == all.take(i as int).filter(keep),
        decreases units.len() - i,
    {
        proof {
            assert(all.take(i + 1) =~= all.take(i as int).push(all[i as int]));
            all.take(i as int).lemma_filter_push(all[i as int], keep);
        }
        if contains_name(recorded, &units[i]) {
            let ghost before = names_of(applied@);
            applied.push(units[i].clone());
            assert(names_of(applied@) =~= before.push(all[i as int]));
        }
        i += 1;
    }
    assert(all.take(i as int) =~= all);
    applied
}

/// The first `count` units of the registry, or all of them where it has fewer.
pub open spec fn leading(registry: Seq<Seq<char>>, count: nat) -> Seq<Seq<char>> {
    registry.take(
        if count <= registry.len() {
            count as int
        } else {
            registry.len() as int
        },
    )
}

/// The ledger agrees with the registry: no version is recorded twice, and
/// the recorded versions are the names of the leading units of the registry,
/// as many as are recorded. The order in which the ledger lists them does
/// not count.
pub open spec fn consistent(registry: Seq<Seq<char>>, recorded: Seq<Seq<char>>) -> bool {
    &&& recorded.no_duplicates()
    &&& recorded.len() <= registry.len()
    &&& forall|name: Seq<char>|
        #![trigger recorded.contains(name)]
        #![trigger registry.take(recorded.len() as int).contains(name)]
        recorded.contains(name) <==> registry.take(recorded.len() as int).contains(name)
}

/// What is wrong with the version listed at `at`, if anything: the registry
/// does not know it, or it is listed earlier too, or it is not among the
/// leading units of the registry, as many as are recorded.
pub open spec fn listing_fault(
    registry: Seq<Seq<char>>,
    recorded: Seq<Seq<char>>,
    at: int,
) -> Option<ConsistencyFault> {
    let version = recorded[at];
    if !registry.contains(version) {
        Some(ConsistencyFault::UnknownVersion)
    } else if recorded.take(at).contains(version) {
        Some(ConsistencyFault::RepeatedVersion)
    } else if !leading(registry, recorded.len()).contains(version) {
        Some(ConsistencyFault::BrokenPrefix)
    } else {
        None
    }
}

/// `at` is the first place in the listing at which something is wrong.
pub open spec fn first_fault_at(registry: Seq<Seq<char>>, recorded: Seq<Seq<char>>, at: int) -> bool {
    &&& 0 <= at < recorded.len()
    &&& listing_fault(registry, recorded, at) is Some
    &&& forall|j: int| 0 <= j < at ==> (#[trigger] listing_fault(registry, recorded, j)) is None
}

/// The first place in the listing at which something is wrong.
pub open spec fn first_fault(registry: Seq<Seq<char>>, recorded: Seq<Seq<char>>) -> int {
    choose|at: int| first_fault_at(registry, recorded, at)
}

/// A list without repetitions that holds exactly the names of the first
/// `count` units of the registry has `count` items.
pub proof fn lemma_listing_has_count(
    registry: Seq<Seq<char>>,
    listing: Seq<Seq<char>>,
    count: int,
)
    requires
        registry.no_duplicates(),
        0 <= count <= registry.len(),
        listing.no_duplicates(),
        forall|name: Seq<char>|
            #![trigger listing.contains(name)]
            #![trigger registry.take(count).contains(name)]
            listing.contains(name) <==> registry.take(count).contains(name),
    ensures
        listing.len() == count,
        consistent(registry, listing),
{
    let head = registry.take(count);
    assert(head.no_duplicates());
    listing.unique_seq_to_set();
    head.unique_seq_to_set();
    assert(listing.to_set() =~= head.to_set());
}

/// With a registry that names no unit twice, the ledger is consistent
/// exactly when nothing is wrong at any place of its listing.
pub proof fn lemma_consistent_iff_no_fault(registry: Seq<Seq<char>>, recorded: Seq<Seq<char>>)
    requires
        registry.no_duplicates(),
    ensures
        consistent(registry, recorded) <==> forall|i: int|
            0 <= i < recorded.len() ==> (#[trigger] listing_fault(registry, recorded, i)) is None,
{
    let count = recorded.len() as int;
    if consistent(registry, recorded) {
        assert forall|i: int| 0 <= i < recorded.len() implies (#[trigger] listing_fault(
            registry,
            recorded,
            i,
        )) is None by {
            let version = recorded[i];
            assert(recorded.contains(version));
            assert(registry.take(count).contains(version));
            let p = choose|p: int| 0 <= p < count && registry.take(count)[p] == version;
            assert(registry[p] == version);
            if recorded.take(i).contains(version) {
                let j = choose|j: int| 0 <= j < i && recorded.take(i)[j] == version;
                assert(recorded[j] == recorded[i]);
            }
        }
    }
    if forall|i: int|
        0 <= i < recorded.len() ==> (#[trigger] listing_fault(registry, recorded, i)) is None {
        let head = leading(registry, recorded.len());
        assert forall|a: int, b: int| 0 <= a < recorded.len() && 0 <= b < recorded.len() && a != b implies recorded[a]
            != recorded[b] by {
            let (lo, hi) = if a < b {
                (a, b)
            } else {
                (b, a)
            };
            assert(listing_fault(registry, recorded, hi) is None);
            assert(recorded.take(hi)[lo] == recorded[lo]);
        }
        assert(head.no_duplicates());
        assert(recorded.to_set().subset_of(head.to_set())) by {
            assert forall|name: Seq<char>| recorded.to_set().contains(name) implies head.to_set().contains(
                name,
            ) by {
                let i = choose|i: int| 0 <= i < recorded.len() && recorded[i] == name;
                assert(listing_fault(registry, recorded, i) is None);
            }
        }
        recorded.unique_seq_to_set();
        head.unique_seq_to_set();
        vstd::seq_lib::seq_to_set_is_finite(head);
        vstd::seq_lib::seq_to_set_is_finite(recorded);
        vstd::set_lib::lemma_len_subset(recorded.to_set(), head.to_set());
        vstd::set_lib::lemma_subset_equality(recorded.to_set(), head.to_set());
        assert(head == registry.take(count));
        assert forall|name: Seq<char>|
            #![trigger recorded.contains(name)]
            #![trigger registry.take(count).contains(name)]
            recorded.contains(name) <==> registry.take(count).contains(name) by {
            assert(recorded.to_set().contains(name) <==> head.to_set().contains(name));
        }
    }
}

/// How a ledger that disagrees with the registry is reported: by the first
/// version of its listing at which something is wrong, and by what is wrong
/// there.
pub open spec fn inconsistency(
    direction: Direction,
    registry: Seq<Seq<char>>,
    recorded: Seq<Seq<char>>,
) -> ErrorView {
    let at = first_fault(registry, recorded);
    ErrorView::Consistency {
        version: recorded[at],
        fault: listing_fault(registry, recorded, at)->Some_0,
        direction,
        completed: 0,
    }
}

/// Finds the first place in the ledger's listing at which something is
/// wrong, and what; there is none exactly when the ledger is consistent.
pub fn first_inconsistency(registry: &Registry, recorded: &Vec<String>) -> (found: Option<
    (usize, ConsistencyFault),
>)
    requires
        registry.wf(),
    ensures
        found is None <==> consistent(registry@, names_of(recorded@)),
        found matches Some((at, fault)) ==> {
            &&& first_fault_at(registry@, names_of(recorded@), at as int)
            &&& listing_fault(registry@, names_of(recorded@), at as int) == Some(fault)
        },
{
    let ghost listed = names_of(recorded@);
    let ghost head = leading(registry@, listed.len());
    let mut i: usize = 0;
    while i < recorded.len()
        invariant
            i <= recorded.len(),
            registry.wf(),
            listed == names_of(recorded@),
            head == leading(registry@, listed.len()),
            forall|j: int| 0 <= j < i ==> (#[trigger] listing_fault(registry@, listed, j)) is None,
        decreases recorded.len() - i,
    {
        let ghost version = listed[i as int];
        let fault = match registry.position(&recorded[i]) {
            None => Some(ConsistencyFault::UnknownVersion),
            Some(place) => {
                let earlier = match position_of(recorded, &recorded[i]) {
                    Some(first) => first < i,
                    None => false,
                };
                proof {
                    if earlier {
                        let first = choose|first: int|
                            0 <= first < i && recorded@[first]@ == version;
                        assert(listed.take(i as int)[first] == version);
                    } else {
                        assert(listed[i as int] == version);
                        if listed.take(i as int).contains(version) {
                            let j = choose|j: int|
                                0 <= j < i && listed.take(i as int)[j] == version;
                            assert(recorded@[j]@ == version);
                        }
                    }
                    if place < recorded.len() {
                        assert(head[place as int] == version);
                    } else if head.contains(version) {
                        let j = choose|j: int| 0 <= j < head.len() && head[j] == version;
                        assert(registry@[j] == version);
                    }
                }
                if earlier {
                    Some(ConsistencyFault::RepeatedVersion)
                } else if place >= recorded.len() {
                    Some(ConsistencyFault::BrokenPrefix)
                } else {
                    None
                }
            },
        };
        assert(fault == listing_fault(registry@, listed, i as int));
        if let Some(fault) = fault {
            proof {
                lemma_consistent_iff_no_fault(registry@, listed);
            }
            return Some((i, fault));
        }
        i += 1;
    }
    proof {
        lemma_consistent_iff_no_fault(registry@, listed);
    }
    None
}

/// How many units a run takes out of `available` ones.
///
/// A limit is honoured as far as units are available. Without a limit a run
/// upwards takes all of them, and a run downwards takes one.
pub open spec fn quota(direction: Direction, limit: Option<u32>, available: nat) -> nat {
    match limit {
        Some(n) => if (n as nat) < available {
            n as nat
        } else {
            available
        },
        None => match direction {
            Direction::Up => available,
            Direction::Down => if available == 0 {
                0
            } else {
                1
            },
        },
    }
}

/// Computes `quota`.
pub fn unit_quota(direction: Direction, limit: Option<u32>, available: usize) -> (count: usize)
    ensures
        count as nat == quota(direction, limit, available as nat),
{
    match limit {
        Some(n) => if (n as usize) < available {
            n as usize
        } else {
            available
        },
        None => match direction {
            Direction::Up => available,
            Direction::Down => if available == 0 {
                0
            } else {
                1
            },
        },
    }
}

/// The units a run upwards takes: the leading pending units, as many as the
/// quota allows.
pub open spec fn up_plan(
    registry: Seq<Seq<char>>,
    recorded: Seq<Seq<char>>,
    limit: Option<u32>,
) -> Seq<Seq<char>> {
    let pending = pending_of(registry, recorded);
    pending.take(quota(Direction::Up, limit, pending.len()) as int)
}

/// The units a run downwards takes: the applied units from the last place
/// in the registry backwards, as many as the quota allows.
pub open spec fn down_plan(
    registry: Seq<Seq<char>>,
    recorded: Seq<Seq<char>>,
    limit: Option<u32>,
) -> Seq<Seq<char>> {
    let newest_first = applied_by_position(registry, recorded).reverse();
    newest_first.take(quota(Direction::Down, limit, newest_first.len()) as int)
}

/// The recorded versions after a run on `recorded` that executed and
/// recorded the units `completed`: a run upwards adds them behind the others,
/// a run downwards takes them out.
pub open spec fn after_run(
    direction: Direction,
    recorded: Seq<Seq<char>>,
    completed: Seq<Seq<char>>,
) -> Seq<Seq<char>> {
    match direction {
        Direction::Up => recorded + completed,
        Direction::Down => recorded.filter(absent_from(completed)),
    }
}

/// The recorded versions after one call that ran to its end: those that the
/// plan of the call leaves, or the same as before where the ledger's
/// inconsistency forbids the run.
pub open spec fn after_call(
    registry: Seq<Seq<char>>,
    recorded: Seq<Seq<char>>,
    direction: Direction,
    limit: Option<u32>,
) -> Seq<Seq<char>> {
    match plan_of(direction, registry, recorded, limit) {
        Ok(plan) => after_run(direction, recorded, plan),
        Err(_) => recorded,
    }
}

/// The recorded versions after a sequence of calls that each ran to its end.
pub open spec fn after_calls(
    registry: Seq<Seq<char>>,
    recorded: Seq<Seq<char>>,
    calls: Seq<(Direction, Option<u32>)>,
) -> Seq<Seq<char>>
    decreases calls.len(),
{
    if calls.len() == 0 {
        recorded
    } else {
        after_call(
            registry,
            after_calls(registry, recorded, calls.drop_last()),
            calls.last().0,
            calls.last().1,
        )
    }
}

/// A filter keeps a list whole when every item passes.
pub proof fn lemma_filter_keeps_all(list: Seq<Seq<char>>, keep: spec_fn(Seq<char>) -> bool)
    requires
        forall|i: int| 0 <= i < list.len() ==> keep(#[trigger] list[i]),
    ensures
        list.filter(keep) == list,
    decreases list.len(),
{
    if list.len() == 0 {
        assert(list.filter(keep) =~= list);
    } else {
        let front = list.drop_last();
        assert(list =~= front.push(list.last()));
        front.lemma_filter_push(list.last(), keep);
        assert forall|i: int| 0 <= i < front.len() implies keep(#[trigger] front[i]) by {
            assert(front[i] == list[i]);
        }
        lemma_filter_keeps_all(front, keep);
    }
}

/// A filter leaves nothing of a list when no item passes.
pub proof fn lemma_filter_drops_all(list: Seq<Seq<char>>, keep: spec_fn(Seq<char>) -> bool)
    requires
        forall|i: int| 0 <= i < list.len() ==> !keep(#[trigger] list[i]),
    ensures
        list.filter(keep) == Seq::<Seq<char>>::empty(),
    decreases list.len(),
{
    if list.len() == 0 {
        assert(list.filter(keep) =~= Seq::<Seq<char>>::empty());
    } else {
        let front = list.drop_last();
        assert(list =~= front.push(list.last()));
        front.lemma_filter_push(list.last(), keep);
        assert forall|i: int| 0 <= i < front.len() implies !keep(#[trigger] front[i]) by {
            assert(front[i] == list[i]);
        }
        lemma_filter_drops_all(front, keep);
    }
}

/// A filter keeps a list free of repetitions.
pub proof fn lemma_filter_keeps_distinct(list: Seq<Seq<char>>, keep: spec_fn(Seq<char>) -> bool)
    requires
        list.no_duplicates(),
    ensures
        list.filter(keep).no_duplicates(),
        forall|name: Seq<char>|
            #![trigger list.filter(keep).contains(name)]
            list.filter(keep).contains(name) <==> list.contains(name) && keep(name),
    decreases list.len(),
{
    if list.len() == 0 {
        assert(list.filter(keep) =~= list);
    } else {
        let front = list.drop_last();
        let last = list.last();
        assert(list =~= front.push(last));
        front.lemma_filter_push(last, keep);
        lemma_filter_keeps_distinct(front, keep);
        let kept = front.filter(keep);
        assert(!front.contains(last)) by {
            if front.contains(last) {
                let j = choose|j: int| 0 <= j < front.len() && front[j] == last;
                assert(list[j] == list[list.len() - 1]);
            }
        }
        assert forall|name: Seq<char>|
            #![trigger list.filter(keep).contains(name)]
            list.filter(keep).contains(name) <==> list.contains(name) && keep(name) by {
            if list.filter(keep).contains(name) {
                let j = choose|j: int|
                    0 <= j < list.filter(keep).len() && list.filter(keep)[j] == name;
                if keep(last) && j == kept.len() {
                    assert(list[list.len() - 1] == name);
                } else {
                    assert(kept[j] == name);
                    assert(kept.contains(name));
                    let k = choose|k: int| 0 <= k < front.len() && front[k] == name;
                    assert(list[k] == name);
                }
            }
            if list.contains(name) && keep(name) {
                let k = choose|k: int| 0 <= k < list.len() && list[k] == name;
                if k == list.len() - 1 {
                    assert(list.filter(keep)[kept.len() as int] == name);
                } else {
                    assert(front[k] == name);
                    assert(kept.contains(name));
                    let j = choose|j: int| 0 <= j < kept.len() && kept[j] == name;
                    assert(list.filter(keep)[j] == name);
                }
            }
        }
        if keep(last) {
            assert forall|x: int, y: int|
                0 <= x < kept.len() + 1 && 0 <= y < kept.len() + 1 && x != y implies kept.push(last)[x]
                != kept.push(last)[y] by {
                if x == kept.len() {
                    assert(kept.contains(kept[y]));
                } else if y == kept.len() {
                    assert(kept.contains(kept[x]));
                }
            }
        }
    }
}

/// On a consistent ledger the pending units are the registry behind the
/// units recorded, and the applied units by position are the registry up to
/// there, however the ledger lists them.
pub proof fn lemma_split_at_count(registry: Seq<Seq<char>>, recorded: Seq<Seq<char>>)
    requires
        registry.no_duplicates(),
        consistent(registry, recorded),
    ensures
        pending_of(registry, recorded) == registry.skip(recorded.len() as int),
        applied_by_position(registry, recorded) == registry.take(recorded.len() as int),
{
    let count = recorded.len() as int;
    let head = registry.take(count);
    let tail = registry.skip(count);
    assert(registry =~= head + tail);
    Seq::filter_distributes_over_add(head, tail, absent_from(recorded));
    Seq::filter_distributes_over_add(head, tail, present_in(recorded));
    assert forall|i: int| 0 <= i < head.len() implies present_in(recorded)(#[trigger] head[i]) by {
        assert(head.contains(head[i]));
    }
    assert forall|i: int| 0 <= i < tail.len() implies absent_from(recorded)(#[trigger] tail[i]) by {
        if recorded.contains(tail[i]) {
            assert(head.contains(tail[i]));
            let j = choose|j: int| 0 <= j < head.len() && head[j] == tail[i];
            assert(registry[j] == registry[count + i]);
        }
    }
    lemma_filter_drops_all(head, absent_from(recorded));
    lemma_filter_keeps_all(tail, absent_from(recorded));
    lemma_filter_keeps_all(head, present_in(recorded));
    lemma_filter_drops_all(tail, present_in(recorded));
    assert(Seq::<Seq<char>>::empty() + tail =~= tail);
    assert(head + Seq::<Seq<char>>::empty() =~= head);
}

/// What a run is to do, given the registry, the ledger's listing and the
/// limit: the units to execute, in order, or the inconsistency that forbids it.
pub open spec fn plan_of(
    direction: Direction,
    registry: Seq<Seq<char>>,
    recorded: Seq<Seq<char>>,
    limit: Option<u32>,
) -> Result<Seq<Seq<char>>, ErrorView> {
    if !consistent(registry, recorded) {
        Err(inconsistency(direction, registry, recorded))
    } else {
        Ok(
            match direction {
                Direction::Up => up_plan(registry, recorded, limit),
                Direction::Down => down_plan(registry, recorded, limit),
            },
        )
    }
}

/// Reverses a list of names.
pub fn newest_first(applied: Vec<String>) -> (reversed: Vec<String>)
    ensures
        names_of(reversed@) == names_of(applied@).reverse(),
{
    let ghost all = names_of(applied@);
    let mut rest = applied;
    let mut reversed: Vec<String> = Vec::new();
    while rest.len() > 0
        invariant
            rest.len() + reversed.len() == all.len(),
            names_of(rest@) == all.take(rest.len() as int),
            forall|j: int| 0 <= j < reversed.len() ==> reversed@[j]@ == all[all.len() - 1 - j],
        decreases rest.len(),
    {
        let ghost before = names_of(rest@);
        let ghost n = rest.len() as int;
        let last = rest.pop().unwrap();
        assert(last@ == before[n - 1]);
        assert(names_of(rest@) =~= all.take(n - 1)) by {
            assert forall|j: int| 0 <= j < n - 1 implies names_of(rest@)[j] == all.take(n - 1)[j] by {
                assert(names_of(rest@)[j] == before[j]);
            }
        }
        reversed.push(last);
    }
    assert(names_of(reversed@) =~= all.reverse());
    reversed
}

/// Keeps the first `count` names of a list, or all of them where the list
/// has fewer.
pub fn take_first(units: Vec<String>, count: usize) -> (taken: Vec<String>)
    ensures
        names_of(taken@) == names_of(units@).take(
            if count <= units.len() {
                count as int
            } else {
                units.len() as int
            },
        ),
{
    let mut taken = units;
    taken.truncate(count);
    assert(names_of(taken@) =~= names_of(units@).take(
        if count <= units.len() {
            count as int
        } else {
            units.len() as int
        },
    ));
    taken
}

/// Plans a run: checks the ledger's listing against the registry and selects
/// the units to execute, in the order of execution.
pub fn plan_run(
    direction: Direction,
    registry: &Registry,
    recorded: &Vec<String>,
    limit: Option<u32>,
) -> (planned: Result<Vec<String>, MigrationError>)
    requires
        registry.wf(),
    ensures
        match planned {
            Ok(units) => plan_of(direction, registry@, names_of(recorded@), limit) == Ok::<
                Seq<Seq<char>>,
                ErrorView,
            >(names_of(units@)),
            Err(error) => plan_of(direction, registry@, names_of(recorded@), limit) == Err::<
                Seq<Seq<char>>,
                ErrorView,
            >(error@),
        },
{
    match first_inconsistency(registry, recorded) {
        Some((at, fault)) => {
            assert(first_fault(registry@, names_of(recorded@)) == at);
            Err(
                MigrationError::ConsistencyError {
                    version: recorded[at].clone(),
                    fault,
                    direction,
                    completed: 0,
                },
            )
        },
        None => {
            let candidates = match direction {
                Direction::Up => compute_pending(registry, recorded),
                Direction::Down => newest_first(compute_applied_by_position(registry, recorded)),
            };
            let count = unit_quota(direction, limit, candidates.len());
            Ok(take_first(candidates, count))
        },
    }
}

} // verus!
