use migration::command::Subcommands;
use migration::error::{ConfigurationFault, Direction, MigrationError};
use migration::ledger::{Ledger, LedgerError};
use migration::migrator::Migrator;
use migration::names::{clone_names, contains_name, position_of};
use migration::error::ConsistencyFault;
use migration::plan::{
    compute_applied, compute_applied_by_position, compute_pending, first_inconsistency,
    newest_first, plan_run, take_first, unit_quota,
};
use migration::registry::Registry;
use migration::run::{Action, Event, WriteOutcome};

fn list(items: &[&str]) -> Vec<String> {
    items.iter().map(|s| s.to_string()).collect()
}

fn versions(ledger: &Ledger) -> Vec<(String, i64)> {
    ledger.entries().iter().map(|e| (e.version.clone(), e.applied_at)).collect()
}

#[test]
fn position_of_finds_first_occurrence() {
    let names = list(&["a", "b", "c", "b"]);
    assert_eq!(position_of(&names, &"b".to_string()), Some(1));
    assert_eq!(position_of(&names, &"z".to_string()), None);
    assert!(contains_name(&names, &"c".to_string()));
    assert!(!contains_name(&names, &"".to_string()));
    assert_eq!(clone_names(&names), names);
}

#[test]
fn registry_keeps_the_given_order() {
    let registry = Registry::new(list(&["m2", "m1", "m3"])).unwrap();
    assert_eq!(registry.all_migrations(), &list(&["m2", "m1", "m3"]));
    assert_eq!(registry.len(), 3);
    assert_eq!(registry.get(1), Some(&"m1".to_string()));
    assert_eq!(registry.get(3), None);
    assert_eq!(registry.position(&"m3".to_string()), Some(2));
    assert_eq!(registry.position(&"m4".to_string()), None);
    assert!(registry.contains(&"m2".to_string()));
    assert_eq!(registry.duplicate(), registry);
}

#[test]
fn registry_may_be_empty() {
    let registry = Registry::new(Vec::new()).unwrap();
    assert_eq!(registry.len(), 0);
}

#[test]
fn registry_refuses_a_duplicate_name() {
    assert_eq!(
        Registry::new(list(&["a", "b", "a", "b"])),
        Err(MigrationError::ConfigurationError {
            name: "a".to_string(),
            index: 2,
            defect: ConfigurationFault::DuplicateName,
        })
    );
}

#[test]
fn registry_refuses_an_empty_name() {
    assert_eq!(
        Registry::new(list(&["a", "", "a"])),
        Err(MigrationError::ConfigurationError {
            name: "".to_string(),
            index: 1,
            defect: ConfigurationFault::EmptyName,
        })
    );
    let error = Migrator::new(list(&["", ""])).unwrap_err();
    assert_eq!(error.completed(), 0);
}

#[test]
fn pending_is_the_registry_without_the_recorded_in_registry_order() {
    let registry = Registry::new(list(&["a", "b", "c", "d"])).unwrap();
    assert_eq!(compute_pending(&registry, &list(&["c", "a"])), list(&["b", "d"]));
    assert_eq!(compute_pending(&registry, &Vec::new()), list(&["a", "b", "c", "d"]));
    assert_eq!(compute_pending(&registry, &list(&["d", "c", "b", "a", "x"])), Vec::<String>::new());
}

#[test]
fn applied_is_the_recorded_that_are_known_in_ledger_order() {
    let registry = Registry::new(list(&["a", "b", "c", "d"])).unwrap();
    assert_eq!(compute_applied(&registry, &list(&["c", "x", "a"])), list(&["c", "a"]));
    assert_eq!(compute_applied(&registry, &Vec::new()), Vec::<String>::new());
}

#[test]
fn migrator_lists_pending_and_applied() {
    let m = Migrator::new(list(&["a", "b", "c"])).unwrap();
    assert_eq!(m.migrations(), &list(&["a", "b", "c"]));
    assert_eq!(m.registry().len(), 3);
    assert_eq!(m.get_pending_migrations(&list(&["a"])), list(&["b", "c"]));
    assert_eq!(m.get_applied_migrations(&list(&["a"])), list(&["a"]));
}

#[test]
fn first_inconsistency_finds_what_is_wrong_with_the_listing() {
    let registry = Registry::new(list(&["a", "b", "c"])).unwrap();
    assert_eq!(first_inconsistency(&registry, &Vec::new()), None);
    assert_eq!(first_inconsistency(&registry, &list(&["a", "b", "c"])), None);
    assert_eq!(first_inconsistency(&registry, &list(&["b", "a"])), None);
    assert_eq!(first_inconsistency(&registry, &list(&["c", "a", "b"])), None);
    assert_eq!(
        first_inconsistency(&registry, &list(&["a", "c"])),
        Some((1, ConsistencyFault::BrokenPrefix))
    );
    assert_eq!(
        first_inconsistency(&registry, &list(&["b"])),
        Some((0, ConsistencyFault::BrokenPrefix))
    );
    assert_eq!(
        first_inconsistency(&registry, &list(&["a", "b", "c", "d"])),
        Some((3, ConsistencyFault::UnknownVersion))
    );
    assert_eq!(
        first_inconsistency(&registry, &list(&["b", "a", "b"])),
        Some((2, ConsistencyFault::RepeatedVersion))
    );
    assert_eq!(
        first_inconsistency(&registry, &list(&["x", "x"])),
        Some((0, ConsistencyFault::UnknownVersion))
    );
}

#[test]
fn applied_by_position_is_in_registry_order() {
    let registry = Registry::new(list(&["a", "b", "c", "d"])).unwrap();
    assert_eq!(
        compute_applied_by_position(&registry, &list(&["c", "x", "a"])),
        list(&["a", "c"])
    );
    assert_eq!(
        compute_applied_by_position(&registry, &Vec::new()),
        Vec::<String>::new()
    );
}

#[test]
fn quota_honours_limit_and_defaults() {
    assert_eq!(unit_quota(Direction::Up, None, 5), 5);
    assert_eq!(unit_quota(Direction::Up, Some(2), 5), 2);
    assert_eq!(unit_quota(Direction::Up, Some(7), 5), 5);
    assert_eq!(unit_quota(Direction::Up, Some(0), 5), 0);
    assert_eq!(unit_quota(Direction::Down, None, 5), 1);
    assert_eq!(unit_quota(Direction::Down, None, 0), 0);
    assert_eq!(unit_quota(Direction::Down, Some(3), 5), 3);
    assert_eq!(unit_quota(Direction::Down, Some(u32::MAX), 5), 5);
}

#[test]
fn newest_first_and_take_first() {
    assert_eq!(newest_first(list(&["a", "b", "c"])), list(&["c", "b", "a"]));
    assert_eq!(newest_first(Vec::new()), Vec::<String>::new());
    assert_eq!(take_first(list(&["a", "b", "c"]), 2), list(&["a", "b"]));
    assert_eq!(take_first(list(&["a", "b", "c"]), 0), Vec::<String>::new());
    assert_eq!(take_first(list(&["a", "b", "c"]), 9), list(&["a", "b", "c"]));
}

#[test]
fn plan_run_selects_in_execution_order() {
    let registry = Registry::new(list(&["a", "b", "c", "d"])).unwrap();
    let recorded = list(&["a", "b"]);
    assert_eq!(plan_run(Direction::Up, &registry, &recorded, None), Ok(list(&["c", "d"])));
    assert_eq!(plan_run(Direction::Up, &registry, &recorded, Some(1)), Ok(list(&["c"])));
    assert_eq!(plan_run(Direction::Down, &registry, &recorded, None), Ok(list(&["b"])));
    assert_eq!(plan_run(Direction::Down, &registry, &recorded, Some(2)), Ok(list(&["b", "a"])));
    assert_eq!(
        plan_run(Direction::Down, &registry, &list(&["b", "a"]), Some(2)),
        Ok(list(&["b", "a"]))
    );
    assert_eq!(
        plan_run(Direction::Up, &registry, &list(&["b", "a"]), Some(1)),
        Ok(list(&["c"]))
    );
    assert!(plan_run(Direction::Down, &registry, &list(&["b", "c"]), Some(2)).is_err());
}

#[test]
fn command_gives_direction_and_limit() {
    assert_eq!(Subcommands::Up { num: None }.direction(), Direction::Up);
    assert_eq!(Subcommands::Up { num: None }.limit(), None);
    assert_eq!(Subcommands::Up { num: Some(3) }.limit(), Some(3));
    assert_eq!(Subcommands::Down { num: 1 }.direction(), Direction::Down);
    assert_eq!(Subcommands::Down { num: 1 }.limit(), Some(1));
}

#[test]
fn command_starts_the_matching_run() {
    let m = Migrator::new(list(&["a", "b"])).unwrap();
    let mut run = m.run(Subcommands::Down { num: 2 });
    assert_eq!(run.direction(), Direction::Down);
    assert_eq!(run.limit(), Some(2));
    assert_eq!(run.registry(), m.registry());
    assert_eq!(run.failure(), &None);
    run.step(Event::Installed);
    let step = run.step(Event::Listed { versions: list(&["a", "b"]) });
    assert_eq!(
        step.action,
        Action::Execute { name: "b".to_string(), direction: Direction::Down }
    );
    assert_eq!(m.run(Subcommands::Up { num: None }), m.up(None));
}

#[test]
fn ledger_needs_its_table() {
    let mut ledger = Ledger::new();
    assert!(!ledger.is_installed());
    assert_eq!(ledger.list_applied(), Err(LedgerError::StorageError));
    assert_eq!(ledger.record_applied("a".to_string(), 1), Err(LedgerError::StorageError));
    assert_eq!(ledger.record_reverted(&"a".to_string()), Err(LedgerError::StorageError));
    ledger.ensure_installed();
    assert!(ledger.is_installed());
    assert_eq!(ledger.list_applied(), Ok(Vec::new()));
}

#[test]
fn ensure_installed_twice_keeps_the_rows() {
    let mut ledger = Ledger::new();
    ledger.ensure_installed();
    ledger.record_applied("a".to_string(), 1).unwrap();
    ledger.ensure_installed();
    assert_eq!(versions(&ledger), vec![("a".to_string(), 1)]);
}

#[test]
fn ledger_refuses_a_second_row_for_a_version() {
    let mut ledger = Ledger::new();
    ledger.ensure_installed();
    assert_eq!(ledger.record_applied("a".to_string(), 1), Ok(()));
    assert_eq!(ledger.record_applied("a".to_string(), 2), Err(LedgerError::ConflictError));
    assert_eq!(versions(&ledger), vec![("a".to_string(), 1)]);
}

#[test]
fn ledger_refuses_to_delete_what_is_not_there() {
    let mut ledger = Ledger::new();
    ledger.ensure_installed();
    ledger.record_applied("a".to_string(), 1).unwrap();
    assert_eq!(ledger.record_reverted(&"b".to_string()), Err(LedgerError::NotFoundError));
    assert_eq!(ledger.record_reverted(&"a".to_string()), Ok(()));
    assert_eq!(ledger.record_reverted(&"a".to_string()), Err(LedgerError::NotFoundError));
    assert!(versions(&ledger).is_empty());
}

#[test]
fn ledger_lists_by_time_of_application() {
    let mut ledger = Ledger::new();
    ledger.ensure_installed();
    ledger.record_applied("b".to_string(), 20).unwrap();
    ledger.record_applied("a".to_string(), 10).unwrap();
    ledger.record_applied("c".to_string(), 20).unwrap();
    ledger.record_applied("d".to_string(), -5).unwrap();
    assert_eq!(ledger.list_applied(), Ok(list(&["d", "a", "b", "c"])));
    assert_eq!(ledger.find(&"b".to_string()), Some(2));
    assert_eq!(ledger.find(&"x".to_string()), None);
    ledger.record_reverted(&"a".to_string()).unwrap();
    assert_eq!(
        versions(&ledger),
        vec![("d".to_string(), -5), ("b".to_string(), 20), ("c".to_string(), 20)]
    );
}

#[test]
fn listing_in_another_order_gives_the_same_plan() {
    let registry = Registry::new(list(&["B", "A"])).unwrap();
    let listed = list(&["A", "B"]);
    assert_eq!(plan_run(Direction::Up, &registry, &listed, None), Ok(Vec::new()));
    assert_eq!(plan_run(Direction::Down, &registry, &listed, Some(1)), Ok(list(&["A"])));
    assert_eq!(
        plan_run(Direction::Down, &registry, &listed, Some(2)),
        plan_run(Direction::Down, &registry, &list(&["B", "A"]), Some(2))
    );
}

#[test]
fn ledger_write_becomes_the_matching_event() {
    assert_eq!(Event::of_write(WriteOutcome::Inserted), Event::Recorded);
    assert_eq!(Event::of_write(WriteOutcome::Duplicate), Event::RecordRefused);
    assert_eq!(Event::of_write(WriteOutcome::Failed), Event::StorageFailed);
    assert_eq!(
        Event::of_write(WriteOutcome::Deleted { rows_affected: 1 }),
        Event::Recorded
    );
    assert_eq!(
        Event::of_write(WriteOutcome::Deleted { rows_affected: 3 }),
        Event::Recorded
    );
    assert_eq!(
        Event::of_write(WriteOutcome::Deleted { rows_affected: 0 }),
        Event::RecordRefused
    );
}
