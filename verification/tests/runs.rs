use migration::error::{ConsistencyFault, Direction, MigrationError};
use migration::ledger::{Ledger, LedgerEntry};
use migration::migrator::Migrator;
use migration::run::{Action, Event, Phase, Progress, Run};

fn names(items: &[&str]) -> Vec<String> {
    items.iter().map(|s| s.to_string()).collect()
}

fn migrator(items: &[&str]) -> Migrator {
    Migrator::new(names(items)).unwrap()
}

fn rows(ledger: &Ledger) -> Vec<(String, i64)> {
    ledger.entries().iter().map(|e| (e.version.clone(), e.applied_at)).collect()
}

fn row(version: &str, applied_at: i64) -> (String, i64) {
    (version.to_string(), applied_at)
}

/// Plays the database for a run: a ledger in memory, a clock that ticks once
/// per executed unit, and the names of the units whose operation fails.
fn drive(
    mut run: Run,
    ledger: &mut Ledger,
    clock: &mut i64,
    failing: &[&str],
) -> (Result<Vec<String>, MigrationError>, Vec<Progress>) {
    let mut log = Vec::new();
    let mut action = run.pending_action();
    loop {
        let event = match action {
            Action::EnsureInstalled => {
                ledger.ensure_installed();
                Event::Installed
            }
            Action::ListApplied => match ledger.list_applied() {
                Ok(versions) => Event::Listed { versions },
                Err(_) => Event::StorageFailed,
            },
            Action::Execute { name, .. } => {
                if failing.contains(&name.as_str()) {
                    Event::ExecutionFailed
                } else {
                    *clock += 1;
                    Event::Executed { now: *clock }
                }
            }
            Action::RecordApplied { version, applied_at } => {
                match ledger.record_applied(version, applied_at) {
                    Ok(()) => Event::Recorded,
                    Err(_) => Event::RecordRefused,
                }
            }
            Action::RecordReverted { version } => match ledger.record_reverted(&version) {
                Ok(()) => Event::Recorded,
                Err(_) => Event::RecordRefused,
            },
            Action::Finish => break,
        };
        let step = run.step(event);
        log.extend(step.progress);
        action = step.action;
    }
    assert!(run.is_finished());
    (run.outcome().unwrap(), log)
}

#[test]
fn up_without_limit_applies_everything_in_order() {
    let m = migrator(&["A", "B", "C"]);
    let mut ledger = Ledger::new();
    let mut clock = 100;
    let (outcome, log) = drive(m.up(None), &mut ledger, &mut clock, &[]);
    assert_eq!(outcome, Ok(names(&["A", "B", "C"])));
    assert_eq!(rows(&ledger), vec![row("A", 101), row("B", 102), row("C", 103)]);
    assert_eq!(
        log,
        vec![
            Progress::MigrationStarted { name: "A".to_string(), direction: Direction::Up },
            Progress::MigrationApplied { name: "A".to_string() },
            Progress::MigrationStarted { name: "B".to_string(), direction: Direction::Up },
            Progress::MigrationApplied { name: "B".to_string() },
            Progress::MigrationStarted { name: "C".to_string(), direction: Direction::Up },
            Progress::MigrationApplied { name: "C".to_string() },
        ]
    );
}

#[test]
fn down_two_reverts_newest_first() {
    let m = migrator(&["A", "B", "C"]);
    let mut ledger = Ledger::new();
    let mut clock = 100;
    drive(m.up(None), &mut ledger, &mut clock, &[]).0.unwrap();
    let (outcome, log) = drive(m.down(Some(2)), &mut ledger, &mut clock, &[]);
    assert_eq!(outcome, Ok(names(&["C", "B"])));
    assert_eq!(rows(&ledger), vec![row("A", 101)]);
    assert_eq!(
        log,
        vec![
            Progress::MigrationStarted { name: "C".to_string(), direction: Direction::Down },
            Progress::MigrationReverted { name: "C".to_string() },
            Progress::MigrationStarted { name: "B".to_string(), direction: Direction::Down },
            Progress::MigrationReverted { name: "B".to_string() },
        ]
    );
}

#[test]
fn second_up_has_nothing_to_do() {
    let m = migrator(&["A", "B", "C"]);
    let mut ledger = Ledger::new();
    let mut clock = 0;
    drive(m.up(None), &mut ledger, &mut clock, &[]).0.unwrap();
    let before = rows(&ledger);
    let (outcome, log) = drive(m.up(None), &mut ledger, &mut clock, &[]);
    assert_eq!(outcome, Ok(Vec::new()));
    assert_eq!(log, vec![Progress::NoPending]);
    assert_eq!(rows(&ledger), before);
}

#[test]
fn applied_versions_stay_a_prefix_of_the_registry() {
    let all = ["A", "B", "C", "D"];
    let m = migrator(&all);
    let mut ledger = Ledger::new();
    let mut clock = 0;
    let calls: [(Direction, Option<u32>); 7] = [
        (Direction::Up, Some(1)),
        (Direction::Up, Some(2)),
        (Direction::Down, None),
        (Direction::Down, Some(5)),
        (Direction::Up, None),
        (Direction::Down, Some(3)),
        (Direction::Up, Some(0)),
    ];
    let expected_len = [1, 3, 2, 0, 4, 1, 1];
    for (call, len) in calls.iter().zip(expected_len.iter()) {
        let run = match call.0 {
            Direction::Up => m.up(call.1),
            Direction::Down => m.down(call.1),
        };
        drive(run, &mut ledger, &mut clock, &[]).0.unwrap();
        let listed = ledger.list_applied().unwrap();
        assert_eq!(listed, names(&all[..*len]));
    }
}

#[test]
fn up_one_then_down_one_restores_the_ledger() {
    let m = migrator(&["A", "B", "C"]);
    let mut ledger = Ledger::new();
    let mut clock = 10;
    drive(m.up(Some(1)), &mut ledger, &mut clock, &[]).0.unwrap();
    let before = ledger.clone();
    let (up, _) = drive(m.up(Some(1)), &mut ledger, &mut clock, &[]);
    assert_eq!(up, Ok(names(&["B"])));
    assert_ne!(ledger, before);
    let (down, _) = drive(m.down(Some(1)), &mut ledger, &mut clock, &[]);
    assert_eq!(down, Ok(names(&["B"])));
    assert_eq!(ledger, before);
}

#[test]
fn up_two_of_five_then_the_rest() {
    let m = migrator(&["m1", "m2", "m3", "m4", "m5"]);
    let mut ledger = Ledger::new();
    let mut clock = 0;
    let (first, _) = drive(m.up(Some(2)), &mut ledger, &mut clock, &[]);
    assert_eq!(first, Ok(names(&["m1", "m2"])));
    let listed = ledger.list_applied().unwrap();
    assert_eq!(m.get_pending_migrations(&listed), names(&["m3", "m4", "m5"]));
    let (second, _) = drive(m.up(None), &mut ledger, &mut clock, &[]);
    assert_eq!(second, Ok(names(&["m3", "m4", "m5"])));
    assert_eq!(ledger.list_applied().unwrap(), names(&["m1", "m2", "m3", "m4", "m5"]));
}

#[test]
fn failure_of_second_unit_keeps_the_first() {
    let m = migrator(&["A", "B", "C"]);
    let mut ledger = Ledger::new();
    let mut clock = 40;
    let (outcome, log) = drive(m.up(None), &mut ledger, &mut clock, &["B"]);
    assert_eq!(
        outcome,
        Err(MigrationError::MigrationExecutionError {
            name: "B".to_string(),
            direction: Direction::Up,
            completed: 1,
        })
    );
    assert_eq!(outcome.unwrap_err().completed(), 1);
    assert_eq!(rows(&ledger), vec![row("A", 41)]);
    assert_eq!(
        log,
        vec![
            Progress::MigrationStarted { name: "A".to_string(), direction: Direction::Up },
            Progress::MigrationApplied { name: "A".to_string() },
            Progress::MigrationStarted { name: "B".to_string(), direction: Direction::Up },
        ]
    );
    let (retry, _) = drive(m.up(None), &mut ledger, &mut clock, &[]);
    assert_eq!(retry, Ok(names(&["B", "C"])));
}

#[test]
fn failure_while_reverting_keeps_what_was_reverted() {
    let m = migrator(&["A", "B", "C"]);
    let mut ledger = Ledger::new();
    let mut clock = 0;
    drive(m.up(None), &mut ledger, &mut clock, &[]).0.unwrap();
    let (outcome, _) = drive(m.down(Some(3)), &mut ledger, &mut clock, &["B"]);
    assert_eq!(
        outcome,
        Err(MigrationError::MigrationExecutionError {
            name: "B".to_string(),
            direction: Direction::Down,
            completed: 1,
        })
    );
    assert_eq!(ledger.list_applied().unwrap(), names(&["A", "B"]));
}

#[test]
fn down_without_limit_reverts_exactly_one() {
    let m = migrator(&["A", "B", "C"]);
    let mut ledger = Ledger::new();
    let mut clock = 0;
    drive(m.up(None), &mut ledger, &mut clock, &[]).0.unwrap();
    let (outcome, _) = drive(m.down(None), &mut ledger, &mut clock, &[]);
    assert_eq!(outcome, Ok(names(&["C"])));
    assert_eq!(ledger.list_applied().unwrap(), names(&["A", "B"]));
}

#[test]
fn down_on_empty_ledger_has_nothing_to_do() {
    let m = migrator(&["A", "B"]);
    let mut ledger = Ledger::new();
    let mut clock = 0;
    let (outcome, log) = drive(m.down(None), &mut ledger, &mut clock, &[]);
    assert_eq!(outcome, Ok(Vec::new()));
    assert_eq!(log, vec![Progress::NoApplied]);
    assert!(ledger.is_installed());
}

#[test]
fn limit_zero_is_a_no_op_that_still_installs() {
    let m = migrator(&["A", "B"]);
    let mut ledger = Ledger::new();
    let mut clock = 0;
    assert!(!ledger.is_installed());
    let (up, up_log) = drive(m.up(Some(0)), &mut ledger, &mut clock, &[]);
    assert_eq!(up, Ok(Vec::new()));
    assert_eq!(up_log, vec![Progress::NoPending]);
    assert!(ledger.is_installed());
    assert!(rows(&ledger).is_empty());
    drive(m.up(None), &mut ledger, &mut clock, &[]).0.unwrap();
    let (down, down_log) = drive(m.down(Some(0)), &mut ledger, &mut clock, &[]);
    assert_eq!(down, Ok(Vec::new()));
    assert_eq!(down_log, vec![Progress::NoApplied]);
    assert_eq!(ledger.list_applied().unwrap(), names(&["A", "B"]));
}

#[test]
fn limit_beyond_what_is_there_takes_all() {
    let m = migrator(&["A", "B", "C"]);
    let mut ledger = Ledger::new();
    let mut clock = 0;
    let (up, _) = drive(m.up(Some(10)), &mut ledger, &mut clock, &[]);
    assert_eq!(up, Ok(names(&["A", "B", "C"])));
    let (down, _) = drive(m.down(Some(u32::MAX)), &mut ledger, &mut clock, &[]);
    assert_eq!(down, Ok(names(&["C", "B", "A"])));
    assert!(rows(&ledger).is_empty());
}

#[test]
fn storage_failure_stops_before_any_unit() {
    let m = migrator(&["A"]);
    let mut run = m.up(None);
    assert_eq!(run.pending_action(), Action::EnsureInstalled);
    let step = run.step(Event::StorageFailed);
    assert_eq!(step.action, Action::Finish);
    assert!(step.progress.is_empty());
    assert_eq!(run.phase(), Phase::Finished);
    assert_eq!(
        run.outcome(),
        Some(Err(MigrationError::StorageError { direction: Direction::Up, completed: 0 }))
    );

    let mut run = m.down(Some(1));
    run.step(Event::Installed);
    assert_eq!(run.pending_action(), Action::ListApplied);
    run.step(Event::StorageFailed);
    assert_eq!(
        run.outcome(),
        Some(Err(MigrationError::StorageError { direction: Direction::Down, completed: 0 }))
    );
}

#[test]
fn gap_in_the_ledger_is_a_consistency_error() {
    let m = migrator(&["A", "B", "C"]);
    let mut run = m.up(None);
    run.step(Event::Installed);
    let step = run.step(Event::Listed { versions: names(&["A", "C"]) });
    assert_eq!(step.action, Action::Finish);
    assert_eq!(
        run.outcome(),
        Some(Err(MigrationError::ConsistencyError {
            version: "C".to_string(),
            fault: ConsistencyFault::BrokenPrefix,
            direction: Direction::Up,
            completed: 0,
        }))
    );
}

#[test]
fn unknown_version_in_the_ledger_is_a_consistency_error() {
    let m = migrator(&["A", "B"]);
    let mut run = m.down(None);
    run.step(Event::Installed);
    run.step(Event::Listed { versions: names(&["A", "zzz"]) });
    assert_eq!(
        run.outcome(),
        Some(Err(MigrationError::ConsistencyError {
            version: "zzz".to_string(),
            fault: ConsistencyFault::UnknownVersion,
            direction: Direction::Down,
            completed: 0,
        }))
    );
}

#[test]
fn version_recorded_twice_is_a_consistency_error() {
    let m = migrator(&["A", "B"]);
    let mut run = m.up(None);
    run.step(Event::Installed);
    run.step(Event::Listed { versions: names(&["A", "A"]) });
    assert_eq!(
        run.outcome(),
        Some(Err(MigrationError::ConsistencyError {
            version: "A".to_string(),
            fault: ConsistencyFault::RepeatedVersion,
            direction: Direction::Up,
            completed: 0,
        }))
    );
}

#[test]
fn refused_insert_is_a_consistency_error() {
    let m = migrator(&["A", "B"]);
    let mut run = m.up(None);
    run.step(Event::Installed);
    run.step(Event::Listed { versions: Vec::new() });
    let step = run.step(Event::Executed { now: 7 });
    assert_eq!(step.action, Action::RecordApplied { version: "A".to_string(), applied_at: 7 });
    run.step(Event::RecordRefused);
    assert_eq!(
        run.outcome(),
        Some(Err(MigrationError::ConsistencyError {
            version: "A".to_string(),
            fault: ConsistencyFault::AlreadyRecorded,
            direction: Direction::Up,
            completed: 0,
        }))
    );
}

#[test]
fn refused_delete_is_a_consistency_error() {
    let m = migrator(&["A", "B"]);
    let mut run = m.down(Some(2));
    run.step(Event::Installed);
    run.step(Event::Listed { versions: names(&["A", "B"]) });
    run.step(Event::Executed { now: 1 });
    run.step(Event::Recorded);
    let step = run.step(Event::Executed { now: 2 });
    assert_eq!(step.action, Action::RecordReverted { version: "A".to_string() });
    run.step(Event::RecordRefused);
    assert_eq!(
        run.outcome(),
        Some(Err(MigrationError::ConsistencyError {
            version: "A".to_string(),
            fault: ConsistencyFault::NotRecorded,
            direction: Direction::Down,
            completed: 1,
        }))
    );
}

#[test]
fn storage_failure_while_recording_reports_what_was_done() {
    let m = migrator(&["A", "B"]);
    let mut run = m.up(None);
    run.step(Event::Installed);
    run.step(Event::Listed { versions: Vec::new() });
    run.step(Event::Executed { now: 1 });
    run.step(Event::Recorded);
    run.step(Event::Executed { now: 2 });
    run.step(Event::StorageFailed);
    assert_eq!(run.applied(), &names(&["A"]));
    assert_eq!(run.completed(), 1);
    assert_eq!(
        run.outcome(),
        Some(Err(MigrationError::StorageError { direction: Direction::Up, completed: 1 }))
    );
}

#[test]
fn event_that_answers_nothing_is_ignored() {
    let m = migrator(&["A"]);
    let mut run = m.up(None);
    let before = run.clone();
    let step = run.step(Event::Recorded);
    assert_eq!(step.action, Action::EnsureInstalled);
    assert!(step.progress.is_empty());
    assert_eq!(run, before);
    assert_eq!(run.clone().outcome(), None);

    run.step(Event::Installed);
    run.step(Event::Listed { versions: Vec::new() });
    let step = run.step(Event::Listed { versions: names(&["A"]) });
    assert_eq!(
        step.action,
        Action::Execute { name: "A".to_string(), direction: Direction::Up }
    );
    assert_eq!(run.phase(), Phase::Executing);
    assert_eq!(run.plan(), &names(&["A"]));

    run.step(Event::Executed { now: 3 });
    run.step(Event::Recorded);
    assert!(run.is_finished());
    let step = run.step(Event::ExecutionFailed);
    assert_eq!(step.action, Action::Finish);
    assert_eq!(run.outcome(), Some(Ok(names(&["A"]))));
}

#[test]
fn ledger_entry_is_plain_data() {
    let entry = LedgerEntry { version: "A".to_string(), applied_at: 5 };
    assert_eq!(entry.clone(), entry);
}

#[test]
fn example_up_all_then_down_two() {
    let m = migrator(&["A", "B", "C"]);
    let mut ledger = Ledger::new();
    let mut clock = 1_700_000_000;
    let (up, _) = drive(m.up(None), &mut ledger, &mut clock, &[]);
    assert_eq!(up, Ok(names(&["A", "B", "C"])));
    let after_up = rows(&ledger);
    assert_eq!(
        after_up,
        vec![row("A", 1_700_000_001), row("B", 1_700_000_002), row("C", 1_700_000_003)]
    );
    assert!(after_up.windows(2).all(|pair| pair[0].1 < pair[1].1));
    let (down, _) = drive(m.down(Some(2)), &mut ledger, &mut clock, &[]);
    assert_eq!(down, Ok(names(&["C", "B"])));
    assert_eq!(rows(&ledger), vec![row("A", 1_700_000_001)]);
}

#[test]
fn clock_that_goes_back_does_not_disturb_the_runs() {
    let m = migrator(&["A", "B"]);
    let mut ledger = Ledger::new();
    let mut clock = 100;
    drive(m.up(Some(1)), &mut ledger, &mut clock, &[]).0.unwrap();
    clock = 50;
    let before = ledger.clone();
    let (up, _) = drive(m.up(Some(1)), &mut ledger, &mut clock, &[]);
    assert_eq!(up, Ok(names(&["B"])));
    assert_eq!(ledger.list_applied().unwrap(), names(&["B", "A"]));
    assert_eq!(rows(&ledger), vec![row("B", 51), row("A", 101)]);

    let (again, log) = drive(m.up(None), &mut ledger, &mut clock, &[]);
    assert_eq!(again, Ok(Vec::new()));
    assert_eq!(log, vec![Progress::NoPending]);
    assert_eq!(rows(&ledger), vec![row("B", 51), row("A", 101)]);

    let (down, log) = drive(m.down(Some(1)), &mut ledger, &mut clock, &[]);
    assert_eq!(down, Ok(names(&["B"])));
    assert_eq!(
        log,
        vec![
            Progress::MigrationStarted { name: "B".to_string(), direction: Direction::Down },
            Progress::MigrationReverted { name: "B".to_string() },
        ]
    );
    assert_eq!(ledger, before);
}

#[test]
fn first_up_before_an_older_row_then_second_up_has_nothing_to_do() {
    let m = migrator(&["A", "B"]);
    let mut ledger = Ledger::new();
    ledger.ensure_installed();
    ledger.record_applied("A".to_string(), 1_000).unwrap();
    let mut clock = 10;
    let (first, _) = drive(m.up(None), &mut ledger, &mut clock, &[]);
    assert_eq!(first, Ok(names(&["B"])));
    assert_eq!(ledger.list_applied().unwrap(), names(&["B", "A"]));
    let after_first = ledger.clone();
    let (second, log) = drive(m.up(None), &mut ledger, &mut clock, &[]);
    assert_eq!(second, Ok(Vec::new()));
    assert_eq!(log, vec![Progress::NoPending]);
    assert_eq!(ledger, after_first);
}

#[test]
fn run_takes_registry_order_whatever_the_listing() {
    let m = migrator(&["A", "B", "C", "D"]);
    let mut run = m.down(Some(2));
    run.step(Event::Installed);
    let step = run.step(Event::Listed { versions: names(&["C", "A", "B"]) });
    assert_eq!(
        step.action,
        Action::Execute { name: "C".to_string(), direction: Direction::Down }
    );
    assert_eq!(run.applied(), &names(&["A", "B", "C"]));
    assert_eq!(run.plan(), &names(&["C", "B"]));
    run.step(Event::Executed { now: 1 });
    run.step(Event::Recorded);
    assert_eq!(run.applied(), &names(&["A", "B"]));

    let mut run = m.up(Some(1));
    run.step(Event::Installed);
    let step = run.step(Event::Listed { versions: names(&["B", "A"]) });
    assert_eq!(
        step.action,
        Action::Execute { name: "C".to_string(), direction: Direction::Up }
    );
}

#[test]
fn storage_failure_while_executing_stops_the_run() {
    let m = migrator(&["A", "B"]);
    let mut run = m.up(None);
    run.step(Event::Installed);
    run.step(Event::Listed { versions: Vec::new() });
    run.step(Event::Executed { now: 1 });
    run.step(Event::Recorded);
    let step = run.step(Event::StorageFailed);
    assert_eq!(step.action, Action::Finish);
    assert!(step.progress.is_empty());
    assert_eq!(
        run.outcome(),
        Some(Err(MigrationError::StorageError { direction: Direction::Up, completed: 1 }))
    );
}

#[test]
fn cancel_lets_the_unit_under_way_finish() {
    let m = migrator(&["A", "B", "C"]);
    let mut run = m.up(None);
    run.step(Event::Installed);
    run.step(Event::Listed { versions: Vec::new() });
    run.step(Event::Executed { now: 1 });
    run.step(Event::Recorded);
    assert_eq!(
        run.pending_action(),
        Action::Execute { name: "B".to_string(), direction: Direction::Up }
    );
    run.cancel();
    assert_eq!(run.plan(), &names(&["A", "B"]));
    assert_eq!(run.phase(), Phase::Executing);
    let step = run.step(Event::Executed { now: 2 });
    assert_eq!(step.action, Action::RecordApplied { version: "B".to_string(), applied_at: 2 });
    let step = run.step(Event::Recorded);
    assert_eq!(step.action, Action::Finish);
    assert_eq!(step.progress, vec![Progress::MigrationApplied { name: "B".to_string() }]);
    assert_eq!(run.applied(), &names(&["A", "B"]));
    assert_eq!(run.outcome(), Some(Ok(names(&["A", "B"]))));
}

#[test]
fn cancel_before_listing_selects_nothing() {
    let m = migrator(&["A", "B"]);
    let mut run = m.up(None);
    run.cancel();
    assert_eq!(run.limit(), Some(0));
    run.step(Event::Installed);
    let step = run.step(Event::Listed { versions: Vec::new() });
    assert_eq!(step.action, Action::Finish);
    assert_eq!(step.progress, vec![Progress::NoPending]);
    assert_eq!(run.outcome(), Some(Ok(Vec::new())));
}

#[test]
fn cancel_after_the_end_changes_nothing() {
    let m = migrator(&["A", "B"]);
    let mut run = m.up(None);
    run.step(Event::Installed);
    run.step(Event::Listed { versions: Vec::new() });
    run.step(Event::ExecutionFailed);
    let before = run.clone();
    run.cancel();
    assert_eq!(run, before);
}
