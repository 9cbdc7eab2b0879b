use process_dispatcher::dispatcher::{DispatchState, ProcessingMode};
use process_dispatcher::repository::{ProcessRow, ProcessTable};

fn row(
    uuid: u128,
    source_id: u32,
    state: DispatchState,
    supervisor_id: Option<u128>,
    created_at_ms: i64,
) -> ProcessRow {
    ProcessRow { uuid, source_id, state, mode: ProcessingMode::Regular, supervisor_id, created_at_ms }
}

#[test]
fn insert_then_latest_returns_it() {
    let mut t = ProcessTable::new();
    let u = t
        .insert_new_process(7, DispatchState::Created, ProcessingMode::Regular, 1_000)
        .unwrap();
    let latest = t.get_latest_process_for(7).unwrap();
    assert_eq!(latest.uuid, u);
    assert_eq!(latest.source_id, 7);
    assert_eq!(latest.state, DispatchState::Created);
    assert_eq!(latest.mode, ProcessingMode::Regular);
    assert_eq!(latest.supervisor_id, None);
    assert_eq!(latest.created_at_ms, 1_000);
    assert_eq!(t.get_latest_process_for(8), None);
}

#[test]
fn latest_picks_newest_timestamp() {
    let t = ProcessTable {
        rows: vec![
            row(1, 5, DispatchState::Completed, None, 3_000),
            row(2, 5, DispatchState::Failed, None, 9_000),
            row(3, 5, DispatchState::Completed, None, 6_000),
            row(4, 6, DispatchState::Created, None, 50_000),
        ],
    };
    assert_eq!(t.get_latest_process_for(5).unwrap().uuid, 2);
}

#[test]
fn latest_breaks_timestamp_ties_by_insertion_order() {
    let t = ProcessTable {
        rows: vec![
            row(1, 5, DispatchState::Completed, None, 3_000),
            row(2, 5, DispatchState::Failed, None, 3_000),
        ],
    };
    assert_eq!(t.get_latest_process_for(5).unwrap().uuid, 2);
}

#[test]
fn assign_updates_supervisor_and_state_atomically() {
    let mut t = ProcessTable {
        rows: vec![row(11, 1, DispatchState::Created, None, 500)],
    };
    t.assign_process_to_supervisor(11, 777, DispatchState::Processing);
    let r = t.rows[0];
    assert_eq!(r.supervisor_id, Some(777));
    assert_eq!(r.state, DispatchState::Processing);
    assert_eq!(r.uuid, 11);
    assert_eq!(r.created_at_ms, 500);
}

#[test]
fn assign_missing_uuid_changes_nothing() {
    let mut t = ProcessTable {
        rows: vec![row(11, 1, DispatchState::Created, None, 500)],
    };
    t.assign_process_to_supervisor(99, 777, DispatchState::Processing);
    assert_eq!(t.rows[0].supervisor_id, None);
    assert_eq!(t.rows[0].state, DispatchState::Created);
}

#[test]
fn assign_twice_matches_second_call() {
    let mut t = ProcessTable {
        rows: vec![row(11, 1, DispatchState::Created, None, 500)],
    };
    t.assign_process_to_supervisor(11, 777, DispatchState::Processing);
    let between = t.rows[0];
    assert_eq!(between.supervisor_id, Some(777));
    assert_eq!(between.state, DispatchState::Processing);
    t.assign_process_to_supervisor(11, 888, DispatchState::Processing);
    let r = t.rows[0];
    assert_eq!(r.supervisor_id, Some(888));
    assert_eq!(r.state, DispatchState::Processing);
}

#[test]
fn oldest_claimable_prefers_earliest_created() {
    let t = ProcessTable {
        rows: vec![
            row(1, 5, DispatchState::Pending, None, 4_000),
            row(2, 5, DispatchState::Created, None, 2_000),
            row(3, 5, DispatchState::Processing, Some(1), 1_000),
            row(4, 5, DispatchState::Completed, None, 500),
        ],
    };
    assert_eq!(t.get_available_source_process(5).unwrap().uuid, 2);
    assert_eq!(t.get_available_source_process(6), None);
}

#[test]
fn claimable_processes_are_ordered_and_limited() {
    let t = ProcessTable {
        rows: vec![
            row(1, 5, DispatchState::Pending, None, 4_000),
            row(2, 5, DispatchState::Created, None, 2_000),
            row(3, 5, DispatchState::Processing, Some(1), 1_000),
            row(4, 5, DispatchState::Completed, None, 500),
            row(5, 5, DispatchState::Created, None, 3_000),
            row(6, 6, DispatchState::Created, None, 100),
        ],
    };
    let all = t.get_available_source_processes(5, 10);
    let uuids: Vec<u128> = all.iter().map(|r| r.uuid).collect();
    assert_eq!(uuids, vec![2, 5, 1]);
    let two = t.get_available_source_processes(5, 2);
    let uuids: Vec<u128> = two.iter().map(|r| r.uuid).collect();
    assert_eq!(uuids, vec![2, 5]);
    assert_eq!(t.get_available_source_processes(5, 0).len(), 0);
    assert_eq!(t.get_available_source_processes(7, 10).len(), 0);
    // The limit-one instance matches the single-row query.
    assert_eq!(
        t.get_available_source_processes(5, 1)[0].uuid,
        t.get_available_source_process(5).unwrap().uuid
    );
}

#[test]
fn claimable_processes_break_timestamp_ties_by_insertion_order() {
    let t = ProcessTable {
        rows: vec![
            row(1, 5, DispatchState::Created, None, 2_000),
            row(2, 5, DispatchState::Pending, None, 2_000),
            row(3, 5, DispatchState::Created, None, 1_000),
        ],
    };
    let all = t.get_available_source_processes(5, 10);
    let uuids: Vec<u128> = all.iter().map(|r| r.uuid).collect();
    assert_eq!(uuids, vec![3, 1, 2]);
}

#[test]
fn claimable_sources_respects_states_and_limit() {
    let sup = 42u128;
    let other = 43u128;
    let t = ProcessTable {
        rows: vec![
            row(1, 10, DispatchState::Created, None, 100),
            row(2, 11, DispatchState::Pending, None, 200),
            row(3, 12, DispatchState::Error, Some(sup), 300),
            row(4, 13, DispatchState::Error, Some(other), 400),
            row(5, 14, DispatchState::Processing, Some(sup), 500),
            row(6, 15, DispatchState::Completed, None, 600),
            row(7, 10, DispatchState::Created, None, 700),
        ],
    };
    // One entry per claimable row, in table order; source 10 appears twice.
    assert_eq!(t.get_available_processes_sources(sup, 10), vec![10, 11, 12, 10]);
    assert_eq!(t.get_available_processes_sources(other, 10), vec![10, 11, 13, 10]);
    assert_eq!(t.get_available_processes_sources(sup, 2), vec![10, 11]);
    assert_eq!(t.get_available_processes_sources(sup, 0), Vec::<u32>::new());
}

#[test]
fn claimable_rows_with_a_supervisor_are_not_offered() {
    let t = ProcessTable {
        rows: vec![row(1, 10, DispatchState::Created, Some(9), 100)],
    };
    assert_eq!(t.get_available_processes_sources(9, 10), Vec::<u32>::new());
}

#[test]
fn check_wf_accepts_and_rejects() {
    let good = ProcessTable {
        rows: vec![
            row(1, 1, DispatchState::Created, None, 100),
            row(2, 1, DispatchState::Processing, Some(5), 200),
        ],
    };
    assert!(good.check_wf());
    let dup = ProcessTable {
        rows: vec![
            row(1, 1, DispatchState::Created, None, 100),
            row(1, 2, DispatchState::Created, None, 200),
        ],
    };
    assert!(!dup.check_wf());
    let orphan_processing = ProcessTable {
        rows: vec![row(1, 1, DispatchState::Processing, None, 100)],
    };
    assert!(!orphan_processing.check_wf());
    let negative_time = ProcessTable {
        rows: vec![row(1, 1, DispatchState::Created, None, -1)],
    };
    assert!(!negative_time.check_wf());
}

#[test]
fn insert_with_uuid_succeeds_exactly_on_fresh_keys() {
    let mut t = ProcessTable::new();
    let r = t.insert_with_uuid(42, 7, DispatchState::Created, ProcessingMode::Regular, 1_000);
    assert_eq!(r, Ok(42));
    assert_eq!(t.rows[0].uuid, 42);
    assert_eq!(t.rows[0].source_id, 7);
    // The duplicate key is the one modeled write failure.
    let dup = t.insert_with_uuid(42, 8, DispatchState::Created, ProcessingMode::Regular, 2_000);
    assert!(matches!(
        dup,
        Err(process_dispatcher::dispatcher::DispatcherError::DbError(_))
    ));
    assert_eq!(t.rows.len(), 1);
    let other = t.insert_with_uuid(43, 8, DispatchState::Pending, ProcessingMode::Sandbox, 2_000);
    assert_eq!(other, Ok(43));
    assert_eq!(t.rows.len(), 2);
}

#[test]
fn inserted_uuids_differ() {
    let mut t = ProcessTable::new();
    let a = t
        .insert_new_process(1, DispatchState::Created, ProcessingMode::Regular, 10)
        .unwrap();
    let b = t
        .insert_new_process(1, DispatchState::Created, ProcessingMode::Regular, 20)
        .unwrap();
    assert_ne!(a, b);
    assert!(t.check_wf());
}
