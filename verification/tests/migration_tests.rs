use region_control::cluster::{ClusterModel, WriteEntry};
use region_control::errors::Error;
use region_control::ids::{Peer, RegionId};
use region_control::records::{MigrationTask, ProcedureStatus};
use region_control::selector::{ConstNodeSelector, SelectorOptions};

const TABLE_ID: u32 = 1024;

fn peer(id: u64) -> Peer {
    Peer::new(id, "placeholder:4001".to_string())
}

/// Five datanodes, one table with three partitions (`i <= 10`,
/// `10 < i <= 50`, `i > 50`), regions assigned round-robin over the
/// selector's fixed candidate list.
fn build_cluster(selector_peers: Vec<u64>) -> ClusterModel {
    let mut cluster = ClusterModel::new();
    for id in 1..=5u64 {
        cluster.add_datanode(peer(id));
    }
    let selector = ConstNodeSelector::new(selector_peers.into_iter().map(peer).collect());
    let candidates = selector.select(0, &SelectorOptions { exclude: Vec::new() });
    cluster.create_table(TABLE_ID, vec![10, 50], &candidates).unwrap();
    cluster
}

fn insert_values(cluster: &mut ClusterModel, ts: u64) {
    for key in [5i64, 15, 55] {
        cluster.insert_row(TABLE_ID, key, ts).unwrap();
    }
}

fn sorted_rows(cluster: &ClusterModel) -> Vec<(i64, u64)> {
    let mut rows: Vec<(i64, u64)> = cluster
        .read_table(TABLE_ID)
        .iter()
        .map(|e: &WriteEntry| (e.key, e.ts))
        .collect();
    rows.sort();
    rows
}

fn migrate(cluster: &mut ClusterModel, region_number: u32, from: u64, to: u64) -> Option<u64> {
    let task = MigrationTask::new(
        0,
        RegionId::new(TABLE_ID, region_number),
        peer(from),
        peer(to),
        1000,
    );
    cluster.submit_procedure(task).unwrap()
}

#[test]
fn test_region_migration() {
    let mut cluster = build_cluster(vec![1, 2, 3]);
    let mut logical_timer = 1685508715000u64;
    insert_values(&mut cluster, logical_timer);
    logical_timer += 1000;

    let distribution = cluster.routes.region_distribution(TABLE_ID);
    assert_eq!(distribution, vec![(1, vec![0]), (2, vec![1]), (3, vec![2])]);

    // migrate the first peer's region to the second peer
    let pid = migrate(&mut cluster, 0, 1, 2).unwrap();
    assert_eq!(cluster.run_procedure(pid), ProcedureStatus::Done);

    let distribution = cluster.routes.region_distribution(TABLE_ID);
    assert_eq!(distribution, vec![(2, vec![0, 1]), (3, vec![2])]);

    insert_values(&mut cluster, logical_timer);
    assert_eq!(
        sorted_rows(&cluster),
        vec![
            (5, 1685508715000),
            (5, 1685508716000),
            (15, 1685508715000),
            (15, 1685508716000),
            (55, 1685508715000),
            (55, 1685508716000),
        ]
    );

    // re-submitting the finished migration reports nothing to do
    assert_eq!(migrate(&mut cluster, 0, 1, 2), None);
}

#[test]
fn test_region_migration_multiple_regions() {
    let mut cluster = build_cluster(vec![1, 2, 2]);
    let mut logical_timer = 1685508715000u64;
    insert_values(&mut cluster, logical_timer);
    logical_timer += 1000;

    let distribution = cluster.routes.region_distribution(TABLE_ID);
    assert_eq!(distribution, vec![(1, vec![0]), (2, vec![1, 2])]);

    // migrate one region of the peer that serves two
    let pid = migrate(&mut cluster, 1, 2, 1).unwrap();
    assert_eq!(cluster.run_procedure(pid), ProcedureStatus::Done);

    let distribution = cluster.routes.region_distribution(TABLE_ID);
    assert_eq!(distribution, vec![(1, vec![0, 1]), (2, vec![2])]);

    insert_values(&mut cluster, logical_timer);
    assert_eq!(sorted_rows(&cluster).len(), 6);

    assert_eq!(migrate(&mut cluster, 1, 2, 1), None);
}

#[test]
fn test_region_migration_all_regions() {
    let mut cluster = build_cluster(vec![2, 2, 2]);
    let mut logical_timer = 1685508715000u64;
    insert_values(&mut cluster, logical_timer);
    logical_timer += 1000;

    let distribution = cluster.routes.region_distribution(TABLE_ID);
    assert_eq!(distribution, vec![(2, vec![0, 1, 2])]);

    let pid = migrate(&mut cluster, 0, 2, 1).unwrap();
    assert_eq!(cluster.run_procedure(pid), ProcedureStatus::Done);

    let distribution = cluster.routes.region_distribution(TABLE_ID);
    assert_eq!(distribution, vec![(1, vec![0]), (2, vec![1, 2])]);

    insert_values(&mut cluster, logical_timer);
    assert_eq!(sorted_rows(&cluster).len(), 6);

    assert_eq!(migrate(&mut cluster, 0, 2, 1), None);
}

#[test]
fn test_region_migration_incorrect_from_peer() {
    let mut cluster = build_cluster(vec![1, 2, 3]);
    insert_values(&mut cluster, 1685508715000);
    let records_before = cluster.records.len();

    // region 1 is led by peer 2; peer 5 is not its leader
    let task = MigrationTask::new(0, RegionId::new(TABLE_ID, 1), peer(5), peer(1), 1000);
    let err = cluster.submit_procedure(task).unwrap_err();
    assert!(matches!(err, Error::InvalidArguments));
    // no procedure record was created
    assert_eq!(cluster.records.len(), records_before);
}

#[test]
fn test_region_migration_incorrect_region_id() {
    let mut cluster = build_cluster(vec![1, 2, 3]);
    insert_values(&mut cluster, 1685508715000);
    let records_before = cluster.records.len();

    let task = MigrationTask::new(0, RegionId::new(TABLE_ID, 5), peer(2), peer(1), 1000);
    let err = cluster.submit_procedure(task).unwrap_err();
    assert!(matches!(err, Error::RegionRouteNotFound));
    assert_eq!(cluster.records.len(), records_before);
}

#[test]
fn test_submit_idempotence() {
    let mut cluster = build_cluster(vec![1, 2, 3]);
    insert_values(&mut cluster, 1685508715000);

    let pid1 = migrate(&mut cluster, 0, 1, 2).unwrap();
    // while the first procedure is still running, the same submission
    // returns the same procedure id and creates nothing
    let records_after_first = cluster.records.len();
    let pid2 = migrate(&mut cluster, 0, 1, 2).unwrap();
    assert_eq!(pid1, pid2);
    assert_eq!(cluster.records.len(), records_after_first);

    assert_eq!(cluster.run_procedure(pid1), ProcedureStatus::Done);
    assert_eq!(cluster.procedure_status(pid1), Some(ProcedureStatus::Done));
}

#[test]
fn test_crash_between_freeze_and_final_replicate() {
    let mut cluster = build_cluster(vec![1, 2, 3]);
    let mut logical_timer = 1685508715000u64;
    insert_values(&mut cluster, logical_timer);
    logical_timer += 1000;

    let pid = migrate(&mut cluster, 0, 1, 2).unwrap();

    // run the engine step by step: prepare, open follower, catch up
    cluster.step_procedure(pid).unwrap();
    cluster.step_procedure(pid).unwrap();
    cluster.step_procedure(pid).unwrap();
    // the freeze effect lands, but the control plane dies before it can
    // persist the advanced cursor
    cluster.execute_step(pid).unwrap();

    // a frozen source rejects writes with a retryable error
    let err = cluster.insert_row(TABLE_ID, 5, logical_timer).unwrap_err();
    assert!(matches!(err, Error::Transient));

    // on restart the engine resumes from the persisted cursor,
    // re-executes the idempotent freeze and completes
    assert_eq!(cluster.procedure_status(pid), Some(ProcedureStatus::Running));
    assert_eq!(cluster.run_procedure(pid), ProcedureStatus::Done);

    let distribution = cluster.routes.region_distribution(TABLE_ID);
    assert_eq!(distribution, vec![(2, vec![0, 1]), (3, vec![2])]);

    // no acknowledged write was lost, and the region accepts writes again
    insert_values(&mut cluster, logical_timer);
    assert_eq!(sorted_rows(&cluster).len(), 6);
    assert_eq!(cluster.procedure_status(pid), Some(ProcedureStatus::Done));
}

#[test]
fn test_target_rejected_compensates() {
    let mut cluster = build_cluster(vec![1, 2, 3]);
    insert_values(&mut cluster, 1685508715000);
    let before = cluster.routes.region_distribution(TABLE_ID);

    cluster.set_disk_full(2, true).unwrap();
    let pid = migrate(&mut cluster, 0, 1, 2).unwrap();
    assert_eq!(cluster.run_procedure(pid), ProcedureStatus::Failed);
    let record = cluster.records.iter().find(|r| r.procedure_id == pid).unwrap();
    assert!(matches!(record.last_error, Some(Error::TargetRejected)));

    // the failed migration left every route untouched
    assert_eq!(cluster.routes.region_distribution(TABLE_ID), before);
    // and the source still accepts writes
    cluster.insert_row(TABLE_ID, 5, 1685508716000).unwrap();
}

#[test]
fn test_unreachable_target_rejected_at_submit() {
    let mut cluster = build_cluster(vec![1, 2, 3]);
    cluster.set_alive(2, false).unwrap();
    let task = MigrationTask::new(0, RegionId::new(TABLE_ID, 0), peer(1), peer(2), 1000);
    let err = cluster.submit_procedure(task).unwrap_err();
    assert!(matches!(err, Error::InvalidArguments));
}

#[test]
fn test_region_id_round_trip() {
    let rid = RegionId::new(1024, 3);
    assert_eq!(rid.as_u64(), (1024u64 << 32) | 3);
    let back = RegionId::from_u64(rid.as_u64());
    assert_eq!(back.table_id, 1024);
    assert_eq!(back.region_number, 3);
}

#[test]
fn test_route_reads_after_commit_see_new_leader() {
    let mut cluster = build_cluster(vec![1, 2, 3]);
    insert_values(&mut cluster, 1685508715000);

    let pid = migrate(&mut cluster, 0, 1, 2).unwrap();
    assert_eq!(cluster.run_procedure(pid), ProcedureStatus::Done);

    // every subsequent read of the route returns the new leader until a
    // later migration
    for _ in 0..3 {
        let route = cluster.routes.get_route(RegionId::new(TABLE_ID, 0)).unwrap();
        assert_eq!(route.leader_peer.id, 2);
    }
}

#[test]
fn test_cancellation_before_commit() {
    let mut cluster = build_cluster(vec![1, 2, 3]);
    insert_values(&mut cluster, 1685508715000);
    let before = cluster.routes.region_distribution(TABLE_ID);

    let pid = migrate(&mut cluster, 0, 1, 2).unwrap();
    // freeze has happened, the route change has not
    cluster.step_procedure(pid).unwrap();
    cluster.step_procedure(pid).unwrap();
    cluster.step_procedure(pid).unwrap();
    cluster.step_procedure(pid).unwrap();

    cluster.cancel_procedure(pid);
    assert_eq!(cluster.procedure_status(pid), Some(ProcedureStatus::Cancelled));
    // compensation left the routes untouched and released the lease
    assert_eq!(cluster.routes.region_distribution(TABLE_ID), before);
    cluster.insert_row(TABLE_ID, 5, 1685508716000).unwrap();
}

#[test]
fn test_cancellation_after_commit_rolls_forward() {
    let mut cluster = build_cluster(vec![1, 2, 3]);
    insert_values(&mut cluster, 1685508715000);

    let pid = migrate(&mut cluster, 0, 1, 2).unwrap();
    // run through the route-change commit
    for _ in 0..6 {
        cluster.step_procedure(pid).unwrap();
    }
    cluster.cancel_procedure(pid);
    // a committed migration ignores cancellation and rolls forward
    assert_eq!(cluster.procedure_status(pid), Some(ProcedureStatus::Running));
    assert_eq!(cluster.run_procedure(pid), ProcedureStatus::Done);
    assert_eq!(
        cluster.routes.region_distribution(TABLE_ID),
        vec![(2, vec![0, 1]), (3, vec![2])]
    );
}

#[test]
fn test_route_changed_cas_failure() {
    let mut cluster = build_cluster(vec![1, 2, 3]);
    insert_values(&mut cluster, 1685508715000);

    let pid = migrate(&mut cluster, 0, 1, 2).unwrap();
    // advance up to (but not through) the route-change commit
    for _ in 0..5 {
        cluster.step_procedure(pid).unwrap();
    }
    // someone else moves the leadership first
    cluster
        .routes
        .commit_route_change(RegionId::new(TABLE_ID, 0), 1, &peer(3))
        .unwrap();

    // the procedure's CAS sees an unexpected leader and must not commit
    assert_eq!(cluster.run_procedure(pid), ProcedureStatus::Failed);
    let record = cluster
        .records
        .iter()
        .find(|r| r.procedure_id == pid)
        .unwrap();
    assert!(matches!(record.last_error, Some(Error::RouteChanged)));
    // the competing change stands
    let route = cluster.routes.get_route(RegionId::new(TABLE_ID, 0)).unwrap();
    assert_eq!(route.leader_peer.id, 3);
}

#[test]
fn test_incorrect_from_peer_wins_over_target_match() {
    // region 0 is led by peer 1; the target already leads it, but the
    // claimed source is bogus and no such migration ever completed, so
    // the from-peer rule fires first
    let mut cluster = build_cluster(vec![1, 2, 3]);
    insert_values(&mut cluster, 1685508715000);
    let records_before = cluster.records.len();

    let task = MigrationTask::new(0, RegionId::new(TABLE_ID, 0), peer(5), peer(1), 1000);
    let err = cluster.submit_procedure(task).unwrap_err();
    assert!(matches!(err, Error::InvalidArguments));
    assert_eq!(cluster.records.len(), records_before);
}

#[test]
fn test_target_equal_to_source_is_trivial() {
    let mut cluster = build_cluster(vec![1, 2, 3]);
    let records_before = cluster.records.len();

    // moving a region onto its own leader is nothing to do
    let task = MigrationTask::new(0, RegionId::new(TABLE_ID, 0), peer(1), peer(1), 1000);
    assert_eq!(cluster.submit_procedure(task).unwrap(), None);
    assert_eq!(cluster.records.len(), records_before);
}
