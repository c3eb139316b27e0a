use serpico::datasets::{Data, Datasets, LogRecord};
use serpico::error::SerpicoError;
use serpico::fetch::{fetch_policy, logs_fetch_result, FetchPolicy, PointEvent, SegmentFetch};
use serpico::orchestrator::Orchestrator;

#[test]
fn policy_per_dataset_kind() {
    assert!(matches!(fetch_policy(Datasets::Blocks), FetchPolicy::PointBlocks));
    assert!(matches!(fetch_policy(Datasets::Transactions), FetchPolicy::PointTransactions));
    assert!(matches!(fetch_policy(Datasets::Logs), FetchPolicy::RangeLogs));
    assert!(matches!(fetch_policy(Datasets::Empty), FetchPolicy::Nothing));
}

#[test]
fn segment_walk_retries_skips_and_collects() {
    let mut walk: SegmentFetch<u64> = SegmentFetch::new((10, 12));
    assert_eq!(walk.current_block(), 10);

    // A failed query leaves the walk at the same block: immediate retry.
    walk.on_point_event(PointEvent::Failed);
    assert_eq!(walk.current_block(), 10);
    assert!(!walk.is_finished());

    // A confirmed block appends its records and moves on.
    walk.on_point_event(PointEvent::Confirmed(vec![100]));
    assert_eq!(walk.current_block(), 11);

    // A pending block is skipped silently: no record, but the walk moves on.
    walk.on_point_event(PointEvent::Pending);
    assert_eq!(walk.current_block(), 12);
    assert!(!walk.is_finished());

    walk.on_point_event(PointEvent::Confirmed(vec![120, 121]));
    assert!(walk.is_finished());
    assert_eq!(walk.records, vec![100, 120, 121]);
}

#[test]
fn segment_walk_single_block() {
    let mut walk: SegmentFetch<u64> = SegmentFetch::new((5, 5));
    walk.on_point_event(PointEvent::Failed);
    walk.on_point_event(PointEvent::Confirmed(vec![50]));
    assert!(walk.is_finished());
    assert_eq!(walk.records, vec![50]);
}

#[test]
fn logs_query_outcome_maps_to_fetch_result() {
    let record = LogRecord {
        block_number: Some(3),
        tx_hash: "0x1".to_string(),
        contract_address: "0x2".to_string(),
        keys: vec![],
        data: vec![],
    };
    match logs_fetch_result(Ok(vec![record])) {
        Ok(Data::Logs(v)) => assert_eq!(v.len(), 1),
        _ => panic!("expected a logs dataset"),
    }
    match logs_fetch_result(Err("connection refused".to_string())) {
        Err(SerpicoError::ClientErr(m)) => assert_eq!(m, "connection refused"),
        _ => panic!("expected ClientErr"),
    }
}

#[test]
fn concurrency_never_exceeds_bound() {
    // Five pending segments under a bound of two: drive the scheduler
    // greedily and watch the running count at every instant.
    let mut orch = Orchestrator::new(2, 5);
    let mut peak: usize = 0;
    while !orch.all_done() {
        while orch.can_start() {
            orch.start_task();
            peak = peak.max(orch.active);
            assert!(orch.active <= 2);
        }
        orch.finish_task(Ok(Data::Empty));
        assert!(orch.active <= 2);
    }
    assert_eq!(peak, 2);
    let results = orch.into_results();
    assert_eq!(results.len(), 5);
}

#[test]
fn failures_release_their_slot_and_keep_siblings() {
    let mut orch = Orchestrator::new(2, 3);
    orch.start_task();
    orch.start_task();
    assert!(!orch.can_start());
    orch.finish_task(Err(SerpicoError::ClientErr("timeout".to_string())));
    // The failed task's slot is free again; the run goes on.
    assert!(orch.can_start());
    orch.start_task();
    orch.finish_task(Ok(Data::Empty));
    orch.finish_task(Ok(Data::Empty));
    assert!(orch.all_done());
    let results = orch.into_results();
    assert_eq!(results.len(), 3);
    assert!(results[0].is_err());
    assert!(results[1].is_ok());
    assert!(results[2].is_ok());
}
