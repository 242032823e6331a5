use hal_contract::{
    check_shots, validate_against, Capabilities, Counts, ExecutionResult, HalError, JobId,
    JobStatus, JobTable, ValidationResult, WaitPolicy, WaitStep, Waiter,
};

#[test]
fn test_validation_result_is_valid() {
    assert!(ValidationResult::Valid.is_valid());
    assert!(!ValidationResult::Invalid { reasons: vec![] }.is_valid());
    assert!(
        !ValidationResult::RequiresTranspilation {
            details: String::new()
        }
        .is_valid()
    );
}

#[test]
fn validation_checks_qubits_and_gates() {
    let caps = Capabilities::iqm("Garnet", 5);
    let ok = validate_against(&caps, 2, &vec!["prx".to_string(), "cz".to_string()]);
    assert!(ok.is_valid());
    match validate_against(&caps, 9, &vec!["prx".to_string(), "h".to_string()]) {
        ValidationResult::Invalid { reasons } => {
            assert_eq!(reasons.len(), 2);
            assert_eq!(reasons[0], "Circuit requires 9 qubits, backend has 5");
            assert_eq!(reasons[1], "Unsupported gate: h");
        }
        _ => panic!("expected Invalid"),
    }
}

#[test]
fn submit_rejects_invalid_shots() {
    let mut table = JobTable::new();
    assert!(matches!(
        table.submit(JobId::from("a"), 0, 100),
        Err(HalError::InvalidShots(_))
    ));
    assert!(matches!(
        table.submit(JobId::from("a"), 101, 100),
        Err(HalError::InvalidShots(_))
    ));
    assert!(matches!(table.status(&JobId::from("a")), Err(HalError::JobNotFound(_))));
    assert!(check_shots(100, 100).is_ok());
    assert!(matches!(check_shots(0, 100), Err(HalError::InvalidShots(_))));
}

#[test]
fn submitted_job_is_queued() {
    let mut table = JobTable::new();
    let id = table.submit(JobId::from("job-1"), 1, 100).unwrap();
    assert_eq!(id.0, "job-1");
    assert_eq!(table.status(&id).unwrap(), JobStatus::Queued);
    assert!(matches!(
        table.submit(JobId::from("job-1"), 1, 100),
        Err(HalError::SubmissionFailed(_))
    ));
}

#[test]
fn unknown_job_is_not_found_everywhere() {
    let mut table = JobTable::new();
    table.submit(JobId::from("known"), 10, 100).unwrap();
    let missing = JobId::from("missing");
    match table.status(&missing) {
        Err(HalError::JobNotFound(m)) => assert_eq!(m, "missing"),
        _ => panic!("expected JobNotFound"),
    }
    assert!(matches!(table.result(&missing), Err(HalError::JobNotFound(_))));
    assert!(matches!(table.cancel(&missing), Err(HalError::JobNotFound(_))));
    assert!(matches!(
        table.update(&missing, JobStatus::Running),
        Err(HalError::JobNotFound(_))
    ));
    assert!(matches!(
        table.complete(&missing, ExecutionResult::default()),
        Err(HalError::JobNotFound(_))
    ));
}

#[test]
fn cancel_after_completion_keeps_completed() {
    let mut table = JobTable::new();
    let id = table.submit(JobId::from("j"), 10, 100).unwrap();
    table.update(&id, JobStatus::Running).unwrap();
    let counts = Counts::from_pairs(vec![("0".to_string(), 4), ("1".to_string(), 6)]);
    table.complete(&id, ExecutionResult::new(counts, 10)).unwrap();
    assert!(table.cancel(&id).is_ok());
    assert_eq!(table.status(&id).unwrap(), JobStatus::Completed);
    let result = table.result(&id).unwrap();
    assert_eq!(result.counts.get("1"), 6);
    assert_eq!(result.shots, 10);
}

#[test]
fn cancel_pending_job_and_forbidden_moves() {
    let mut table = JobTable::new();
    let id = table.submit(JobId::from("j"), 10, 100).unwrap();
    assert!(matches!(table.result(&id), Err(HalError::Backend(_))));
    table.cancel(&id).unwrap();
    assert_eq!(table.status(&id).unwrap(), JobStatus::Cancelled);
    assert!(matches!(table.update(&id, JobStatus::Running), Err(HalError::Backend(_))));
    assert!(matches!(
        table.complete(&id, ExecutionResult::default()),
        Err(HalError::Backend(_))
    ));
    assert_eq!(table.status(&id).unwrap(), JobStatus::Cancelled);
}

#[test]
fn wait_times_out_after_configured_polls() {
    let policy = WaitPolicy { poll_interval_ms: 5, max_polls: 4 };
    let mut waiter = Waiter::new(JobId::from("slow"), policy);
    let mut polls = 0;
    let outcome = loop {
        assert!(!waiter.exhausted());
        polls += 1;
        match waiter.on_status(JobStatus::Running) {
            WaitStep::Sleep(ms) => assert_eq!(ms, 5),
            WaitStep::Finish(e) => break e,
            WaitStep::FetchResult => panic!("job never completes"),
        }
    };
    assert_eq!(polls, 4);
    assert!(waiter.exhausted());
    match outcome {
        HalError::Timeout(id) => assert_eq!(id, "slow"),
        other => panic!("expected Timeout, got {:?}", other),
    }
}

#[test]
fn wait_reacts_to_terminal_statuses() {
    let standard = WaitPolicy::standard();
    assert_eq!(standard.poll_interval_ms, 500);
    assert_eq!(standard.max_polls, 600);
    let mut w = Waiter::new(JobId::from("j"), standard);
    assert!(matches!(w.on_status(JobStatus::Queued), WaitStep::Sleep(500)));
    assert!(matches!(w.on_status(JobStatus::Completed), WaitStep::FetchResult));
    match w.on_status(JobStatus::Failed("boom".into())) {
        WaitStep::Finish(HalError::JobFailed(m)) => assert_eq!(m, "boom"),
        _ => panic!("expected JobFailed"),
    }
    assert!(matches!(
        w.on_status(JobStatus::Cancelled),
        WaitStep::Finish(HalError::JobCancelled)
    ));
    assert_eq!(w.polls, 1);
    let none = Waiter::new(JobId::from("k"), WaitPolicy { poll_interval_ms: 1, max_polls: 0 });
    assert!(none.exhausted());
    assert!(matches!(none.timeout_error(), HalError::Timeout(_)));
}

#[test]
fn decimal_text_and_shot_message() {
    assert_eq!(hal_contract::backend::decimal_string(0), "0");
    assert_eq!(hal_contract::backend::decimal_string(7), "7");
    assert_eq!(hal_contract::backend::decimal_string(100_000), "100000");
    assert_eq!(hal_contract::backend::decimal_string(u32::MAX), "4294967295");
    match check_shots(0, 20_000) {
        Err(HalError::InvalidShots(m)) => assert_eq!(m, "shots must be 1..=20000"),
        _ => panic!("expected InvalidShots"),
    }
}

#[test]
fn poll_errors_end_the_wait_unchanged() {
    let mut w = Waiter::new(JobId::from("j"), WaitPolicy { poll_interval_ms: 1, max_polls: 3 });
    assert!(matches!(w.on_poll(Ok(JobStatus::Running)), WaitStep::Sleep(1)));
    match w.on_poll(Err(HalError::JobNotFound("j".into()))) {
        WaitStep::Finish(HalError::JobNotFound(m)) => assert_eq!(m, "j"),
        _ => panic!("expected JobNotFound"),
    }
    assert_eq!(w.polls, 1);
    assert!(matches!(w.on_poll(Ok(JobStatus::Queued)), WaitStep::Sleep(1)));
    assert!(matches!(w.on_poll(Ok(JobStatus::Running)), WaitStep::Finish(HalError::Timeout(_))));
    assert_eq!(w.polls, 3);
}

#[test]
fn wait_after_cancelling_a_completed_job_fetches_the_result() {
    let mut table = JobTable::new();
    let id = table.submit(JobId::from("done"), 4, 100).unwrap();
    table.complete(&id, ExecutionResult::default()).unwrap();
    assert!(table.cancel(&id).is_ok());
    let mut w = Waiter::new(id.clone(), WaitPolicy::standard());
    assert!(matches!(w.on_poll(table.status(&id)), WaitStep::FetchResult));
    assert!(table.result(&id).is_ok());
}
