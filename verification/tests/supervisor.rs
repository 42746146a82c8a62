use micro_sandbox_native::cgroup::validate_job_id;
use micro_sandbox_native::error::SandboxError;
use micro_sandbox_native::scheduler::Capacity;
use micro_sandbox_native::supervisor::{
    job_answer, job_overhead, job_owner, launcher_failure, owner_token, parse_start_time,
    reconcile_cgroup, resource_request, supervisor_job_id, validate_transport_bounds, Decision,
    JobAnswer, LoopStep, Reconcile, Supervisor, MAX_TRANSPORT_BYTES,
};

fn limit() -> Capacity {
    Capacity {
        memory_bytes: 1 << 30,
        cpu_millis: 4000,
        pids: 100,
    }
}

fn zero() -> Capacity {
    Capacity {
        memory_bytes: 0,
        cpu_millis: 0,
        pids: 0,
    }
}

fn start_job(supervisor: &mut Supervisor, request_id: u64) -> String {
    assert!(matches!(
        supervisor.handle_request(request_id, "run", None),
        Ok(Decision::Start)
    ));
    let (job_id, request) = supervisor
        .prepare_job(request_id, 64, Some(500), 10, 1024, 1024)
        .unwrap();
    supervisor
        .register_job(request_id, job_id.clone(), request, limit())
        .unwrap();
    job_id
}

#[test]
fn names_jobs_after_the_supervisor_and_the_request() {
    assert_eq!(owner_token(12, 34), "12-34");
    assert_eq!(supervisor_job_id("12-34", 5), "job-12-34-5");
    assert_eq!(job_owner("job-12-34-5"), Some((12, 34)));
    assert_eq!(job_owner("job-12-34"), None);
    assert_eq!(job_owner("job-12-34-x"), None);
    assert_eq!(job_owner("task-12-34-5"), None);
    assert_eq!(job_owner("job-4294967296-1-2"), None);
    assert_eq!(job_owner("job-4294967295-1-2"), Some((4294967295, 1)));
}

#[test]
fn reads_the_start_time_after_the_command_name() {
    let stat = "4242 (a (tricky) name) S 1 2 3 4 5 6 7 8 9 10 11 12 13 14 15 16 17 18 987654 20";
    assert_eq!(parse_start_time(stat, 4242).unwrap(), 987654);
    let missing = parse_start_time("4242 (x) S 1 2", 4242).unwrap_err();
    assert_eq!(missing.code(), "SECURITY_ERROR");
    assert_eq!(
        missing.describe(),
        "security violation: process 4242 start time is missing"
    );
    assert_eq!(
        parse_start_time("no parenthesis", 7).unwrap_err().describe(),
        "security violation: process 7 has an invalid stat record"
    );
    let bad = "1 (x) S 1 2 3 4 5 6 7 8 9 10 11 12 13 14 15 16 17 18 soon";
    assert_eq!(
        parse_start_time(bad, 1).unwrap_err().describe(),
        "security violation: process 1 start time is invalid"
    );
}

#[test]
fn turns_limits_into_a_scheduler_request() {
    let c = resource_request(64, Some(500), 10).unwrap();
    assert_eq!(c.memory_bytes, 64 * 1024 * 1024);
    assert_eq!(c.cpu_millis, 500);
    assert_eq!(c.pids, 10);
    assert_eq!(
        resource_request(64, None, 10).unwrap_err().describe(),
        "policy violation: CPU limit must be positive and finite"
    );
    assert_eq!(
        resource_request(u64::MAX, Some(1), 1).unwrap_err().describe(),
        "policy violation: memory limit overflows"
    );
    let overhead = job_overhead();
    assert_eq!(overhead.memory_bytes, 16 * 1024 * 1024);
    assert_eq!(overhead.cpu_millis, 25);
    assert_eq!(overhead.pids, 3);
}

#[test]
fn keeps_job_io_within_the_transport_bound() {
    assert!(validate_transport_bounds(MAX_TRANSPORT_BYTES, MAX_TRANSPORT_BYTES).is_ok());
    assert_eq!(
        validate_transport_bounds(MAX_TRANSPORT_BYTES + 1, 0)
            .unwrap_err()
            .describe(),
        "policy violation: input limit exceeds the 512 KiB transport bound"
    );
    assert_eq!(
        validate_transport_bounds(0, MAX_TRANSPORT_BYTES + 1)
            .unwrap_err()
            .describe(),
        "policy violation: output limit exceeds the 512 KiB transport bound"
    );
}

#[test]
fn reports_the_tail_of_a_failed_launcher() {
    let error = launcher_failure(b"  mount failed\n");
    assert_eq!(error.code(), "SECURITY_ERROR");
    assert_eq!(
        error.describe(),
        "security violation: launcher failed: mount failed"
    );
}

#[test]
fn prepares_a_job_with_the_supervisor_overhead() {
    let supervisor = Supervisor::new(limit(), "123-456".to_string());
    let (job_id, request) = supervisor
        .prepare_job(7, 64, Some(500), 10, 1024, 1024)
        .unwrap();
    assert_eq!(job_id, "job-123-456-7");
    assert_eq!(request.memory_bytes, 80 * 1024 * 1024);
    assert_eq!(request.cpu_millis, 525);
    assert_eq!(request.pids, 13);
    let error = supervisor
        .prepare_job(7, 64, Some(500), 10, MAX_TRANSPORT_BYTES + 1, 1024)
        .unwrap_err();
    assert_eq!(error.code(), "POLICY_VIOLATION");
    assert!(matches!(
        supervisor.prepare_job(7, 64, Some(500), u64::MAX, 1, 1),
        Err(SandboxError::CapacityExceeded)
    ));
    let stranger = Supervisor::new(limit(), "../x".to_string());
    assert_eq!(
        stranger
            .prepare_job(7, 64, Some(500), 10, 1, 1)
            .unwrap_err()
            .describe(),
        "policy violation: invalid cgroup job ID"
    );
}

#[test]
fn serves_health_run_cancel_and_shutdown() {
    let mut supervisor = Supervisor::new(limit(), "123-456".to_string());
    match supervisor.handle_request(1, "health", None) {
        Ok(Decision::Health {
            active_jobs,
            available,
        }) => {
            assert_eq!(active_jobs, 0);
            assert_eq!(available, limit());
        }
        _ => panic!("health answers with the free capacity"),
    }
    let job_id = start_job(&mut supervisor, 7);
    assert_eq!(supervisor.active_jobs(), 1);
    assert_eq!(supervisor.reserved().cpu_millis, 525);
    match supervisor.handle_request(7, "run", None) {
        Ok(Decision::Refuse(error)) => {
            assert_eq!(error.describe(), "protocol error: request ID is already active")
        }
        _ => panic!("a duplicate request ID is refused"),
    }
    assert!(matches!(
        supervisor.handle_request(8, "cancel", Some(7)),
        Ok(Decision::Kill(7))
    ));
    assert!(matches!(
        supervisor.handle_request(9, "cancel", Some(99)),
        Ok(Decision::Ignore)
    ));
    assert_eq!(
        supervisor
            .handle_request(10, "cancel", None)
            .err()
            .unwrap()
            .describe(),
        "protocol error: cancel requestId is missing"
    );
    match supervisor.handle_request(11, "bogus", None) {
        Ok(Decision::Refuse(error)) => {
            assert_eq!(error.code(), "PROTOCOL_ERROR");
            assert_eq!(
                error.describe(),
                "protocol error: unsupported request type \"bogus\""
            );
        }
        _ => panic!("an unknown type is refused"),
    }
    assert_eq!(supervisor.next_step(), LoopStep::Continue);
    let done = supervisor.finish(7).unwrap();
    assert_eq!(done.job_id, job_id);
    assert!(done.cancelled);
    assert!(supervisor.finish(7).is_none());
    assert_eq!(supervisor.reserved(), zero());
    match supervisor.handle_request(12, "shutdown", None) {
        Ok(Decision::Shutdown(ids)) => assert!(ids.is_empty()),
        _ => panic!("shutdown is accepted"),
    }
    assert_eq!(supervisor.next_step(), LoopStep::Closed(12));
    assert!(matches!(
        supervisor.handle_request(13, "health", None),
        Ok(Decision::Refuse(SandboxError::Cancelled))
    ));
}

#[test]
fn shutdown_cancels_every_running_job_before_closing() {
    let mut supervisor = Supervisor::new(limit(), "1-2".to_string());
    start_job(&mut supervisor, 1);
    start_job(&mut supervisor, 2);
    match supervisor.handle_request(3, "shutdown", None) {
        Ok(Decision::Shutdown(ids)) => assert_eq!(ids, vec![1, 2]),
        _ => panic!("shutdown kills the running jobs"),
    }
    assert!(matches!(
        supervisor.handle_request(4, "run", None),
        Ok(Decision::Refuse(SandboxError::Cancelled))
    ));
    assert_eq!(supervisor.next_step(), LoopStep::Continue);
    assert!(supervisor.finish(1).unwrap().cancelled);
    assert!(supervisor.finish(2).unwrap().cancelled);
    assert_eq!(supervisor.next_step(), LoopStep::Closed(3));
    assert_eq!(supervisor.reserved(), zero());
}

#[test]
fn closing_the_input_cancels_jobs_and_then_exits() {
    let mut supervisor = Supervisor::new(limit(), "1-2".to_string());
    start_job(&mut supervisor, 5);
    assert_eq!(supervisor.close_input(), vec![5]);
    assert_eq!(supervisor.next_step(), LoopStep::Continue);
    assert!(supervisor.finish(5).unwrap().cancelled);
    assert_eq!(supervisor.next_step(), LoopStep::Exit);
}

#[test]
fn registration_respects_live_capacity_and_the_ledger() {
    let mut supervisor = Supervisor::new(limit(), "1-2".to_string());
    let (job_id, request) = supervisor
        .prepare_job(1, 64, Some(500), 10, 1, 1)
        .unwrap();
    let scarce = Capacity {
        memory_bytes: 1 << 20,
        ..limit()
    };
    assert!(matches!(
        supervisor.register_job(1, job_id.clone(), request, scarce),
        Err(SandboxError::CapacityExceeded)
    ));
    assert_eq!(supervisor.active_jobs(), 0);
    let greedy = Capacity {
        cpu_millis: 4001,
        ..request
    };
    assert!(matches!(
        supervisor.register_job(1, job_id.clone(), greedy, greedy),
        Err(SandboxError::CapacityExceeded)
    ));
    supervisor
        .register_job(1, job_id.clone(), request, limit())
        .unwrap();
    assert_eq!(
        supervisor
            .register_job(1, job_id, request, limit())
            .unwrap_err()
            .describe(),
        "protocol error: request ID is already active"
    );
    assert!(supervisor.finish(1).map(|done| !done.cancelled).unwrap());
}

#[test]
fn a_supervisor_job_id_names_its_owner_and_is_a_valid_cgroup_name() {
    for (pid, start, request) in [(4242, 99, 7), (u32::MAX, u64::MAX, u64::MAX), (0, 0, 0)] {
        let id = supervisor_job_id(&owner_token(pid, start), request);
        assert_eq!(job_owner(&id), Some((pid, start)));
        assert!(validate_job_id(&id).is_ok());
        assert!(id.len() <= 56);
    }
}

#[test]
fn a_cancelled_job_is_answered_as_cancelled_whatever_it_produced() {
    assert_eq!(job_answer(true, true, true), JobAnswer::Cancelled);
    assert_eq!(job_answer(true, false, false), JobAnswer::Cancelled);
    assert_eq!(job_answer(false, true, true), JobAnswer::Report);
    assert_eq!(job_answer(false, true, false), JobAnswer::LauncherFailed);
    assert_eq!(job_answer(false, false, false), JobAnswer::WaitFailed);
}

#[test]
fn startup_removes_only_the_cgroups_of_dead_supervisors() {
    let id = supervisor_job_id(&owner_token(4242, 99), 7);
    assert_eq!(reconcile_cgroup(&id, Some(99)), Reconcile::Keep);
    assert_eq!(reconcile_cgroup(&id, Some(100)), Reconcile::Remove);
    assert_eq!(reconcile_cgroup(&id, None), Reconcile::Remove);
    assert_eq!(reconcile_cgroup("user-cgroup", None), Reconcile::Ignore);
    assert_eq!(reconcile_cgroup("job-1-2", Some(2)), Reconcile::Ignore);
}

#[test]
fn a_finished_job_leaves_the_active_set_and_returns_its_capacity() {
    let mut supervisor = Supervisor::new(limit(), "1-2".to_string());
    let before = supervisor.reserved();
    start_job(&mut supervisor, 51);
    assert!(matches!(
        supervisor.handle_request(52, "cancel", Some(51)),
        Ok(Decision::Kill(51))
    ));
    assert!(supervisor.finish(51).unwrap().cancelled);
    assert_eq!(supervisor.active_jobs(), 0);
    assert_eq!(supervisor.reserved(), before);
    assert!(matches!(
        supervisor.handle_request(53, "cancel", Some(51)),
        Ok(Decision::Ignore)
    ));
}
