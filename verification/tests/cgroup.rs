use micro_sandbox_native::cgroup::{
    cgroup_settings, procs_line, validate_job_id, validate_limits,
};

#[test]
fn rejects_job_ids_that_could_escape_the_delegated_root() {
    let error = validate_job_id("../escape").unwrap_err();
    assert_eq!(error.code(), "POLICY_VIOLATION");
    assert!(validate_job_id("job-abc").is_ok());
    assert!(validate_job_id("").is_err());
    assert!(validate_job_id(&"a".repeat(64)).is_ok());
    assert!(validate_job_id(&"a".repeat(65)).is_err());
    assert!(validate_job_id("job/abc").is_err());
    assert!(validate_job_id("jöb").is_err());
}

#[test]
fn configures_the_files_of_a_job_cgroup() {
    let settings = cgroup_settings(256, 16, 50_000).unwrap();
    let expected = [
        ("memory.max", "268435456\n"),
        ("memory.swap.max", "0\n"),
        ("memory.oom.group", "1\n"),
        ("pids.max", "16\n"),
        ("cpu.max", "50000 100000\n"),
    ];
    assert_eq!(settings.len(), expected.len());
    for ((name, value), (want_name, want_value)) in settings.iter().zip(expected) {
        assert_eq!(name, want_name);
        assert_eq!(value, want_value);
    }
    let error = cgroup_settings(u64::MAX, 1, 1).unwrap_err();
    assert_eq!(error.describe(), "policy violation: memory limit overflows");
}

#[test]
fn attaches_only_positive_pids() {
    assert_eq!(procs_line(1234).unwrap(), "1234\n");
    assert_eq!(procs_line(0).unwrap_err().code(), "POLICY_VIOLATION");
    assert!(procs_line(-5).is_err());
}

#[test]
fn limits_must_be_positive() {
    assert!(validate_limits(256, 16, true).is_ok());
    assert!(validate_limits(0, 16, true).is_err());
    assert!(validate_limits(256, 0, true).is_err());
    let error = validate_limits(256, 16, false).unwrap_err();
    assert_eq!(
        error.describe(),
        "policy violation: cgroup limits must be positive and finite"
    );
}
