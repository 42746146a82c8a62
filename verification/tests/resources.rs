use micro_sandbox_native::resources::{
    admission_capacity, parse_cpu_max, parse_limit, ResourceFallbacks, ResourceSnapshot,
};

#[test]
fn parses_cgroup_limits_without_confusing_max_for_zero() {
    assert_eq!(parse_limit("max\n").unwrap(), None);
    assert_eq!(parse_limit("536870912\n").unwrap(), Some(536_870_912));
    assert!(parse_limit("-1").is_err());
}

#[test]
fn computes_a_conservative_admission_budget_from_current_headroom() {
    let capacity = admission_capacity(
        ResourceSnapshot {
            memory_limit_bytes: Some(1_000),
            memory_current_bytes: 200,
            cpu_limit_millis: Some(2_000),
            pids_limit: Some(100),
            pids_current: 20,
        },
        ResourceFallbacks {
            memory_bytes: 9_999,
            cpu_millis: 8_000,
            pids: 1_000,
        },
    );

    assert_eq!(capacity.memory_bytes, 640);
    assert_eq!(capacity.cpu_millis, 1_600);
    assert_eq!(capacity.pids, 64);
}

#[test]
fn uses_host_fallbacks_when_the_parent_cgroup_is_unbounded() {
    let capacity = admission_capacity(
        ResourceSnapshot {
            memory_limit_bytes: None,
            memory_current_bytes: 10,
            cpu_limit_millis: None,
            pids_limit: None,
            pids_current: 10,
        },
        ResourceFallbacks {
            memory_bytes: 1_000,
            cpu_millis: 4_000,
            pids: 500,
        },
    );

    assert_eq!(capacity.memory_bytes, 800);
    assert_eq!(capacity.cpu_millis, 3_200);
    assert_eq!(capacity.pids, 400);
}

#[test]
fn parses_cpu_quota_as_millicores() {
    assert_eq!(parse_cpu_max("50000 100000\n").unwrap(), Some(500));
    assert_eq!(parse_cpu_max("max 100000\n").unwrap(), None);
    assert!(parse_cpu_max("100 bad").is_err());
}

#[test]
fn computes_headroom_with_saturating_arithmetic() {
    let snapshot = ResourceSnapshot {
        memory_limit_bytes: Some(512),
        memory_current_bytes: 500,
        cpu_limit_millis: Some(1_000),
        pids_limit: Some(32),
        pids_current: 40,
    };

    assert_eq!(snapshot.memory_headroom_bytes(), Some(12));
    assert_eq!(snapshot.pid_headroom(), Some(0));
}

#[test]
fn limit_parsing_trims_whitespace_and_accepts_a_plus_sign() {
    assert_eq!(parse_limit("  42 \t\n").unwrap(), Some(42));
    assert_eq!(parse_limit("+7").unwrap(), Some(7));
    assert_eq!(parse_limit(" max ").unwrap(), None);
    assert_eq!(parse_limit("18446744073709551615").unwrap(), Some(u64::MAX));
}

#[test]
fn limit_parsing_rejects_overflow_signs_and_garbage_with_a_quoted_value() {
    for bad in ["18446744073709551616", "+", "", "1 2", "maxi", "0x10"] {
        let error = parse_limit(bad).unwrap_err();
        assert_eq!(error.code(), "CGROUP_ERROR");
    }
    let error = parse_limit(" -1\n").unwrap_err();
    assert_eq!(
        error.describe(),
        "invalid cgroup value: expected non-negative integer or max, got \"-1\""
    );
}

#[test]
fn cpu_max_reports_each_malformed_shape() {
    let message = |text: &str| parse_cpu_max(text).unwrap_err().describe();
    assert_eq!(message(""), "invalid cgroup value: cpu.max is empty");
    assert_eq!(message("100000"), "invalid cgroup value: cpu.max period is missing");
    assert_eq!(message("100 bad"), "invalid cgroup value: cpu.max period is invalid");
    assert_eq!(
        message("100 0"),
        "invalid cgroup value: cpu.max must contain quota and a non-zero period"
    );
    assert_eq!(
        message("100 100 100"),
        "invalid cgroup value: cpu.max must contain quota and a non-zero period"
    );
    assert_eq!(message("many 100"), "invalid cgroup value: cpu.max quota is invalid");
}

#[test]
fn cpu_max_saturates_a_huge_quota_before_dividing() {
    assert_eq!(parse_cpu_max("150000 100000").unwrap(), Some(1_500));
    assert_eq!(
        parse_cpu_max("18446744073709551615 1").unwrap(),
        Some(u64::MAX)
    );
    assert_eq!(
        parse_cpu_max("18446744073709551615 1000").unwrap(),
        Some(u64::MAX / 1000)
    );
}

#[test]
fn admission_rounds_four_fifths_down() {
    let capacity = admission_capacity(
        ResourceSnapshot {
            memory_limit_bytes: Some(7),
            memory_current_bytes: 0,
            cpu_limit_millis: Some(u64::MAX),
            pids_limit: Some(3),
            pids_current: 9,
        },
        ResourceFallbacks {
            memory_bytes: 0,
            cpu_millis: 0,
            pids: 0,
        },
    );
    assert_eq!(capacity.memory_bytes, 5);
    assert_eq!(capacity.cpu_millis, ((u64::MAX as u128) * 4 / 5) as u64);
    assert_eq!(capacity.pids, 0);
}
