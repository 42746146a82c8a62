use micro_sandbox_native::job::{
    claim_output_bytes, default_cwd, environment_lines, exit_outcome, guest_environment,
    id_map_line, launch_result,
    staging_root_path, valid_environment_name, validate_guest_path, validate_spec, watch_step,
    JobMetrics, LaunchRequest, OutputBudget, WatchStep,
};

fn request() -> LaunchRequest {
    LaunchRequest {
        command: "/bin/sh".to_string(),
        args: vec!["-c".to_string(), "printf sandbox".to_string()],
        cwd: "/tmp".to_string(),
        env: vec![("GREETING".to_string(), "hello".to_string())],
        stdin_base64: "aW5wdXQK".to_string(),
        timeout_ms: 2000,
        input_bytes: 1024,
        output_bytes: 1024,
    }
}

fn refusal(request: &LaunchRequest) -> String {
    let error = validate_spec(request).unwrap_err();
    assert_eq!(error.code(), "POLICY_VIOLATION");
    error.describe()
}

#[test]
fn accepts_a_well_formed_request_and_decodes_its_input() {
    assert_eq!(validate_spec(&request()).unwrap(), b"input\n".to_vec());
}

#[test]
fn refuses_zero_limits_first() {
    let mut r = request();
    r.timeout_ms = 0;
    r.command = "relative".to_string();
    assert_eq!(
        refusal(&r),
        "policy violation: timeout and output limits must be positive"
    );
    let mut r = request();
    r.output_bytes = 0;
    assert_eq!(
        refusal(&r),
        "policy violation: timeout and output limits must be positive"
    );
}

#[test]
fn refuses_relative_or_escaping_commands() {
    for command in ["bin/sh", "/bin/../etc/sh", ""] {
        let mut r = request();
        r.command = command.to_string();
        assert_eq!(
            refusal(&r),
            "policy violation: command must be a normalized absolute path"
        );
    }
    let mut r = request();
    r.command = "/bin//./sh".to_string();
    assert!(validate_spec(&r).is_ok());
}

#[test]
fn refuses_nul_in_command_or_arguments() {
    let mut r = request();
    r.args.push("a\0b".to_string());
    assert_eq!(
        refusal(&r),
        "policy violation: command and arguments may not contain NUL"
    );
    let mut r = request();
    r.command = "/bin/s\0h".to_string();
    assert_eq!(
        refusal(&r),
        "policy violation: command and arguments may not contain NUL"
    );
}

#[test]
fn refuses_a_relative_working_directory() {
    let mut r = request();
    r.cwd = "tmp".to_string();
    assert_eq!(
        refusal(&r),
        "policy violation: working directory must be a normalized absolute path"
    );
}

#[test]
fn refuses_bad_environment_entries() {
    let mut r = request();
    r.env.push(("1BAD".to_string(), "x".to_string()));
    assert_eq!(
        refusal(&r),
        "policy violation: environment variables are invalid or too large"
    );
    let mut r = request();
    r.env.push(("OK".to_string(), "a\0".to_string()));
    assert_eq!(
        refusal(&r),
        "policy violation: environment variables are invalid or too large"
    );
    let mut r = request();
    r.env.push(("BIG".to_string(), "x".repeat(16384 - 3)));
    assert!(validate_spec(&r).is_ok());
    r.env.push(("BIG".to_string(), "x".repeat(16384 - 2)));
    assert_eq!(
        refusal(&r),
        "policy violation: environment variables are invalid or too large"
    );
    let mut r = request();
    r.env = (0..129).map(|i| (format!("V{i}"), String::new())).collect();
    assert_eq!(
        refusal(&r),
        "policy violation: environment variables are invalid or too large"
    );
}

#[test]
fn refuses_undecodable_or_oversized_input() {
    let mut r = request();
    r.stdin_base64 = "not base64!".to_string();
    assert_eq!(refusal(&r), "policy violation: stdin is not valid base64");
    let mut r = request();
    r.input_bytes = 5;
    assert_eq!(refusal(&r), "policy violation: stdin exceeds the input limit");
    r.input_bytes = 6;
    assert!(validate_spec(&r).is_ok());
}

#[test]
fn guest_paths_are_absolute_and_never_climb() {
    assert!(validate_guest_path("/", "cwd").is_ok());
    assert!(validate_guest_path("/a/./b/", "cwd").is_ok());
    let error = validate_guest_path("/a/../b", "cwd").unwrap_err();
    assert_eq!(error.code(), "POLICY_VIOLATION");
    assert_eq!(
        error.describe(),
        "policy violation: cwd must be a normalized absolute path"
    );
    assert!(validate_guest_path("a", "cwd").is_err());
    assert_eq!(default_cwd(), "/");
}

#[test]
fn environment_names_are_portable() {
    assert!(valid_environment_name("_PATH2"));
    assert!(valid_environment_name("a"));
    assert!(!valid_environment_name(""));
    assert!(!valid_environment_name("2A"));
    assert!(!valid_environment_name("A-B"));
    assert!(!valid_environment_name("A=B"));
}

#[test]
fn both_streams_share_one_output_budget() {
    let mut budget = OutputBudget::new(1024);
    assert_eq!(claim_output_bytes(&mut budget, 800), 800);
    assert_eq!(claim_output_bytes(&mut budget, 800), 224);
    assert_eq!(claim_output_bytes(&mut budget, 10), 0);
    assert_eq!(budget.remaining(), 0);
}

#[test]
fn reads_exit_codes_and_signals_from_a_wait_status() {
    assert_eq!(exit_outcome(0), (Some(0), None));
    assert_eq!(exit_outcome(0x0100), (Some(1), None));
    assert_eq!(exit_outcome(9), (None, Some(9)));
    assert_eq!(exit_outcome(0x137f), (None, None));
}

#[test]
fn reports_a_finished_job_with_encoded_streams() {
    let metrics = JobMetrics {
        duration_ms: 12,
        peak_memory_bytes: 4096,
    };
    let result = launch_result(0, false, true, b"sandbox", b"", metrics);
    assert_eq!(result.exit_code, Some(0));
    assert_eq!(result.signal, None);
    assert!(!result.timed_out);
    assert!(result.output_limit_exceeded);
    assert_eq!(result.stdout_base64, "c2FuZGJveA==");
    assert_eq!(result.stderr_base64, "");
    assert!(result.isolation.seccomp && result.isolation.pivot_root);
    assert_eq!(result.metrics, metrics);
}

#[test]
fn names_the_staging_root_and_the_id_map() {
    assert_eq!(
        staging_root_path("job-a", 4321),
        "/tmp/micro-sandbox-job-a-4321"
    );
    assert_eq!(id_map_line(1000), "0 1000 1\n");
    assert_eq!(id_map_line(0), "0 0 1\n");
}

#[test]
fn watching_kills_on_timeout_or_overflow_and_collects_an_ended_job() {
    assert_eq!(watch_step(true, 5000, 50, true), WatchStep::Collect);
    assert_eq!(watch_step(false, 10, 50, false), WatchStep::Wait);
    assert_eq!(
        watch_step(false, 50, 50, false),
        WatchStep::Kill { timed_out: true }
    );
    assert_eq!(
        watch_step(false, 10, 50, true),
        WatchStep::Kill { timed_out: false }
    );
}

fn pair(name: &str, value: &str) -> (String, String) {
    (name.to_string(), value.to_string())
}

#[test]
fn job_variables_override_the_base_environment_in_name_order() {
    let env = vec![pair("LANG", "en"), pair("A", "1"), pair("Z", "2"), pair("A", "3")];
    let merged = guest_environment(&env);
    assert_eq!(
        merged,
        vec![
            pair("A", "3"),
            pair("HOME", "/tmp"),
            pair("LANG", "en"),
            pair(
                "PATH",
                "/usr/local/sbin:/usr/local/bin:/usr/sbin:/usr/bin:/sbin:/bin"
            ),
            pair("Z", "2"),
        ]
    );
    let lines = environment_lines(&merged);
    assert_eq!(lines[0], "A=3");
    assert_eq!(lines[2], "LANG=en");
    assert_eq!(lines.len(), 5);
    assert_eq!(
        environment_lines(&guest_environment(&Vec::new())),
        vec![
            "HOME=/tmp".to_string(),
            "LANG=C.UTF-8".to_string(),
            "PATH=/usr/local/sbin:/usr/local/bin:/usr/sbin:/usr/bin:/sbin:/bin".to_string(),
        ]
    );
}

#[test]
fn encodes_each_padding_case_of_standard_base64() {
    let metrics = JobMetrics {
        duration_ms: 0,
        peak_memory_bytes: 0,
    };
    let two = launch_result(0, false, false, b"ab", b"a", metrics);
    assert_eq!(two.stdout_base64, "YWI=");
    assert_eq!(two.stderr_base64, "YQ==");
    let full = launch_result(0, false, false, &[0xff, 0xfe, 0xfd, 0x00], b"abc", metrics);
    assert_eq!(full.stdout_base64, "//79AA==");
    assert_eq!(full.stderr_base64, "YWJj");
}
