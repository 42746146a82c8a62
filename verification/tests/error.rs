use micro_sandbox_native::error::{ErrorBody, SandboxError};

#[test]
fn every_error_has_a_stable_code_and_text() {
    let cases = [
        (SandboxError::Protocol("bad".into()), "PROTOCOL_ERROR", "protocol error: bad"),
        (
            SandboxError::InvalidCgroupValue("x".into()),
            "CGROUP_ERROR",
            "invalid cgroup value: x",
        ),
        (
            SandboxError::CapacityExceeded,
            "CAPACITY_EXCEEDED",
            "sandbox capacity is exhausted",
        ),
        (
            SandboxError::PolicyViolation("no".into()),
            "POLICY_VIOLATION",
            "policy violation: no",
        ),
        (
            SandboxError::CgroupUnavailable("gone".into()),
            "CGROUP_DELEGATION_REQUIRED",
            "cgroup v2 isolation is unavailable: gone",
        ),
        (SandboxError::Cancelled, "CANCELLED", "job was cancelled"),
    ];
    for (error, code, text) in cases {
        assert_eq!(error.code(), code);
        assert_eq!(error.describe(), text);
        let body = ErrorBody::of(&error);
        assert_eq!(body.code, code);
        assert_eq!(body.message, text);
    }
}

#[test]
fn wrapped_errors_are_internal_and_keep_their_text() {
    let io = SandboxError::from(std::io::Error::new(std::io::ErrorKind::Other, "disk gone"));
    assert_eq!(io.code(), "INTERNAL_ERROR");
    assert_eq!(io.describe(), "I/O error: disk gone");
    let json = serde_json::from_str::<u32>("x").unwrap_err();
    let text = json.to_string();
    let error = SandboxError::from(json);
    assert_eq!(error.code(), "INTERNAL_ERROR");
    assert_eq!(error.describe(), format!("JSON error: {text}"));
}
