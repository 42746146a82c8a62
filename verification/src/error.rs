use vstd::prelude::*;

verus! {

#[verifier::external_type_specification]
#[verifier::external_body]
pub struct ExIoError(std::io::Error);

#[verifier::external_type_specification]
#[verifier::external_body]
pub struct ExJsonError(serde_json::Error);

/// Every failure the sandbox reports, each mapped to a stable wire code.
#[derive(Debug)]
pub enum SandboxError {
    Protocol(String),
    InvalidCgroupValue(String),
    CapacityExceeded,
    PolicyViolation(String),
    CgroupUnavailable(String),
    Security(String),
    Cancelled,
    Io(std::io::Error),
    Json(serde_json::Error),
}

impl From<std::io::Error> for SandboxError {
    fn from(error: std::io::Error) -> (r: Self) {
        SandboxError::Io(error)
    }
}

impl vstd::std_specs::convert::FromSpecImpl<std::io::Error> for SandboxError {
    open spec fn obeys_from_spec() -> bool {
        true
    }

    open spec fn from_spec(v: std::io::Error) -> Self {
        SandboxError::Io(v)
    }
}

impl From<serde_json::Error> for SandboxError {
    fn from(error: serde_json::Error) -> (r: Self) {
        SandboxError::Json(error)
    }
}

impl vstd::std_specs::convert::FromSpecImpl<serde_json::Error> for SandboxError {
    open spec fn obeys_from_spec() -> bool {
        true
    }

    open spec fn from_spec(v: serde_json::Error) -> Self {
        SandboxError::Json(v)
    }
}

/// The stable code of an error, as the protocol reports it.
pub open spec fn error_code(error: &SandboxError) -> Seq<char> {
    match error {
        SandboxError::Protocol(_) => "PROTOCOL_ERROR"@,
        SandboxError::InvalidCgroupValue(_) => "CGROUP_ERROR"@,
        SandboxError::CapacityExceeded => "CAPACITY_EXCEEDED"@,
        SandboxError::PolicyViolation(_) => "POLICY_VIOLATION"@,
        SandboxError::CgroupUnavailable(_) => "CGROUP_DELEGATION_REQUIRED"@,
        SandboxError::Security(_) => "SECURITY_ERROR"@,
        SandboxError::Cancelled => "CANCELLED"@,
        SandboxError::Io(_) | SandboxError::Json(_) => "INTERNAL_ERROR"@,
    }
}

/// The text that a message-carrying error holds; empty for the others.
pub open spec fn error_detail(error: &SandboxError) -> Seq<char> {
    match error {
        SandboxError::Protocol(m) => m@,
        SandboxError::InvalidCgroupValue(m) => m@,
        SandboxError::PolicyViolation(m) => m@,
        SandboxError::CgroupUnavailable(m) => m@,
        SandboxError::Security(m) => m@,
        _ => Seq::empty(),
    }
}

/// The fixed text that starts an error's description.
pub open spec fn error_prefix(error: &SandboxError) -> Seq<char> {
    match error {
        SandboxError::Protocol(_) => "protocol error: "@,
        SandboxError::InvalidCgroupValue(_) => "invalid cgroup value: "@,
        SandboxError::CapacityExceeded => "sandbox capacity is exhausted"@,
        SandboxError::PolicyViolation(_) => "policy violation: "@,
        SandboxError::CgroupUnavailable(_) => "cgroup v2 isolation is unavailable: "@,
        SandboxError::Security(_) => "security violation: "@,
        SandboxError::Cancelled => "job was cancelled"@,
        SandboxError::Io(_) => "I/O error: "@,
        SandboxError::Json(_) => "JSON error: "@,
    }
}

/// `ToString::to_string` on an I/O error. What text comes back is left
/// unsaid: it is the operating system's message, which nothing documents as
/// the same in every process.
#[verifier::external_body]
fn io_error_text(e: &std::io::Error) -> (text: String) {
    e.to_string()
}

/// `ToString::to_string` on a JSON error. What text comes back is left
/// unsaid: for an I/O failure it forwards to the operating system's message.
#[verifier::external_body]
fn json_error_text(e: &serde_json::Error) -> (text: String) {
    e.to_string()
}

fn joined(prefix: &str, rest: &str) -> (out: String)
    ensures
        out@ == prefix@ + rest@,
{
    let mut chars = crate::text::chars_of(prefix);
    let mut tail = crate::text::chars_of(rest);
    chars.append(&mut tail);
    crate::text::string_from_chars(&chars)
}

/// The body of a failed response: the error's stable code and its text.
#[derive(Debug)]
pub struct ErrorBody {
    pub code: &'static str,
    pub message: String,
}

impl ErrorBody {
    pub fn of(error: &SandboxError) -> (body: Self)
        ensures
            body.code@ == error_code(error),
            body.message@.len() >= error_prefix(error).len(),
            body.message@.take(error_prefix(error).len() as int) == error_prefix(error),
            !(error is Io || error is Json) ==> body.message@ == error_prefix(error) + error_detail(
                error,
            ),
    {
        ErrorBody { code: error.code(), message: error.describe() }
    }
}

/// An owned copy of a message.
pub fn owned(text: &str) -> (out: String)
    ensures
        out@ == text@,
{
    text.to_owned()
}

/// A policy violation with the given message.
pub fn policy(message: &str) -> (e: SandboxError)
    ensures
        e is PolicyViolation,
        error_detail(&e) == message@,
{
    SandboxError::PolicyViolation(owned(message))
}

/// A protocol error with the given message.
pub fn protocol(message: &str) -> (e: SandboxError)
    ensures
        e is Protocol,
        error_detail(&e) == message@,
{
    SandboxError::Protocol(owned(message))
}

/// A security error with the given message.
pub fn security(message: &str) -> (e: SandboxError)
    ensures
        e is Security,
        error_detail(&e) == message@,
{
    SandboxError::Security(owned(message))
}

impl SandboxError {
    pub fn code(&self) -> (code: &'static str)
        ensures
            code@ == error_code(self),
    {
        match self {
            SandboxError::Protocol(_) => "PROTOCOL_ERROR",
            SandboxError::InvalidCgroupValue(_) => "CGROUP_ERROR",
            SandboxError::CapacityExceeded => "CAPACITY_EXCEEDED",
            SandboxError::PolicyViolation(_) => "POLICY_VIOLATION",
            SandboxError::CgroupUnavailable(_) => "CGROUP_DELEGATION_REQUIRED",
            SandboxError::Security(_) => "SECURITY_ERROR",
            SandboxError::Cancelled => "CANCELLED",
            SandboxError::Io(_) | SandboxError::Json(_) => "INTERNAL_ERROR",
        }
    }

    /// The human-readable text of the error, as its `Display` would print it.
    pub fn describe(&self) -> (text: String)
        ensures
            text@.len() >= error_prefix(self).len(),
            text@.take(error_prefix(self).len() as int) == error_prefix(self),
            !(self is Io || self is Json) ==> text@ == error_prefix(self) + error_detail(self),
    {
        match self {
            SandboxError::Protocol(m) => joined("protocol error: ", m.as_str()),
            SandboxError::InvalidCgroupValue(m) => joined("invalid cgroup value: ", m.as_str()),
            SandboxError::CapacityExceeded => {
                let r = owned("sandbox capacity is exhausted");
                assert(r@ =~= "sandbox capacity is exhausted"@ + Seq::<char>::empty());
                r
            },
            SandboxError::PolicyViolation(m) => joined("policy violation: ", m.as_str()),
            SandboxError::CgroupUnavailable(m) => joined(
                "cgroup v2 isolation is unavailable: ",
                m.as_str(),
            ),
            SandboxError::Security(m) => joined("security violation: ", m.as_str()),
            SandboxError::Cancelled => {
                let r = owned("job was cancelled");
                assert(r@ =~= "job was cancelled"@ + Seq::<char>::empty());
                r
            },
            SandboxError::Io(e) => {
                let inner = io_error_text(e);
                joined("I/O error: ", inner.as_str())
            },
            SandboxError::Json(e) => {
                let inner = json_error_text(e);
                joined("JSON error: ", inner.as_str())
            },
        }
    }
}

} // verus!
