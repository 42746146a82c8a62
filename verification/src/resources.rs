use crate::error::{owned, SandboxError};
use crate::scheduler::{sat_sub, Capacity};
use crate::text::{
    chars_equal, chars_of, debug_quoted, debug_str, parse_u64_radix, parse_u64_spec, split_words,
    string_from_chars, trim, trim_chars, words,
};
use vstd::prelude::*;

verus! {

/// What a delegated cgroup reports about its limits and current use.
#[derive(Debug, Clone, Copy, PartialEq, Eq, Structural)]
pub struct ResourceSnapshot {
    pub memory_limit_bytes: Option<u64>,
    pub memory_current_bytes: u64,
    pub cpu_limit_millis: Option<u64>,
    pub pids_limit: Option<u64>,
    pub pids_current: u64,
}

/// The host's own resources, used where the cgroup sets no limit.
#[derive(Debug, Clone, Copy, PartialEq, Eq, Structural)]
pub struct ResourceFallbacks {
    pub memory_bytes: u64,
    pub cpu_millis: u64,
    pub pids: u64,
}

pub open spec fn headroom(limit: Option<u64>, current: u64) -> Option<u64> {
    match limit {
        Some(l) => Some(sat_sub(l, current)),
        None => None,
    }
}

impl ResourceSnapshot {
    pub fn memory_headroom_bytes(self) -> (h: Option<u64>)
        ensures
            h == headroom(self.memory_limit_bytes, self.memory_current_bytes),
    {
        match self.memory_limit_bytes {
            Some(limit) => Some(limit.saturating_sub(self.memory_current_bytes)),
            None => None,
        }
    }

    pub fn pid_headroom(self) -> (h: Option<u64>)
        ensures
            h == headroom(self.pids_limit, self.pids_current),
    {
        match self.pids_limit {
            Some(limit) => Some(limit.saturating_sub(self.pids_current)),
            None => None,
        }
    }
}

/// Four fifths of `amount`, rounded down: the share admission may promise.
pub open spec fn conservative_share(amount: u64) -> u64 {
    ((amount * 4) / 5) as u64
}

fn conservative(amount: u64) -> (share: u64)
    ensures
        share == conservative_share(amount),
{
    let share = amount / 5 * 4 + (amount % 5) * 4 / 5;
    assert(share == (amount * 4) / 5) by (nonlinear_arith)
        requires
            share == amount / 5 * 4 + (amount % 5) * 4 / 5,
    ;
    share
}

pub open spec fn or_fallback(value: Option<u64>, fallback: u64) -> u64 {
    match value {
        Some(v) => v,
        None => fallback,
    }
}

/// The budget that admission may hand out: four fifths of the cgroup's
/// headroom in each dimension, or of the host's resources where the cgroup
/// sets no limit.
pub open spec fn admission_budget(snapshot: ResourceSnapshot, fallbacks: ResourceFallbacks) -> Capacity {
    Capacity {
        memory_bytes: conservative_share(
            or_fallback(
                headroom(snapshot.memory_limit_bytes, snapshot.memory_current_bytes),
                fallbacks.memory_bytes,
            ),
        ),
        cpu_millis: conservative_share(or_fallback(snapshot.cpu_limit_millis, fallbacks.cpu_millis)),
        pids: conservative_share(
            or_fallback(headroom(snapshot.pids_limit, snapshot.pids_current), fallbacks.pids),
        ),
    }
}

/// Admission never promises more than is free: in every dimension the budget
/// stays within the cgroup's headroom (or the host's resources where the
/// cgroup sets no limit), keeping a fifth of it in reserve.
pub proof fn lemma_admission_within_headroom(snapshot: ResourceSnapshot, fallbacks: ResourceFallbacks)
    ensures
        admission_budget(snapshot, fallbacks).memory_bytes * 5 <= or_fallback(
            headroom(snapshot.memory_limit_bytes, snapshot.memory_current_bytes),
            fallbacks.memory_bytes,
        ) * 4,
        admission_budget(snapshot, fallbacks).cpu_millis * 5 <= or_fallback(
            snapshot.cpu_limit_millis,
            fallbacks.cpu_millis,
        ) * 4,
        admission_budget(snapshot, fallbacks).pids * 5 <= or_fallback(
            headroom(snapshot.pids_limit, snapshot.pids_current),
            fallbacks.pids,
        ) * 4,
{
    let m = or_fallback(
        headroom(snapshot.memory_limit_bytes, snapshot.memory_current_bytes),
        fallbacks.memory_bytes,
    );
    let c = or_fallback(snapshot.cpu_limit_millis, fallbacks.cpu_millis);
    let p = or_fallback(headroom(snapshot.pids_limit, snapshot.pids_current), fallbacks.pids);
    lemma_share_bound(m);
    lemma_share_bound(c);
    lemma_share_bound(p);
}

proof fn lemma_share_bound(amount: u64)
    ensures
        conservative_share(amount) * 5 <= amount * 4,
{
    let q = (amount * 4) / 5;
    assert(q * 5 <= amount * 4) by (nonlinear_arith)
        requires
            q == (amount * 4) / 5,
            amount >= 0,
    ;
    assert(q <= u64::MAX) by (nonlinear_arith)
        requires
            q == (amount * 4) / 5,
            amount <= u64::MAX,
    ;
}

pub fn admission_capacity(snapshot: ResourceSnapshot, fallbacks: ResourceFallbacks) -> (c: Capacity)
    ensures
        c == admission_budget(snapshot, fallbacks),
{
    let memory = match snapshot.memory_headroom_bytes() {
        Some(h) => h,
        None => fallbacks.memory_bytes,
    };
    let cpu = match snapshot.cpu_limit_millis {
        Some(c) => c,
        None => fallbacks.cpu_millis,
    };
    let pids = match snapshot.pid_headroom() {
        Some(h) => h,
        None => fallbacks.pids,
    };
    Capacity {
        memory_bytes: conservative(memory),
        cpu_millis: conservative(cpu),
        pids: conservative(pids),
    }
}

/// What a cgroup limit file denotes: `Some(None)` for `max`, `Some(Some(n))`
/// for a number, `None` for anything else; surrounding whitespace is ignored.
pub open spec fn limit_value(text: Seq<char>) -> Option<Option<u64>> {
    let v = trim(text);
    if v == "max"@ {
        Some(None)
    } else {
        match parse_u64_spec(v, 10) {
            Some(n) => Some(Some(n)),
            None => None,
        }
    }
}

/// The message of a rejected limit file; the value appears as `{:?}` prints it.
pub open spec fn limit_error_message(text: Seq<char>) -> Seq<char> {
    "expected non-negative integer or max, got "@ + debug_str(trim(text))
}

pub fn parse_limit(value: &str) -> (out: Result<Option<u64>, SandboxError>)
    ensures
        match out {
            Ok(v) => limit_value(value@) == Some(v),
            Err(e) => limit_value(value@) is None && e is InvalidCgroupValue && crate::error::error_detail(&e)
                == limit_error_message(value@),
        },
{
    let chars = chars_of(value);
    let v = trim_chars(&chars);
    let max = chars_of("max");
    if chars_equal(&v, &max) {
        return Ok(None);
    }
    match parse_u64_radix(&v, 10) {
        Some(n) => Ok(Some(n)),
        None => {
            let mut message = chars_of("expected non-negative integer or max, got ");
            let trimmed = string_from_chars(&v);
            let quoted_text = debug_quoted(trimmed.as_str());
            let mut quoted = chars_of(quoted_text.as_str());
            message.append(&mut quoted);
            Err(SandboxError::InvalidCgroupValue(string_from_chars(&message)))
        },
    }
}

/// What a `cpu.max` file denotes, in millicores: `Ok(None)` for an unlimited
/// quota, or the message of the error that rejects it.
pub open spec fn cpu_max_value(text: Seq<char>) -> Result<Option<u64>, Seq<char>> {
    let fields = words(text);
    if fields.len() == 0 {
        Err("cpu.max is empty"@)
    } else if fields.len() == 1 {
        Err("cpu.max period is missing"@)
    } else {
        match parse_u64_spec(fields[1], 10) {
            None => Err("cpu.max period is invalid"@),
            Some(period) => if period == 0 || fields.len() > 2 {
                Err("cpu.max must contain quota and a non-zero period"@)
            } else if fields[0] == "max"@ {
                Ok(None)
            } else {
                match parse_u64_spec(fields[0], 10) {
                    None => Err("cpu.max quota is invalid"@),
                    Some(quota) => Ok(
                        Some(
                            ((if quota * 1000 <= u64::MAX {
                                quota * 1000
                            } else {
                                u64::MAX as int
                            }) / period as int) as u64,
                        ),
                    ),
                }
            },
        }
    }
}

fn cgroup_value_error(message: &str) -> (e: SandboxError)
    ensures
        e is InvalidCgroupValue,
        crate::error::error_detail(&e) == message@,
{
    SandboxError::InvalidCgroupValue(owned(message))
}

pub fn parse_cpu_max(value: &str) -> (out: Result<Option<u64>, SandboxError>)
    ensures
        match (out, cpu_max_value(value@)) {
            (Ok(v), Ok(w)) => v == w,
            (Err(e), Err(m)) => e is InvalidCgroupValue && crate::error::error_detail(&e) == m,
            _ => false,
        },
{
    let chars = chars_of(value);
    let fields = split_words(&chars);
    let ghost fv = fields@.map_values(|w: Vec<char>| w@);
    assert(fields.len() == fv.len());
    if fields.len() == 0 {
        return Err(cgroup_value_error("cpu.max is empty"));
    }
    if fields.len() == 1 {
        return Err(cgroup_value_error("cpu.max period is missing"));
    }
    assert(fv[1] == fields@[1]@);
    assert(fv[0] == fields@[0]@);
    let period = match parse_u64_radix(&fields[1], 10) {
        Some(p) => p,
        None => return Err(cgroup_value_error("cpu.max period is invalid")),
    };
    if period == 0 || fields.len() > 2 {
        return Err(cgroup_value_error("cpu.max must contain quota and a non-zero period"));
    }
    let max = chars_of("max");
    if chars_equal(&fields[0], &max) {
        return Ok(None);
    }
    let quota = match parse_u64_radix(&fields[0], 10) {
        Some(q) => q,
        None => return Err(cgroup_value_error("cpu.max quota is invalid")),
    };
    let scaled = match quota.checked_mul(1000) {
        Some(v) => v,
        None => u64::MAX,
    };
    Ok(Some(scaled / period))
}

} // verus!
