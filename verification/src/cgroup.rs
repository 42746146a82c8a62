use crate::error::{error_detail, policy, SandboxError};
use crate::text::{
    chars_of, decimal, decimal_chars, lemma_parse_decimal, parse_u64_spec,
    string_from_chars,
};
use vstd::prelude::*;

verus! {

/// Whether a cgroup is the kernel's or a plain directory standing in for it.
#[derive(Debug, Clone, Copy, PartialEq, Eq, Structural)]
pub enum CgroupMode {
    Kernel,
    Emulated,
}

/// The CPU accounting period written to `cpu.max`, in microseconds.
pub const PERIOD_MICROS: u64 = 100000;

/// The longest job ID, in bytes.
pub const MAX_JOB_ID_BYTES: usize = 64;

pub open spec fn job_id_char(c: char) -> bool {
    ('0' <= c <= '9') || ('A' <= c <= 'Z') || ('a' <= c <= 'z') || c == '-' || c == '_'
}

/// A job ID names one directory below the delegated root and nothing else:
/// one to 64 ASCII letters, digits, `-` and `_`.
pub open spec fn job_id_ok(id: Seq<char>) -> bool {
    &&& 0 < id.len() <= MAX_JOB_ID_BYTES
    &&& forall|i: int| 0 <= i < id.len() ==> job_id_char(#[trigger] id[i])
}

pub fn validate_job_id(job_id: &str) -> (out: Result<(), SandboxError>)
    ensures
        match out {
            Ok(()) => job_id_ok(job_id@),
            Err(e) => !job_id_ok(job_id@) && e is PolicyViolation && error_detail(&e)
                == "invalid cgroup job ID"@,
        },
{
    let chars = chars_of(job_id);
    if chars.len() == 0 || chars.len() > MAX_JOB_ID_BYTES {
        return Err(policy("invalid cgroup job ID"));
    }
    let mut i: usize = 0;
    while i < chars.len()
        invariant
            i <= chars.len(),
            chars@ == job_id@,
            forall|j: int| 0 <= j < i ==> job_id_char(#[trigger] chars@[j]),
        decreases chars.len() - i,
    {
        let c = chars[i];
        if !(('0' <= c && c <= '9') || ('A' <= c && c <= 'Z') || ('a' <= c && c <= 'z') || c
            == '-' || c == '_') {
            return Err(policy("invalid cgroup job ID"));
        }
        i += 1;
    }
    Ok(())
}

/// Memory and process limits must be positive, and the CPU share positive
/// and finite (which the caller decides, as the share is a float).
pub fn validate_limits(memory_mb: u64, pids: u64, cpu_positive_and_finite: bool) -> (out: Result<
    (),
    SandboxError,
>)
    ensures
        match out {
            Ok(()) => memory_mb > 0 && pids > 0 && cpu_positive_and_finite,
            Err(e) => !(memory_mb > 0 && pids > 0 && cpu_positive_and_finite) && e is PolicyViolation
                && error_detail(&e) == "cgroup limits must be positive and finite"@,
        },
{
    if memory_mb == 0 || pids == 0 || !cpu_positive_and_finite {
        return Err(policy("cgroup limits must be positive and finite"));
    }
    Ok(())
}

/// One mebibyte.
pub const MIB: u64 = 1048576;

/// The control files of a job's cgroup and what each receives: a memory
/// ceiling in bytes, no swap, the whole group killed on OOM, a process cap
/// and a CPU quota per period; each value ends with a newline.
pub open spec fn cgroup_files(memory_bytes: nat, pids: u64, cpu_quota: u64) -> Seq<(Seq<char>, Seq<char>)> {
    seq![
        ("memory.max"@, decimal(memory_bytes).push('\n')),
        ("memory.swap.max"@, "0\n"@),
        ("memory.oom.group"@, "1\n"@),
        ("pids.max"@, decimal(pids as nat).push('\n')),
        ("cpu.max"@, decimal(cpu_quota as nat) + " "@ + decimal(PERIOD_MICROS as nat).push('\n')),
    ]
}

/// Every number a job's cgroup is given reads back as written: the memory
/// ceiling and the process cap are each one decimal number then a newline;
/// the CPU line is the quota's own digits (never `max`), a space, the
/// period's digits, then a newline; swap is off and the whole group is
/// killed on OOM.
pub proof fn lemma_cgroup_values_read_back(memory_bytes: u64, pids: u64, cpu_quota: u64)
    ensures
        ({
            let files = cgroup_files(memory_bytes as nat, pids, cpu_quota);
            let cpu = files[4].1;
            let k = decimal(cpu_quota as nat).len() as int;
            &&& files.len() == 5
            &&& files[0].0 == "memory.max"@ && files[3].0 == "pids.max"@ && files[4].0 == "cpu.max"@
            &&& files[0].1.last() == '\n' && parse_u64_spec(files[0].1.drop_last(), 10) == Some(
                memory_bytes,
            )
            &&& files[1].1 == "0\n"@ && files[2].1 == "1\n"@
            &&& files[3].1.last() == '\n' && parse_u64_spec(files[3].1.drop_last(), 10) == Some(pids)
            &&& 0 < k < cpu.len() && cpu[k] == ' ' && cpu.last() == '\n'
            &&& parse_u64_spec(cpu.take(k), 10) == Some(cpu_quota)
            &&& parse_u64_spec(cpu.subrange(k + 1, cpu.len() - 1), 10) == Some(PERIOD_MICROS)
        }),
{
    let files = cgroup_files(memory_bytes as nat, pids, cpu_quota);
    lemma_parse_decimal(memory_bytes);
    lemma_parse_decimal(pids);
    lemma_parse_decimal(cpu_quota);
    lemma_parse_decimal(PERIOD_MICROS);
    crate::text::lemma_decimal_digits(cpu_quota as nat);
    reveal_strlit(" ");
    let dq = decimal(cpu_quota as nat);
    let dp = decimal(PERIOD_MICROS as nat);
    let cpu = files[4].1;
    assert(cpu =~= dq + " "@ + dp.push('\n'));
    assert(files[0].1.drop_last() =~= decimal(memory_bytes as nat));
    assert(files[3].1.drop_last() =~= decimal(pids as nat));
    assert(cpu.take(dq.len() as int) =~= dq);
    assert(cpu.subrange(dq.len() as int + 1, cpu.len() - 1) =~= dp);
}

pub open spec fn settings_view(settings: Seq<(String, String)>) -> Seq<(Seq<char>, Seq<char>)> {
    settings.map_values(|p: (String, String)| (p.0@, p.1@))
}

fn line_of(value: u64) -> (out: String)
    ensures
        out@ == decimal(value as nat).push('\n'),
{
    let mut chars = decimal_chars(value);
    chars.push('\n');
    string_from_chars(&chars)
}

/// What a job's cgroup is configured with, in writing order; refuses a
/// memory limit whose byte count overflows.
pub fn cgroup_settings(memory_mb: u64, pids: u64, cpu_quota: u64) -> (out: Result<
    Vec<(String, String)>,
    SandboxError,
>)
    ensures
        match out {
            Ok(settings) => memory_mb * MIB <= u64::MAX && settings_view(settings@)
                == cgroup_files((memory_mb * MIB) as nat, pids, cpu_quota),
            Err(e) => memory_mb * MIB > u64::MAX && e is PolicyViolation && error_detail(&e)
                == "memory limit overflows"@,
        },
{
    let memory_bytes = match memory_mb.checked_mul(MIB) {
        Some(b) => b,
        None => return Err(policy("memory limit overflows")),
    };
    let mut cpu = decimal_chars(cpu_quota);
    let mut space = chars_of(" ");
    cpu.append(&mut space);
    let mut period = decimal_chars(PERIOD_MICROS);
    cpu.append(&mut period);
    cpu.push('\n');
    let mut settings: Vec<(String, String)> = Vec::new();
    settings.push((crate::error::owned("memory.max"), line_of(memory_bytes)));
    settings.push((crate::error::owned("memory.swap.max"), crate::error::owned("0\n")));
    settings.push((crate::error::owned("memory.oom.group"), crate::error::owned("1\n")));
    settings.push((crate::error::owned("pids.max"), line_of(pids)));
    settings.push((crate::error::owned("cpu.max"), string_from_chars(&cpu)));
    assert(settings_view(settings@) =~= cgroup_files((memory_mb * MIB) as nat, pids, cpu_quota));
    Ok(settings)
}

/// The line that moves a process into a cgroup (`cgroup.procs`); the PID
/// must be positive.
pub fn procs_line(pid: i32) -> (out: Result<String, SandboxError>)
    ensures
        match out {
            Ok(line) => pid > 0 && line@ == decimal(pid as nat).push('\n'),
            Err(e) => pid <= 0 && e is PolicyViolation && error_detail(&e)
                == "PID must be positive"@,
        },
{
    if pid <= 0 {
        return Err(policy("PID must be positive"));
    }
    Ok(line_of(pid as u64))
}

} // verus!
