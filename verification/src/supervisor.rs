use crate::cgroup::MIB;
use crate::error::{error_detail, policy, protocol, security, SandboxError};
use crate::protocol::{bounded_text, diagnostic_text};
use crate::scheduler::{
    accounts_for, difference, fits, lemma_totals_nonnegative, lemma_totals_remove,
    release_outcome, reserve_outcome, sum, sum_representable, Capacity, Reservation, Scheduler,
};
use crate::text::{
    chars_equal, chars_of, decimal, decimal_chars, lemma_decimal_digits, lemma_decimal_lacks,
    lemma_decimal_len_u64, lemma_parse_decimal, lemma_split_three, parse_u64_radix,
    parse_u64_spec, slice_chars, split_chars, split_on, split_words, strip_prefix,
    strip_prefix_chars, string_from_chars, words,
};
use vstd::prelude::*;

verus! {

/// The most jobs one supervisor runs at a time.
pub const MAX_ACTIVE_JOBS: usize = 64;

/// The most standard input, and the most combined output, a job may carry
/// through the protocol.
pub const MAX_TRANSPORT_BYTES: u64 = 524288;

/// What the supervisor itself spends on each job, on top of its limits.
pub open spec fn job_overhead_spec() -> Capacity {
    Capacity { memory_bytes: 16777216, cpu_millis: 25, pids: 3 }
}

pub fn job_overhead() -> (c: Capacity)
    ensures
        c == job_overhead_spec(),
{
    Capacity { memory_bytes: 16777216, cpu_millis: 25, pids: 3 }
}

/// The owner and the request that a supervisor-made job ID names:
/// `job-<pid>-<start time>-<request>`.
pub open spec fn job_owner_spec(job_id: Seq<char>) -> Option<(u32, u64)> {
    match strip_prefix(job_id, "job-"@) {
        None => None,
        Some(rest) => {
            let f = split_on(rest, '-');
            if f.len() == 3 && parse_u64_spec(f[0], 10) is Some && parse_u64_spec(f[0], 10)->0
                <= u32::MAX && parse_u64_spec(f[1], 10) is Some && parse_u64_spec(f[2], 10) is Some {
                Some((parse_u64_spec(f[0], 10)->0 as u32, parse_u64_spec(f[1], 10)->0))
            } else {
                None
            }
        },
    }
}

pub fn job_owner(job_id: &str) -> (out: Option<(u32, u64)>)
    ensures
        out == job_owner_spec(job_id@),
{
    let chars = chars_of(job_id);
    let prefix = chars_of("job-");
    let rest = match strip_prefix_chars(&chars, &prefix) {
        Some(r) => r,
        None => return None,
    };
    let fields = split_chars(&rest, '-');
    let ghost f = fields@.map_values(|w: Vec<char>| w@);
    assert(f.len() == fields.len());
    if fields.len() != 3 {
        return None;
    }
    assert(f[0] == fields@[0]@ && f[1] == fields@[1]@ && f[2] == fields@[2]@);
    let pid = match parse_u64_radix(&fields[0], 10) {
        Some(p) => p,
        None => return None,
    };
    if pid > 4294967295u64 {
        return None;
    }
    let start = match parse_u64_radix(&fields[1], 10) {
        Some(s) => s,
        None => return None,
    };
    if parse_u64_radix(&fields[2], 10).is_none() {
        return None;
    }
    Some((pid as u32, start))
}

/// The token that names this supervisor among live ones: its PID and the
/// start time of its process.
pub open spec fn owner_token_spec(pid: u32, start: u64) -> Seq<char> {
    decimal(pid as nat) + "-"@ + decimal(start as nat)
}

pub fn owner_token(pid: u32, start: u64) -> (token: String)
    ensures
        token@ == owner_token_spec(pid, start),
{
    let mut out = decimal_chars(pid as u64);
    let mut dash = chars_of("-");
    out.append(&mut dash);
    let mut digits = decimal_chars(start);
    out.append(&mut digits);
    string_from_chars(&out)
}

/// The job ID a supervisor gives a request: its own token and the request ID;
/// nothing the caller sends becomes part of a path.
pub open spec fn job_id_spec(owner: Seq<char>, request_id: u64) -> Seq<char> {
    "job-"@ + owner + "-"@ + decimal(request_id as nat)
}

pub fn supervisor_job_id(owner: &str, request_id: u64) -> (id: String)
    ensures
        id@ == job_id_spec(owner@, request_id),
{
    let mut out = chars_of("job-");
    let mut token = chars_of(owner);
    out.append(&mut token);
    let mut dash = chars_of("-");
    out.append(&mut dash);
    let mut digits = decimal_chars(request_id);
    out.append(&mut digits);
    string_from_chars(&out)
}

/// A job ID that a supervisor made names that supervisor: its PID and start
/// time read back from the ID, which is what lets startup reconciliation
/// tell the jobs of live supervisors from stale ones.
pub proof fn lemma_job_owner_reads_back(pid: u32, start: u64, request_id: u64)
    ensures
        job_owner_spec(job_id_spec(owner_token_spec(pid, start), request_id)) == Some((pid, start)),
{
    let dp = decimal(pid as nat);
    let ds = decimal(start as nat);
    let dr = decimal(request_id as nat);
    lemma_decimal_lacks(pid as nat, '-');
    lemma_decimal_lacks(start as nat, '-');
    lemma_decimal_lacks(request_id as nat, '-');
    reveal_strlit("job-");
    reveal_strlit("-");
    let id = job_id_spec(owner_token_spec(pid, start), request_id);
    let rest = dp.push('-') + ds.push('-') + dr;
    assert(id =~= "job-"@ + rest);
    assert(id.take(4) =~= "job-"@);
    assert(id.skip(4) =~= rest);
    assert(strip_prefix(id, "job-"@) == Some(rest));
    lemma_split_three(dp, ds, dr, '-');
    lemma_parse_decimal(pid as u64);
    lemma_parse_decimal(start);
    lemma_parse_decimal(request_id);
}

/// What startup does with a cgroup it finds below the delegated root.
#[derive(Debug, Clone, Copy, PartialEq, Eq, Structural)]
pub enum Reconcile {
    /// The name is no supervisor's job ID: leave it alone.
    Ignore,
    /// The supervisor that made it is still running: keep it.
    Keep,
    /// Its supervisor is gone: remove it.
    Remove,
}

/// A cgroup named by a supervisor is stale unless the process with the
/// supervisor's PID is running and started when the name says;
/// `owner_start_now` is the start time of that process, if there is one.
pub open spec fn reconcile_spec(job_id: Seq<char>, owner_start_now: Option<u64>) -> Reconcile {
    match job_owner_spec(job_id) {
        None => Reconcile::Ignore,
        Some((_, start)) => if owner_start_now == Some(start) {
            Reconcile::Keep
        } else {
            Reconcile::Remove
        },
    }
}

pub fn reconcile_cgroup(job_id: &str, owner_start_now: Option<u64>) -> (r: Reconcile)
    ensures
        r == reconcile_spec(job_id@, owner_start_now),
{
    match job_owner(job_id) {
        None => Reconcile::Ignore,
        Some((_, start)) => if owner_start_now == Some(start) {
            Reconcile::Keep
        } else {
            Reconcile::Remove
        },
    }
}

/// Startup reconciliation spares the jobs of every live supervisor: a job
/// ID made by a supervisor whose process still runs with the same start
/// time is kept, and once that process is gone (or its PID names another
/// process) the job is removed.
pub proof fn lemma_reconcile_spares_live_owners(pid: u32, start: u64, request_id: u64, now: Option<u64>)
    ensures
        reconcile_spec(job_id_spec(owner_token_spec(pid, start), request_id), now) == if now == Some(
            start,
        ) {
            Reconcile::Keep
        } else {
            Reconcile::Remove
        },
{
    lemma_job_owner_reads_back(pid, start, request_id);
}

/// The job IDs a supervisor makes are always usable cgroup names: `job-`,
/// digits and dashes, at most 56 characters.
pub proof fn lemma_supervisor_job_ids_are_valid(pid: u32, start: u64, request_id: u64)
    ensures
        crate::cgroup::job_id_ok(job_id_spec(owner_token_spec(pid, start), request_id)),
        job_id_spec(owner_token_spec(pid, start), request_id).len() <= 56,
{
    let dp = decimal(pid as nat);
    let ds = decimal(start as nat);
    let dr = decimal(request_id as nat);
    lemma_decimal_len_u64(pid as u64);
    lemma_decimal_len_u64(start);
    lemma_decimal_len_u64(request_id);
    lemma_decimal_digits(pid as nat);
    lemma_decimal_digits(start as nat);
    lemma_decimal_digits(request_id as nat);
    reveal_strlit("job-");
    reveal_strlit("-");
    let id = job_id_spec(owner_token_spec(pid, start), request_id);
    let head = seq!['j', 'o', 'b', '-'];
    assert("job-"@ =~= head);
    assert(id =~= head + dp + seq!['-'] + ds + seq!['-'] + dr);
    let a = 4 + dp.len();
    let b = a + 1 + ds.len();
    assert forall|i: int| 0 <= i < id.len() implies crate::cgroup::job_id_char(#[trigger] id[i]) by {
        if i < 4 {
            assert(id[i] == head[i]);
        } else if i < a {
            assert(id[i] == dp[i - 4]);
        } else if i == a {
            assert(id[i] == '-');
        } else if i < b {
            assert(id[i] == ds[i - a - 1]);
        } else if i == b {
            assert(id[i] == '-');
        } else {
            assert(id[i] == dr[i - b - 1]);
        }
    }
}

/// The index of the last `c` in `s`.
pub open spec fn last_index_of(s: Seq<char>, c: char) -> Option<int> {
    if exists|i: int| 0 <= i < s.len() && s[i] == c {
        Some(choose|i: int| 0 <= i < s.len() && s[i] == c && forall|j: int| i < j < s.len() ==> s[j] != c)
    } else {
        None
    }
}

fn find_last(s: &Vec<char>, c: char) -> (out: Option<usize>)
    ensures
        match out {
            Some(i) => i < s@.len() && last_index_of(s@, c) == Some(i as int),
            None => last_index_of(s@, c) is None,
        },
{
    let mut i = s.len();
    while i > 0
        invariant
            i <= s.len(),
            forall|j: int| i <= j < s.len() ==> s@[j] != c,
        decreases i,
    {
        if s[i - 1] == c {
            proof {
                let k = choose|k: int|
                    0 <= k < s@.len() && s@[k] == c && forall|j: int| k < j < s@.len() ==> s@[j] != c;
                assert(0 <= k < s@.len() && s@[k] == c && forall|j: int| k < j < s@.len() ==> s@[j] != c);
                if k < i - 1 {
                    assert(s@[i - 1] != c);
                }
                if k > i - 1 {
                    assert(s@[k] != c);
                }
            }
            return Some(i - 1);
        }
        i -= 1;
    }
    None
}

/// A process's start time, the twentieth field after the command name in
/// its `stat` record, or the message that says why it cannot be read.
pub open spec fn start_time_of(stat: Seq<char>, pid: u32) -> Result<u64, Seq<char>> {
    match last_index_of(stat, ')') {
        None => Err("process "@ + decimal(pid as nat) + " has an invalid stat record"@),
        Some(k) => {
            let fields = words(stat.skip(k + 1));
            if fields.len() <= 19 {
                Err("process "@ + decimal(pid as nat) + " start time is missing"@)
            } else {
                match parse_u64_spec(fields[19], 10) {
                    Some(v) => Ok(v),
                    None => Err("process "@ + decimal(pid as nat) + " start time is invalid"@),
                }
            }
        },
    }
}

fn process_error(pid: u32, tail: &str) -> (e: SandboxError)
    ensures
        e is Security,
        error_detail(&e) == "process "@ + decimal(pid as nat) + tail@,
{
    let mut out = chars_of("process ");
    let mut digits = decimal_chars(pid as u64);
    out.append(&mut digits);
    let mut rest = chars_of(tail);
    out.append(&mut rest);
    SandboxError::Security(string_from_chars(&out))
}

pub fn parse_start_time(stat: &str, pid: u32) -> (out: Result<u64, SandboxError>)
    ensures
        match (out, start_time_of(stat@, pid)) {
            (Ok(v), Ok(w)) => v == w,
            (Err(e), Err(m)) => e is Security && error_detail(&e) == m,
            _ => false,
        },
{
    let chars = chars_of(stat);
    let k = match find_last(&chars, ')') {
        Some(k) => k,
        None => return Err(process_error(pid, " has an invalid stat record")),
    };
    let after = slice_chars(&chars, k + 1, chars.len());
    assert(after@ =~= stat@.skip(k + 1));
    let fields = split_words(&after);
    let ghost f = fields@.map_values(|w: Vec<char>| w@);
    assert(f.len() == fields.len());
    if fields.len() <= 19 {
        return Err(process_error(pid, " start time is missing"));
    }
    assert(f[19] == fields@[19]@);
    match parse_u64_radix(&fields[19], 10) {
        Some(v) => Ok(v),
        None => Err(process_error(pid, " start time is invalid")),
    }
}

/// What a job's limits ask of the scheduler: memory in bytes, CPU in
/// millicores (the caller rounds the share up, or reports `None` when the
/// share is not positive and finite) and processes.
pub fn resource_request(memory_mb: u64, cpu_millis: Option<u64>, pids: u64) -> (out: Result<
    Capacity,
    SandboxError,
>)
    ensures
        match out {
            Ok(c) => cpu_millis == Some(c.cpu_millis) && c.memory_bytes == memory_mb * MIB
                && c.pids == pids,
            Err(e) => e is PolicyViolation && if cpu_millis is None {
                error_detail(&e) == "CPU limit must be positive and finite"@
            } else {
                memory_mb * MIB > u64::MAX && error_detail(&e) == "memory limit overflows"@
            },
        },
{
    let cpu = match cpu_millis {
        Some(c) => c,
        None => return Err(policy("CPU limit must be positive and finite")),
    };
    let memory_bytes = match memory_mb.checked_mul(MIB) {
        Some(m) => m,
        None => return Err(policy("memory limit overflows")),
    };
    Ok(Capacity { memory_bytes, cpu_millis: cpu, pids })
}

/// Standard input and combined output must fit the protocol's transport
/// bound, so that a job's result always fits one frame.
pub fn validate_transport_bounds(input_bytes: u64, output_bytes: u64) -> (out: Result<
    (),
    SandboxError,
>)
    ensures
        match out {
            Ok(()) => input_bytes <= MAX_TRANSPORT_BYTES && output_bytes <= MAX_TRANSPORT_BYTES,
            Err(e) => e is PolicyViolation && if input_bytes > MAX_TRANSPORT_BYTES {
                error_detail(&e) == "input limit exceeds the 512 KiB transport bound"@
            } else {
                output_bytes > MAX_TRANSPORT_BYTES && error_detail(&e)
                    == "output limit exceeds the 512 KiB transport bound"@
            },
        },
{
    if input_bytes > MAX_TRANSPORT_BYTES {
        return Err(policy("input limit exceeds the 512 KiB transport bound"));
    }
    if output_bytes > MAX_TRANSPORT_BYTES {
        return Err(policy("output limit exceeds the 512 KiB transport bound"));
    }
    Ok(())
}

/// The error that reports a launcher which exited unsuccessfully, with the
/// end of what it wrote to its error stream.
pub fn launcher_failure(stderr: &[u8]) -> (e: SandboxError)
    ensures
        e is Security,
        error_detail(&e) == "launcher failed: "@ + diagnostic_text(stderr@),
{
    let mut out = chars_of("launcher failed: ");
    let text = bounded_text(stderr);
    let mut rest = chars_of(text.as_str());
    out.append(&mut rest);
    SandboxError::Security(string_from_chars(&out))
}


/// One job the supervisor runs, and the capacity it holds.
pub struct ActiveJob {
    request_id: u64,
    job_id: String,
    reservation: Reservation,
}

/// What the supervisor answers to one request.
pub enum Decision {
    /// Report readiness: how many jobs run and what capacity is free.
    Health { active_jobs: usize, available: Capacity },
    /// Answer with this failure.
    Refuse(SandboxError),
    /// Start the job the request describes.
    Start,
    /// Kill the job of this request; its answer will say it was cancelled.
    Kill(u64),
    /// Stop: kill these jobs, then answer once all of them have ended.
    Shutdown(Vec<u64>),
    /// Nothing to do.
    Ignore,
}

/// What the main loop does next.
#[derive(Debug, Clone, Copy, PartialEq, Eq, Structural)]
pub enum LoopStep {
    /// Answer the shutdown request with this ID as closed, then stop.
    Closed(u64),
    /// Stop: the input ended and no job is left.
    Exit,
    /// Keep serving.
    Continue,
}

/// How the supervisor answers a job whose launcher ended.
#[derive(Debug, Clone, Copy, PartialEq, Eq, Structural)]
pub enum JobAnswer {
    /// The job was cancelled: answer so, whatever it produced.
    Cancelled,
    /// Answer with the result the launcher printed.
    Report,
    /// The launcher failed: answer with the end of its error stream.
    LauncherFailed,
    /// Waiting for the launcher failed.
    WaitFailed,
}

/// A cancelled job is answered as cancelled; otherwise the launcher's exit
/// decides: success reports its result, failure reports its diagnostics.
pub open spec fn job_answer_spec(cancelled: bool, waited: bool, succeeded: bool) -> JobAnswer {
    if cancelled {
        JobAnswer::Cancelled
    } else if !waited {
        JobAnswer::WaitFailed
    } else if succeeded {
        JobAnswer::Report
    } else {
        JobAnswer::LauncherFailed
    }
}

pub fn job_answer(cancelled: bool, waited: bool, succeeded: bool) -> (a: JobAnswer)
    ensures
        a == job_answer_spec(cancelled, waited, succeeded),
{
    if cancelled {
        JobAnswer::Cancelled
    } else if !waited {
        JobAnswer::WaitFailed
    } else if succeeded {
        JobAnswer::Report
    } else {
        JobAnswer::LauncherFailed
    }
}

/// A job whose request was cancelled is answered as cancelled, however its
/// launcher ended: killed (so unsuccessful), successful, or not even waited
/// for. A job that was not cancelled is never answered as cancelled.
pub proof fn lemma_cancelled_job_is_answered_cancelled(cancelled: bool, waited: bool, succeeded: bool)
    ensures
        cancelled ==> job_answer_spec(cancelled, waited, succeeded) == JobAnswer::Cancelled,
        !cancelled ==> job_answer_spec(cancelled, waited, succeeded) != JobAnswer::Cancelled,
        !cancelled && waited && succeeded ==> job_answer_spec(cancelled, waited, succeeded)
            == JobAnswer::Report,
        !cancelled && waited && !succeeded ==> job_answer_spec(cancelled, waited, succeeded)
            == JobAnswer::LauncherFailed,
{
}

/// What remains of a job that ended.
pub struct FinishedJob {
    pub job_id: String,
    pub cancelled: bool,
}

/// The kinds of requests, by their `type`.
pub open spec fn kind_is(kind: Seq<char>, name: Seq<char>) -> bool {
    kind == name
}

/// The supervisor's bookkeeping: the jobs it runs, the capacity they hold,
/// which of them were cancelled, and whether it is shutting down. Jobs are
/// kept in admission order, with each request ID at most once: the kill
/// lists of a shutdown and of the end of input are stated in that order,
/// which a hashed map, walked in a per-process order, could not give.
pub struct Supervisor {
    scheduler: Scheduler,
    owner: String,
    active: Vec<ActiveJob>,
    cancelled: Vec<u64>,
    shutdown_id: Option<u64>,
    input_closed: bool,
}

impl Supervisor {
    /// The active job IDs, in admission order.
    pub closed spec fn active_ids(&self) -> Seq<u64> {
        self.active@.map_values(|j: ActiveJob| j.request_id)
    }

    /// The capacity each active job holds, in admission order.
    pub closed spec fn active_requests(&self) -> Seq<Capacity> {
        self.active@.map_values(|j: ActiveJob| j.reservation.request())
    }

    pub closed spec fn active_job_ids(&self) -> Seq<Seq<char>> {
        self.active@.map_values(|j: ActiveJob| j.job_id@)
    }

    pub closed spec fn cancelled_ids(&self) -> Seq<u64> {
        self.cancelled@
    }

    pub closed spec fn shutdown_requested(&self) -> Option<u64> {
        self.shutdown_id
    }

    pub closed spec fn input_is_closed(&self) -> bool {
        self.input_closed
    }

    pub closed spec fn ledger(&self) -> crate::scheduler::SchedulerState {
        self.scheduler.state()
    }

    pub closed spec fn owner_token(&self) -> Seq<char> {
        self.owner@
    }

    /// The bookkeeping is consistent: job IDs are unique and at most the
    /// maximum, the cancelled jobs are active ones, and the ledger reserves
    /// exactly what the active jobs hold.
    pub closed spec fn consistent(&self) -> bool {
        &&& self.active_ids().no_duplicates()
        &&& self.active@.len() <= MAX_ACTIVE_JOBS
        &&& self.cancelled@.no_duplicates()
        &&& forall|i: int|
            0 <= i < self.cancelled@.len() ==> self.active_ids().contains(#[trigger] self.cancelled@[i])
        &&& accounts_for(self.scheduler.state().reserved, self.active_requests())
        &&& self.scheduler.outstanding().to_multiset() == self.active_requests().to_multiset()
    }

    pub fn new(limit: Capacity, owner: String) -> (s: Self)
        ensures
            s.consistent(),
            s.ledger().limit == limit,
            s.ledger().reserved == crate::scheduler::zero_capacity(),
            s.active_ids() == Seq::<u64>::empty(),
            s.cancelled_ids() == Seq::<u64>::empty(),
            s.shutdown_requested() is None,
            !s.input_is_closed(),
            s.owner_token() == owner@,
    {
        let s = Supervisor {
            scheduler: Scheduler::new(limit),
            owner,
            active: Vec::new(),
            cancelled: Vec::new(),
            shutdown_id: None,
            input_closed: false,
        };
        assert(s.active_ids() =~= Seq::<u64>::empty());
        assert(s.active_requests() =~= Seq::<Capacity>::empty());
        assert(s.scheduler.outstanding().to_multiset() =~= s.active_requests().to_multiset()) by {
            broadcast use vstd::seq_lib::group_to_multiset_ensures;
        }
        s
    }

    /// The reserved capacity: always the sum of what the active jobs hold,
    /// and within the limit.
    pub fn reserved(&self) -> (c: Capacity)
        requires
            self.consistent(),
        ensures
            c == self.ledger().reserved,
            accounts_for(c, self.active_requests()),
            fits(c, self.ledger().limit),
    {
        self.scheduler.reserved()
    }

    pub fn active_jobs(&self) -> (n: usize)
        requires
            self.consistent(),
        ensures
            n == self.active_ids().len(),
            n <= MAX_ACTIVE_JOBS,
    {
        self.active.len()
    }

    fn position(&self, request_id: u64) -> (out: Option<usize>)
        ensures
            match out {
                Some(i) => i < self.active@.len() && self.active_ids()[i as int] == request_id,
                None => !self.active_ids().contains(request_id),
            },
    {
        let mut i: usize = 0;
        while i < self.active.len()
            invariant
                i <= self.active@.len(),
                forall|j: int| 0 <= j < i ==> self.active@[j].request_id != request_id,
            decreases self.active.len() - i,
        {
            if self.active[i].request_id == request_id {
                return Some(i);
            }
            i += 1;
        }
        proof {
            if self.active_ids().contains(request_id) {
                let k = choose|k: int| 0 <= k < self.active_ids().len() && self.active_ids()[k] == request_id;
                assert(self.active@[k].request_id == request_id);
            }
        }
        None
    }

    fn active_id_list(&self) -> (ids: Vec<u64>)
        ensures
            ids@ == self.active_ids(),
    {
        let mut ids: Vec<u64> = Vec::new();
        let mut i: usize = 0;
        while i < self.active.len()
            invariant
                i <= self.active@.len(),
                ids@ == self.active_ids().take(i as int),
            decreases self.active.len() - i,
        {
            ids.push(self.active[i].request_id);
            assert(ids@ =~= self.active_ids().take(i + 1));
            i += 1;
        }
        assert(ids@ =~= self.active_ids());
        ids
    }

    /// Marks every active job cancelled; gives their IDs, to be killed.
    fn cancel_all(&mut self) -> (ids: Vec<u64>)
        requires
            old(self).consistent(),
        ensures
            final(self).consistent(),
            ids@ == old(self).active_ids(),
            final(self).cancelled_ids() == old(self).active_ids(),
            final(self).active_ids() == old(self).active_ids(),
            final(self).active_job_ids() == old(self).active_job_ids(),
            final(self).ledger() == old(self).ledger(),
            final(self).shutdown_requested() == old(self).shutdown_requested(),
            final(self).input_is_closed() == old(self).input_is_closed(),
            final(self).owner_token() == old(self).owner_token(),
    {
        let ids = self.active_id_list();
        self.cancelled = self.active_id_list();
        proof {
            assert forall|i: int| 0 <= i < self.cancelled@.len() implies self.active_ids().contains(
                #[trigger] self.cancelled@[i],
            ) by {
                assert(self.active_ids()[i] == self.cancelled@[i]);
            }
        }
        ids
    }

    /// Decides what a request asks for. Once a shutdown was requested every
    /// request is refused as cancelled; `cancel_target` is the `requestId`
    /// of a cancel request's payload.
    pub fn handle_request(&mut self, request_id: u64, kind: &str, cancel_target: Option<u64>) -> (out:
        Result<Decision, SandboxError>)
        requires
            old(self).consistent(),
        ensures
            final(self).consistent(),
            final(self).ledger() == old(self).ledger(),
            final(self).active_ids() == old(self).active_ids(),
            final(self).active_job_ids() == old(self).active_job_ids(),
            final(self).input_is_closed() == old(self).input_is_closed(),
            final(self).owner_token() == old(self).owner_token(),
            old(self).shutdown_requested() is Some ==> (out matches Ok(
                Decision::Refuse(SandboxError::Cancelled),
            )) && final(self).cancelled_ids() == old(self).cancelled_ids()
                && final(self).shutdown_requested() == old(self).shutdown_requested(),
            old(self).shutdown_requested() is None ==> request_outcome(
                *old(self),
                *final(self),
                request_id,
                kind@,
                cancel_target,
                out,
            ),
    {
        if self.shutdown_id.is_some() {
            return Ok(Decision::Refuse(SandboxError::Cancelled));
        }
        let kind_chars = chars_of(kind);
        if chars_equal(&kind_chars, &chars_of("health")) {
            let available = self.scheduler.available();
            return Ok(Decision::Health { active_jobs: self.active.len(), available });
        }
        if chars_equal(&kind_chars, &chars_of("run")) {
            if self.position(request_id).is_some() {
                return Ok(Decision::Refuse(protocol("request ID is already active")));
            }
            if self.active.len() >= MAX_ACTIVE_JOBS {
                return Ok(Decision::Refuse(SandboxError::CapacityExceeded));
            }
            return Ok(Decision::Start);
        }
        if chars_equal(&kind_chars, &chars_of("cancel")) {
            let target = match cancel_target {
                Some(t) => t,
                None => return Err(protocol("cancel requestId is missing")),
            };
            if self.position(target).is_some() {
                let mut i: usize = 0;
                let mut present = false;
                while i < self.cancelled.len()
                    invariant
                        i <= self.cancelled@.len(),
                        present == exists|j: int| 0 <= j < i && self.cancelled@[j] == target,
                    decreases self.cancelled.len() - i,
                {
                    if self.cancelled[i] == target {
                        present = true;
                    }
                    i += 1;
                }
                if !present {
                    let ghost before = self.cancelled@;
                    self.cancelled.push(target);
                    proof {
                        assert(self.cancelled@ == before.push(target));
                        assert(!before.contains(target));
                        Seq::lemma_to_set_insert_commutes(before, target);
                        assert(before.push(target) =~= before + seq![target]);
                        assert(self.cancelled@.to_set() =~= before.to_set().insert(target));
                        assert forall|a: int, b: int|
                            0 <= a < b < self.cancelled@.len() implies self.cancelled@[a]
                            != self.cancelled@[b] by {
                            if b == before.len() {
                                assert(before[a] != target);
                            }
                        }
                        assert forall|j: int| 0 <= j < self.cancelled@.len() implies self.active_ids().contains(
                            #[trigger] self.cancelled@[j],
                        ) by {
                            if j < before.len() {
                                assert(self.cancelled@[j] == before[j]);
                            }
                        }
                    }
                } else {
                    proof {
                        let j = choose|j: int| 0 <= j < self.cancelled@.len() && self.cancelled@[j] == target;
                        assert(self.cancelled@.contains(target));
                        assert(self.cancelled@.to_set().insert(target) =~= self.cancelled@.to_set());
                    }
                }
                return Ok(Decision::Kill(target));
            }
            return Ok(Decision::Ignore);
        }
        if chars_equal(&kind_chars, &chars_of("shutdown")) {
            self.shutdown_id = Some(request_id);
            let ids = self.cancel_all();
            return Ok(Decision::Shutdown(ids));
        }
        Ok(Decision::Refuse(unsupported_kind(kind)))
    }
}

impl Supervisor {
    /// Names a run request's job and computes what it asks of the scheduler:
    /// its limits plus the supervisor's own overhead. Refuses, in this order,
    /// an unusable job ID, limits beyond the transport bounds, an invalid CPU
    /// share or memory limit, and a request whose sum overflows.
    pub fn prepare_job(
        &self,
        request_id: u64,
        memory_mb: u64,
        cpu_millis: Option<u64>,
        pids: u64,
        input_bytes: u64,
        output_bytes: u64,
    ) -> (out: Result<(String, Capacity), SandboxError>)
        ensures
            match out {
                Ok((job_id, request)) => {
                    &&& job_id@ == job_id_spec(self.owner_token(), request_id)
                    &&& crate::cgroup::job_id_ok(job_id@)
                    &&& input_bytes <= MAX_TRANSPORT_BYTES && output_bytes <= MAX_TRANSPORT_BYTES
                    &&& cpu_millis is Some
                    &&& memory_mb * MIB <= u64::MAX
                    &&& sum_representable(
                        Capacity {
                            memory_bytes: (memory_mb * MIB) as u64,
                            cpu_millis: cpu_millis->0,
                            pids,
                        },
                        job_overhead_spec(),
                    )
                    &&& request == sum(
                        Capacity {
                            memory_bytes: (memory_mb * MIB) as u64,
                            cpu_millis: cpu_millis->0,
                            pids,
                        },
                        job_overhead_spec(),
                    )
                },
                Err(e) => {
                    &&& !prepare_succeeds(
                        self.owner_token(),
                        request_id,
                        memory_mb,
                        cpu_millis,
                        pids,
                        input_bytes,
                        output_bytes,
                    )
                    &&& match prepare_refusal(
                        self.owner_token(),
                        request_id,
                        memory_mb,
                        cpu_millis,
                        input_bytes,
                        output_bytes,
                    ) {
                        Some(message) => e is PolicyViolation && error_detail(&e) == message,
                        None => e is CapacityExceeded,
                    }
                },
            },
    {
        let job_id = supervisor_job_id(self.owner.as_str(), request_id);
        if let Err(e) = crate::cgroup::validate_job_id(job_id.as_str()) {
            return Err(e);
        }
        if let Err(e) = validate_transport_bounds(input_bytes, output_bytes) {
            return Err(e);
        }
        let limits = match resource_request(memory_mb, cpu_millis, pids) {
            Ok(c) => c,
            Err(e) => return Err(e),
        };
        let request = match limits.checked_add(job_overhead()) {
            Some(r) => r,
            None => return Err(SandboxError::CapacityExceeded),
        };
        Ok((job_id, request))
    }

    /// Records a started job and reserves its capacity, if the live capacity
    /// and the ledger allow it. A request whose ID is active, or beyond the
    /// job maximum, is refused as `handle_request` would.
    pub fn register_job(&mut self, request_id: u64, job_id: String, request: Capacity, live: Capacity) -> (out:
        Result<(), SandboxError>)
        requires
            old(self).consistent(),
        ensures
            final(self).consistent(),
            final(self).cancelled_ids() == old(self).cancelled_ids(),
            final(self).shutdown_requested() == old(self).shutdown_requested(),
            final(self).input_is_closed() == old(self).input_is_closed(),
            final(self).owner_token() == old(self).owner_token(),
            match out {
                Ok(()) => {
                    &&& !old(self).active_ids().contains(request_id)
                    &&& old(self).active_ids().len() < MAX_ACTIVE_JOBS
                    &&& fits(request, live)
                    &&& reserve_outcome(old(self).ledger(), request) == Some(final(self).ledger())
                    &&& final(self).active_ids() == old(self).active_ids().push(request_id)
                    &&& final(self).active_requests() == old(self).active_requests().push(request)
                    &&& final(self).active_job_ids() == old(self).active_job_ids().push(job_id@)
                },
                Err(e) => {
                    &&& final(self).ledger() == old(self).ledger()
                    &&& final(self).active_ids() == old(self).active_ids()
                    &&& final(self).active_job_ids() == old(self).active_job_ids()
                    &&& (old(self).active_ids().contains(request_id) || old(self).active_ids().len()
                        >= MAX_ACTIVE_JOBS || !fits(request, live) || reserve_outcome(
                        old(self).ledger(),
                        request,
                    ) is None)
                    &&& if old(self).active_ids().contains(request_id) {
                        e is Protocol && error_detail(&e) == "request ID is already active"@
                    } else {
                        e is CapacityExceeded
                    }
                },
            },
    {
        if self.position(request_id).is_some() {
            return Err(protocol("request ID is already active"));
        }
        if self.active.len() >= MAX_ACTIVE_JOBS {
            return Err(SandboxError::CapacityExceeded);
        }
        let ghost pre_out = self.scheduler.outstanding();
        let reservation = match self.scheduler.reserve_with_limit(request, live) {
            Ok(r) => r,
            Err(e) => return Err(e),
        };
        let ghost ids = self.active_ids();
        let ghost reqs = self.active_requests();
        let ghost jobs = self.active_job_ids();
        self.active.push(ActiveJob { request_id, job_id, reservation });
        proof {
            assert(self.active_ids() =~= ids.push(request_id));
            assert(self.active_requests() =~= reqs.push(request));
            assert(self.scheduler.outstanding().to_multiset() =~= self.active_requests().to_multiset())
                by {
                broadcast use vstd::seq_lib::group_to_multiset_ensures;

                assert(self.scheduler.outstanding() == pre_out.push(request));
            }
            assert(self.active_job_ids() =~= jobs.push(self.active@.last().job_id@));
            assert(self.active_requests().drop_last() =~= reqs);
            assert forall|a: int, b: int|
                0 <= a < b < self.active_ids().len() implies self.active_ids()[a]
                != self.active_ids()[b] by {
                if b == ids.len() {
                    assert(ids[a] != request_id);
                }
            }
            assert forall|i: int| 0 <= i < self.cancelled@.len() implies self.active_ids().contains(
                #[trigger] self.cancelled@[i],
            ) by {
                let k = choose|k: int| 0 <= k < ids.len() && ids[k] == self.cancelled@[i];
                assert(self.active_ids()[k] == ids[k]);
            }
        }
        Ok(())
    }

    /// Closes the books on a job that ended: removes it, returns its
    /// capacity to the ledger, and says whether it had been cancelled. A job
    /// that is not active is ignored.
    pub fn finish(&mut self, request_id: u64) -> (out: Option<FinishedJob>)
        requires
            old(self).consistent(),
        ensures
            final(self).consistent(),
            final(self).shutdown_requested() == old(self).shutdown_requested(),
            final(self).input_is_closed() == old(self).input_is_closed(),
            final(self).owner_token() == old(self).owner_token(),
            !final(self).active_ids().contains(request_id),
            match out {
                None => !old(self).active_ids().contains(request_id) && final(self).active_ids()
                    == old(self).active_ids() && final(self).ledger() == old(self).ledger()
                    && final(self).cancelled_ids() == old(self).cancelled_ids(),
                Some(done) => exists|i: int|
                    {
                        &&& 0 <= i < old(self).active_ids().len()
                        &&& old(self).active_ids()[i] == request_id
                        &&& done.job_id@ == old(self).active_job_ids()[i]
                        &&& final(self).active_ids() == old(self).active_ids().remove(i)
                        &&& final(self).active_requests() == old(self).active_requests().remove(i)
                        &&& final(self).ledger() == release_outcome(
                            old(self).ledger(),
                            old(self).active_requests()[i],
                        )
                    } && done.cancelled == old(self).cancelled_ids().contains(request_id)
                        && !final(self).cancelled_ids().contains(request_id)
                        && final(self).cancelled_ids().to_set() == old(self).cancelled_ids().to_set().remove(
                        request_id,
                    ),
            },
    {
        let i = match self.position(request_id) {
            Some(i) => i,
            None => return None,
        };
        let ghost pre_ids = self.active_ids();
        let ghost pre_reqs = self.active_requests();
        let ghost pre_jobs = self.active_job_ids();
        let ghost pre_ledger = self.scheduler.state();
        let ghost pre_cancelled = self.cancelled@;
        let ghost pre_out = self.scheduler.outstanding();
        let job = self.active.remove(i);
        proof {
            lemma_totals_remove(pre_reqs, i as int);
            lemma_totals_nonnegative(pre_reqs.remove(i as int));
            assert(pre_reqs[i as int] == job.reservation.request());
            broadcast use vstd::seq_lib::group_to_multiset_ensures;

            assert(pre_reqs.contains(pre_reqs[i as int]));
            assert(pre_out.to_multiset().count(pre_reqs[i as int]) > 0);
        }
        let ActiveJob { request_id: _, job_id, reservation } = job;
        reservation.release(&mut self.scheduler);
        proof {
            assert(self.active_ids() =~= pre_ids.remove(i as int));
            assert(self.active_requests() =~= pre_reqs.remove(i as int));
            broadcast use vstd::seq_lib::group_to_multiset_ensures;

            let k = choose|k: int|
                0 <= k < pre_out.len() && pre_out[k] == pre_reqs[i as int]
                    && self.scheduler.outstanding() == pre_out.remove(k);
            assert(self.scheduler.outstanding().to_multiset() =~= self.active_requests().to_multiset());
            assert(pre_jobs[i as int] == job_id@);
        }
        let mut k: usize = 0;
        while k < self.cancelled.len() && self.cancelled[k] != request_id
            invariant
                k <= self.cancelled@.len(),
                self.cancelled@ == pre_cancelled,
                forall|j: int| 0 <= j < k ==> pre_cancelled[j] != request_id,
            decreases self.cancelled.len() - k,
        {
            k += 1;
        }
        let was_cancelled = k < self.cancelled.len();
        if was_cancelled {
            self.cancelled.remove(k);
        }
        proof {
            let post = self.cancelled@;
            if was_cancelled {
                assert(post == pre_cancelled.remove(k as int));
                assert(pre_cancelled.contains(request_id));
                assert forall|j: int| 0 <= j < post.len() implies post[j] == pre_cancelled[if j < k {
                    j
                } else {
                    j + 1
                }] by {}
                assert forall|j: int| 0 <= j < post.len() implies #[trigger] post[j] != request_id by {
                    let o = if j < k { j } else { j + 1 };
                    assert(post[j] == pre_cancelled[o]);
                    assert(o != k);
                }
                assert forall|a: int, b: int| 0 <= a < b < post.len() implies post[a] != post[b] by {
                    let a2 = if a < k { a } else { a + 1 };
                    let b2 = if b < k { b } else { b + 1 };
                    assert(post[a] == pre_cancelled[a2]);
                    assert(post[b] == pre_cancelled[b2]);
                }
                assert forall|x: u64| #[trigger] post.contains(x) <==> pre_cancelled.contains(x) && x != request_id by {
                    if post.contains(x) {
                        let j = choose|j: int| 0 <= j < post.len() && post[j] == x;
                        let o = if j < k { j } else { j + 1 };
                        assert(pre_cancelled[o] == x);
                    }
                    if pre_cancelled.contains(x) && x != request_id {
                        let o = choose|o: int| 0 <= o < pre_cancelled.len() && pre_cancelled[o] == x;
                        assert(o != k);
                        let j = if o < k { o } else { o - 1 };
                        assert(post[j] == x);
                    }
                }
                assert(post.to_set() =~= pre_cancelled.to_set().remove(request_id));
            } else {
                assert(!pre_cancelled.contains(request_id));
                assert(post.to_set() =~= pre_cancelled.to_set().remove(request_id));
            }
            assert forall|j: int| 0 <= j < post.len() implies self.active_ids().contains(
                #[trigger] post[j],
            ) by {
                let x = post[j];
                assert(post.contains(x));
                assert(pre_cancelled.contains(x));
                let c = choose|c: int| 0 <= c < pre_cancelled.len() && pre_cancelled[c] == x;
                assert(pre_ids.contains(x));
                let a = choose|a: int| 0 <= a < pre_ids.len() && pre_ids[a] == x;
                assert(a != i);
                if a < i {
                    assert(self.active_ids()[a] == x);
                } else {
                    assert(self.active_ids()[a - 1] == x);
                }
            }
            assert forall|j: int| 0 <= j < self.active_ids().len() implies self.active_ids()[j]
                != request_id by {
                let j2 = if j < i { j } else { j + 1 };
                assert(self.active_ids()[j] == pre_ids[j2]);
                assert(j2 != i);
            }
            assert(!self.active_ids().contains(request_id));
            assert forall|a: int, b: int|
                0 <= a < b < self.active_ids().len() implies self.active_ids()[a]
                != self.active_ids()[b] by {
                let a2 = if a < i { a } else { a + 1 };
                let b2 = if b < i { b } else { b + 1 };
                assert(self.active_ids()[a] == pre_ids[a2]);
                assert(self.active_ids()[b] == pre_ids[b2]);
            }
        }
        Some(FinishedJob { job_id, cancelled: was_cancelled })
    }

    /// The input ended: no request will come, so every job is cancelled and
    /// must be killed.
    pub fn close_input(&mut self) -> (ids: Vec<u64>)
        requires
            old(self).consistent(),
        ensures
            final(self).consistent(),
            final(self).input_is_closed(),
            ids@ == old(self).active_ids(),
            final(self).cancelled_ids() == old(self).active_ids(),
            final(self).active_ids() == old(self).active_ids(),
            final(self).ledger() == old(self).ledger(),
            final(self).shutdown_requested() == old(self).shutdown_requested(),
    {
        self.input_closed = true;
        self.cancel_all()
    }

    /// What the main loop does next: once no job is left, a pending
    /// shutdown is answered and the loop ends, as it does when the input
    /// ended.
    pub fn next_step(&self) -> (step: LoopStep)
        ensures
            step == (match self.shutdown_requested() {
                Some(id) if self.active_ids().len() == 0 => LoopStep::Closed(id),
                _ => if self.input_is_closed() && self.active_ids().len() == 0 {
                    LoopStep::Exit
                } else {
                    LoopStep::Continue
                },
            }),
    {
        if self.active.len() == 0 {
            if let Some(id) = self.shutdown_id {
                return LoopStep::Closed(id);
            }
            if self.input_closed {
                return LoopStep::Exit;
            }
        }
        LoopStep::Continue
    }
}

/// When every job has ended, the ledger holds nothing: all capacity that
/// jobs reserved has come back.
pub proof fn lemma_idle_supervisor_reserves_nothing(s: &Supervisor)
    requires
        s.consistent(),
        s.active_ids().len() == 0,
    ensures
        s.ledger().reserved == crate::scheduler::zero_capacity(),
{
    assert(s.active_requests().len() == 0);
}

/// What consistent bookkeeping guarantees: each active request ID occurs
/// once, the IDs, the held capacities and the job IDs line up entry by
/// entry, every cancelled job is an active one, and the ledger reserves
/// exactly what the active jobs hold.
pub proof fn lemma_bookkeeping_lines_up(s: &Supervisor)
    requires
        s.consistent(),
    ensures
        s.active_ids().no_duplicates(),
        s.active_requests().len() == s.active_ids().len(),
        s.active_job_ids().len() == s.active_ids().len(),
        s.active_ids().len() <= MAX_ACTIVE_JOBS,
        forall|k: u64| #[trigger] s.cancelled_ids().contains(k) ==> s.active_ids().contains(k),
        accounts_for(s.ledger().reserved, s.active_requests()),
{
    assert forall|k: u64| #[trigger] s.cancelled_ids().contains(k) implies s.active_ids().contains(k) by {
        let j = choose|j: int| 0 <= j < s.cancelled_ids().len() && s.cancelled_ids()[j] == k;
        assert(s.cancelled@[j] == k);
    }
}

/// A job that was registered and then finished gives back exactly what it
/// reserved: the ledger returns to what it was before the registration.
/// This is the rollback after a launcher fails to start.
pub proof fn lemma_finish_undoes_register(
    before: Supervisor,
    registered: Supervisor,
    after: Supervisor,
    request_id: u64,
    request: Capacity,
    i: int,
)
    requires
        registered.consistent(),
        !before.active_ids().contains(request_id),
        reserve_outcome(before.ledger(), request) == Some(registered.ledger()),
        registered.active_ids() == before.active_ids().push(request_id),
        registered.active_requests() == before.active_requests().push(request),
        0 <= i < registered.active_ids().len(),
        registered.active_ids()[i] == request_id,
        after.ledger() == release_outcome(registered.ledger(), registered.active_requests()[i]),
    ensures
        i == before.active_ids().len(),
        registered.active_requests()[i] == request,
        after.ledger() == before.ledger(),
{
    lemma_bookkeeping_lines_up(&registered);
    let n = before.active_ids().len() as int;
    if i < n {
        assert(before.active_ids()[i] == request_id);
        assert(before.active_ids().contains(request_id));
    }
    crate::scheduler::lemma_release_undoes_reserve(before.ledger(), request);
}

/// Cancelling an active job kills it and marks it cancelled, so that
/// `finish` reports it as cancelled when it ends.
pub proof fn lemma_cancel_marks_job(
    pre: Supervisor,
    post: Supervisor,
    request_id: u64,
    target: u64,
    out: Result<Decision, SandboxError>,
)
    requires
        pre.active_ids().contains(target),
        request_outcome(pre, post, request_id, "cancel"@, Some(target), out),
    ensures
        out == Ok::<Decision, SandboxError>(Decision::Kill(target)),
        post.cancelled_ids().contains(target),
{
    reveal_strlit("cancel");
    reveal_strlit("health");
    reveal_strlit("run");
    assert("cancel"@[0] != "health"@[0]);
    assert("cancel"@.len() != "run"@.len());
    assert(post.cancelled_ids().to_set().contains(target));
}

/// A run request can be prepared: its job ID is usable, its limits are
/// within the transport bounds, its CPU share is valid, and its memory and
/// the supervisor's overhead add up without overflow.
pub open spec fn prepare_succeeds(
    owner: Seq<char>,
    request_id: u64,
    memory_mb: u64,
    cpu_millis: Option<u64>,
    pids: u64,
    input_bytes: u64,
    output_bytes: u64,
) -> bool {
    &&& crate::cgroup::job_id_ok(job_id_spec(owner, request_id))
    &&& input_bytes <= MAX_TRANSPORT_BYTES && output_bytes <= MAX_TRANSPORT_BYTES
    &&& cpu_millis is Some
    &&& memory_mb * MIB <= u64::MAX
    &&& sum_representable(
        Capacity { memory_bytes: (memory_mb * MIB) as u64, cpu_millis: cpu_millis->0, pids },
        job_overhead_spec(),
    )
}

/// The policy message that refuses a run request, by the first check it
/// fails; `None` when only the sum with the overhead overflows, which is
/// refused as exceeding capacity.
pub open spec fn prepare_refusal(
    owner: Seq<char>,
    request_id: u64,
    memory_mb: u64,
    cpu_millis: Option<u64>,
    input_bytes: u64,
    output_bytes: u64,
) -> Option<Seq<char>> {
    if !crate::cgroup::job_id_ok(job_id_spec(owner, request_id)) {
        Some("invalid cgroup job ID"@)
    } else if input_bytes > MAX_TRANSPORT_BYTES {
        Some("input limit exceeds the 512 KiB transport bound"@)
    } else if output_bytes > MAX_TRANSPORT_BYTES {
        Some("output limit exceeds the 512 KiB transport bound"@)
    } else if cpu_millis is None {
        Some("CPU limit must be positive and finite"@)
    } else if memory_mb * MIB > u64::MAX {
        Some("memory limit overflows"@)
    } else {
        None
    }
}

fn unsupported_kind(kind: &str) -> (e: SandboxError)
    ensures
        e is Protocol,
        error_detail(&e) == "unsupported request type "@ + crate::text::debug_str(kind@),
{
    let mut out = chars_of("unsupported request type ");
    let quoted = crate::text::debug_quoted(kind);
    let mut rest = chars_of(quoted.as_str());
    out.append(&mut rest);
    SandboxError::Protocol(string_from_chars(&out))
}

/// What a request does when no shutdown is pending: health reports the
/// number of jobs and the free capacity; run starts a job unless its ID is
/// active or the job maximum is reached; cancel kills an active job and
/// marks it cancelled (a missing target is a protocol error, an unknown one
/// is ignored); shutdown kills and cancels every job and remembers the
/// request; any other type is refused.
pub open spec fn request_outcome(
    pre: Supervisor,
    post: Supervisor,
    request_id: u64,
    kind: Seq<char>,
    cancel_target: Option<u64>,
    out: Result<Decision, SandboxError>,
) -> bool {
    if kind == "health"@ {
        &&& out matches Ok(Decision::Health { active_jobs, available })
        &&& active_jobs == pre.active_ids().len()
        &&& available == difference(pre.ledger().limit, pre.ledger().reserved)
        &&& post.cancelled_ids() == pre.cancelled_ids()
        &&& post.shutdown_requested() == pre.shutdown_requested()
    } else if kind == "run"@ {
        &&& post.cancelled_ids() == pre.cancelled_ids()
        &&& post.shutdown_requested() == pre.shutdown_requested()
        &&& if pre.active_ids().contains(request_id) {
            out matches Ok(Decision::Refuse(e)) && e is Protocol && error_detail(&e)
                == "request ID is already active"@
        } else if pre.active_ids().len() >= MAX_ACTIVE_JOBS {
            out matches Ok(Decision::Refuse(SandboxError::CapacityExceeded))
        } else {
            out matches Ok(Decision::Start)
        }
    } else if kind == "cancel"@ {
        &&& post.shutdown_requested() == pre.shutdown_requested()
        &&& match cancel_target {
            None => out matches Err(e) && e is Protocol && error_detail(&e)
                == "cancel requestId is missing"@ && post.cancelled_ids() == pre.cancelled_ids(),
            Some(t) => if pre.active_ids().contains(t) {
                out == Ok::<Decision, SandboxError>(Decision::Kill(t))
                    && post.cancelled_ids().to_set() == pre.cancelled_ids().to_set().insert(t)
            } else {
                out == Ok::<Decision, SandboxError>(Decision::Ignore) && post.cancelled_ids()
                    == pre.cancelled_ids()
            },
        }
    } else if kind == "shutdown"@ {
        &&& out matches Ok(Decision::Shutdown(ids)) && ids@ == pre.active_ids()
        &&& post.cancelled_ids() == pre.active_ids()
        &&& post.shutdown_requested() == Some(request_id)
    } else {
        &&& out matches Ok(Decision::Refuse(e)) && e is Protocol && error_detail(&e)
            == "unsupported request type "@ + crate::text::debug_str(kind)
        &&& post.cancelled_ids() == pre.cancelled_ids()
        &&& post.shutdown_requested() == pre.shutdown_requested()
    }
}

} // verus!
