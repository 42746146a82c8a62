use crate::error::SandboxError;
use vstd::prelude::*;

verus! {

/// An amount of memory, CPU time and process slots.
#[derive(Debug, Clone, Copy, PartialEq, Eq, Structural)]
pub struct Capacity {
    pub memory_bytes: u64,
    pub cpu_millis: u64,
    pub pids: u64,
}

/// What one job asks the scheduler for.
pub type ResourceRequest = Capacity;

/// `a` is within `b` in every dimension.
pub open spec fn fits(a: Capacity, b: Capacity) -> bool {
    &&& a.memory_bytes <= b.memory_bytes
    &&& a.cpu_millis <= b.cpu_millis
    &&& a.pids <= b.pids
}

/// The sum of `a` and `b` fits in 64 bits in every dimension.
pub open spec fn sum_representable(a: Capacity, b: Capacity) -> bool {
    &&& a.memory_bytes + b.memory_bytes <= u64::MAX
    &&& a.cpu_millis + b.cpu_millis <= u64::MAX
    &&& a.pids + b.pids <= u64::MAX
}

/// The sum of `a` and `b`, each dimension taken modulo nothing; meaningful
/// where `sum_representable(a, b)`.
pub open spec fn sum(a: Capacity, b: Capacity) -> Capacity {
    Capacity {
        memory_bytes: (a.memory_bytes + b.memory_bytes) as u64,
        cpu_millis: (a.cpu_millis + b.cpu_millis) as u64,
        pids: (a.pids + b.pids) as u64,
    }
}

pub open spec fn sat_sub(a: u64, b: u64) -> u64 {
    if a >= b {
        (a - b) as u64
    } else {
        0
    }
}

/// `a` minus `b` in every dimension, stopping at zero.
pub open spec fn difference(a: Capacity, b: Capacity) -> Capacity {
    Capacity {
        memory_bytes: sat_sub(a.memory_bytes, b.memory_bytes),
        cpu_millis: sat_sub(a.cpu_millis, b.cpu_millis),
        pids: sat_sub(a.pids, b.pids),
    }
}

pub open spec fn zero_capacity() -> Capacity {
    Capacity { memory_bytes: 0, cpu_millis: 0, pids: 0 }
}

impl Default for Capacity {
    fn default() -> (c: Self)
        ensures
            c == zero_capacity(),
    {
        Capacity { memory_bytes: 0, cpu_millis: 0, pids: 0 }
    }
}

impl Capacity {
    pub(crate) fn checked_add(self, other: Self) -> (out: Option<Self>)
        ensures
            out == (if sum_representable(self, other) {
                Some(sum(self, other))
            } else {
                None
            }),
    {
        let memory_bytes = match self.memory_bytes.checked_add(other.memory_bytes) {
            Some(v) => v,
            None => return None,
        };
        let cpu_millis = match self.cpu_millis.checked_add(other.cpu_millis) {
            Some(v) => v,
            None => return None,
        };
        let pids = match self.pids.checked_add(other.pids) {
            Some(v) => v,
            None => return None,
        };
        Some(Capacity { memory_bytes, cpu_millis, pids })
    }

    pub fn fits_within(self, limit: Self) -> (b: bool)
        ensures
            b == fits(self, limit),
    {
        self.memory_bytes <= limit.memory_bytes && self.cpu_millis <= limit.cpu_millis
            && self.pids <= limit.pids
    }

    pub(crate) fn saturating_sub(self, other: Self) -> (out: Self)
        ensures
            out == difference(self, other),
    {
        Capacity {
            memory_bytes: self.memory_bytes.saturating_sub(other.memory_bytes),
            cpu_millis: self.cpu_millis.saturating_sub(other.cpu_millis),
            pids: self.pids.saturating_sub(other.pids),
        }
    }
}

pub open spec fn total_memory(reqs: Seq<Capacity>) -> int
    decreases reqs.len(),
{
    if reqs.len() == 0 {
        0
    } else {
        total_memory(reqs.drop_last()) + reqs.last().memory_bytes
    }
}

pub open spec fn total_cpu(reqs: Seq<Capacity>) -> int
    decreases reqs.len(),
{
    if reqs.len() == 0 {
        0
    } else {
        total_cpu(reqs.drop_last()) + reqs.last().cpu_millis
    }
}

pub open spec fn total_pids(reqs: Seq<Capacity>) -> int
    decreases reqs.len(),
{
    if reqs.len() == 0 {
        0
    } else {
        total_pids(reqs.drop_last()) + reqs.last().pids
    }
}

/// `reserved` is exactly the sum of `reqs`, dimension by dimension.
pub open spec fn accounts_for(reserved: Capacity, reqs: Seq<Capacity>) -> bool {
    &&& reserved.memory_bytes == total_memory(reqs)
    &&& reserved.cpu_millis == total_cpu(reqs)
    &&& reserved.pids == total_pids(reqs)
}

pub proof fn lemma_totals_remove(reqs: Seq<Capacity>, i: int)
    requires
        0 <= i < reqs.len(),
    ensures
        total_memory(reqs.remove(i)) + reqs[i].memory_bytes == total_memory(reqs),
        total_cpu(reqs.remove(i)) + reqs[i].cpu_millis == total_cpu(reqs),
        total_pids(reqs.remove(i)) + reqs[i].pids == total_pids(reqs),
    decreases reqs.len(),
{
    if i < reqs.len() - 1 {
        lemma_totals_remove(reqs.drop_last(), i);
        assert(reqs.remove(i).drop_last() =~= reqs.drop_last().remove(i));
        assert(reqs.remove(i).last() == reqs.last());
    } else {
        assert(reqs.remove(i) =~= reqs.drop_last());
    }
}

pub proof fn lemma_totals_nonnegative(reqs: Seq<Capacity>)
    ensures
        total_memory(reqs) >= 0,
        total_cpu(reqs) >= 0,
        total_pids(reqs) >= 0,
    decreases reqs.len(),
{
    if reqs.len() > 0 {
        lemma_totals_nonnegative(reqs.drop_last());
    }
}

/// The admission ledger as mathematics: a fixed limit and what is reserved.
pub struct SchedulerState {
    pub limit: Capacity,
    pub reserved: Capacity,
}

/// Where admitting `request` leads from `s`: `None` when it would overcommit.
pub open spec fn reserve_outcome(s: SchedulerState, request: Capacity) -> Option<SchedulerState> {
    if sum_representable(s.reserved, request) && fits(sum(s.reserved, request), s.limit) {
        Some(SchedulerState { limit: s.limit, reserved: sum(s.reserved, request) })
    } else {
        None
    }
}

/// Where giving `request` back leads from `s`.
pub open spec fn release_outcome(s: SchedulerState, request: Capacity) -> SchedulerState {
    SchedulerState { limit: s.limit, reserved: difference(s.reserved, request) }
}

/// An admission ledger: it never reserves more than its limit, and what it
/// reserves is exactly the sum of the reservations still outstanding.
pub struct Scheduler {
    limit: Capacity,
    reserved: Capacity,
    outstanding: Ghost<Seq<Capacity>>,
}

impl Scheduler {
    #[verifier::type_invariant]
    spec fn within_limit(self) -> bool {
        &&& fits(self.reserved, self.limit)
        &&& accounts_for(self.reserved, self.outstanding@)
    }

    pub closed spec fn state(&self) -> SchedulerState {
        SchedulerState { limit: self.limit, reserved: self.reserved }
    }

    /// The requests of the reservations handed out and not yet released, in
    /// the order they were made.
    pub closed spec fn outstanding(&self) -> Seq<Capacity> {
        self.outstanding@
    }

    pub fn new(limit: Capacity) -> (s: Self)
        ensures
            s.state() == (SchedulerState { limit: limit, reserved: zero_capacity() }),
            s.outstanding() == Seq::<Capacity>::empty(),
    {
        Scheduler { limit, reserved: Capacity::default(), outstanding: Ghost(Seq::empty()) }
    }

    /// Reserves `request` if the total stays within the limit.
    pub fn reserve(&mut self, request: ResourceRequest) -> (out: Result<Reservation, SandboxError>)
        ensures
            match reserve_outcome(old(self).state(), request) {
                Some(next) => out matches Ok(r) && r.request() == request && final(self).state()
                    == next && final(self).outstanding() == old(self).outstanding().push(request),
                None => out matches Err(SandboxError::CapacityExceeded) && final(self).state()
                    == old(self).state() && final(self).outstanding() == old(self).outstanding(),
            },
            fits(final(self).state().reserved, final(self).state().limit),
    {
        proof {
            use_type_invariant(&*self);
        }
        let total = match self.reserved.checked_add(request) {
            Some(total) => total,
            None => return Err(SandboxError::CapacityExceeded),
        };
        if !total.fits_within(self.limit) {
            return Err(SandboxError::CapacityExceeded);
        }
        let ghost before = self.outstanding@;
        assert(before.push(request).drop_last() =~= before);
        *self = Scheduler { limit: self.limit, reserved: total, outstanding: Ghost(before.push(request)) };
        Ok(Reservation { request })
    }

    /// Reserves `request` if it fits the live capacity measured now and the
    /// total stays within the limit.
    pub fn reserve_with_limit(&mut self, request: ResourceRequest, live: Capacity) -> (out: Result<
        Reservation,
        SandboxError,
    >)
        ensures
            match reserve_outcome(old(self).state(), request) {
                Some(next) if fits(request, live) => out matches Ok(r) && r.request() == request
                    && final(self).state() == next && final(self).outstanding() == old(
                    self,
                ).outstanding().push(request),
                _ => out matches Err(SandboxError::CapacityExceeded) && final(self).state()
                    == old(self).state() && final(self).outstanding() == old(self).outstanding(),
            },
            fits(final(self).state().reserved, final(self).state().limit),
    {
        proof {
            use_type_invariant(&*self);
        }
        if !request.fits_within(live) {
            return Err(SandboxError::CapacityExceeded);
        }
        self.reserve(request)
    }

    /// What is reserved: exactly the sum of the outstanding reservations,
    /// and within the limit.
    pub fn reserved(&self) -> (c: Capacity)
        ensures
            c == self.state().reserved,
            fits(c, self.state().limit),
            accounts_for(c, self.outstanding()),
    {
        proof {
            use_type_invariant(self);
        }
        self.reserved
    }

    pub fn available(&self) -> (c: Capacity)
        ensures
            c == difference(self.state().limit, self.state().reserved),
    {
        self.limit.saturating_sub(self.reserved())
    }
}

/// The capacity held by one admitted job. Dropping it does not give the
/// capacity back: it must be handed to `release` on the scheduler that
/// issued it.
#[derive(Debug)]
#[must_use]
pub struct Reservation {
    request: ResourceRequest,
}

impl Reservation {
    pub closed spec fn request(&self) -> Capacity {
        self.request
    }

    /// Gives the reserved capacity back to `scheduler`, which must hold it
    /// outstanding: one outstanding reservation of this request is retired
    /// and the ledger drops by exactly the request.
    pub fn release(self, scheduler: &mut Scheduler)
        requires
            old(scheduler).outstanding().contains(self.request()),
        ensures
            final(scheduler).state() == release_outcome(old(scheduler).state(), self.request()),
            exists|k: int|
                0 <= k < old(scheduler).outstanding().len() && old(scheduler).outstanding()[k]
                    == self.request() && final(scheduler).outstanding() == old(
                    scheduler,
                ).outstanding().remove(k),
            fits(final(scheduler).state().reserved, final(scheduler).state().limit),
            final(scheduler).state().reserved.memory_bytes == old(scheduler).state().reserved.memory_bytes
                - self.request().memory_bytes,
            final(scheduler).state().reserved.cpu_millis == old(scheduler).state().reserved.cpu_millis
                - self.request().cpu_millis,
            final(scheduler).state().reserved.pids == old(scheduler).state().reserved.pids
                - self.request().pids,
    {
        proof {
            use_type_invariant(&*scheduler);
        }
        let ghost before = scheduler.outstanding@;
        let ghost k = choose|k: int| 0 <= k < before.len() && before[k] == self.request;
        proof {
            lemma_totals_remove(before, k);
            lemma_totals_nonnegative(before.remove(k));
        }
        let reserved = scheduler.reserved.saturating_sub(self.request);
        *scheduler = Scheduler {
            limit: scheduler.limit,
            reserved,
            outstanding: Ghost(before.remove(k)),
        };
    }
}

/// Giving back what was just reserved restores the ledger exactly.
pub proof fn lemma_release_undoes_reserve(s: SchedulerState, request: Capacity)
    requires
        reserve_outcome(s, request) is Some,
    ensures
        release_outcome(reserve_outcome(s, request)->0, request) == s,
{
}

/// A ledger that admits `request` stays within its limit afterwards.
pub proof fn lemma_reserve_keeps_limit(s: SchedulerState, request: Capacity)
    requires
        reserve_outcome(s, request) is Some,
    ensures
        fits(reserve_outcome(s, request)->0.reserved, s.limit),
        reserve_outcome(s, request)->0.limit == s.limit,
{
}

/// Releasing never raises what is reserved, so a ledger within its limit
/// stays within it.
pub proof fn lemma_release_keeps_limit(s: SchedulerState, request: Capacity)
    requires
        fits(s.reserved, s.limit),
    ensures
        fits(release_outcome(s, request).reserved, s.limit),
{
}

/// Admission refuses exactly the requests that would overcommit: a refused
/// request leaves the ledger as it was, and an admitted one adds exactly the
/// request.
pub proof fn lemma_reserve_adds_request(s: SchedulerState, request: Capacity)
    requires
        reserve_outcome(s, request) is Some,
    ensures
        reserve_outcome(s, request)->0.reserved.memory_bytes == s.reserved.memory_bytes
            + request.memory_bytes,
        reserve_outcome(s, request)->0.reserved.cpu_millis == s.reserved.cpu_millis
            + request.cpu_millis,
        reserve_outcome(s, request)->0.reserved.pids == s.reserved.pids + request.pids,
{
}

} // verus!
