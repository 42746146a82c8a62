use vstd::prelude::*;

verus! {

/// `BPF_LD | BPF_W | BPF_ABS`: load a word of the syscall record.
pub const BPF_LD_W_ABS: u16 = 0x20;

/// `BPF_JMP | BPF_JEQ | BPF_K`: branch on equality with a constant.
pub const BPF_JMP_JEQ_K: u16 = 0x15;

/// `BPF_JMP | BPF_JGE | BPF_K`: branch on at-least a constant.
pub const BPF_JMP_JGE_K: u16 = 0x35;

/// `BPF_JMP | BPF_JSET | BPF_K`: branch when any bit of a constant is set.
pub const BPF_JMP_JSET_K: u16 = 0x45;

/// `BPF_RET | BPF_K`: return a constant verdict.
pub const BPF_RET_K: u16 = 0x06;

pub const SECCOMP_RET_KILL_PROCESS: u32 = 0x80000000;

pub const SECCOMP_RET_ERRNO: u32 = 0x00050000;

pub const SECCOMP_RET_ALLOW: u32 = 0x7fff0000;

/// Where the syscall number, the audit architecture and the low word of the
/// first argument sit in the record a filter reads (little-endian).
pub const SYSCALL_NR_OFFSET: u32 = 0;

pub const ARCH_OFFSET: u32 = 4;

pub const ARG0_LOW_OFFSET: u32 = 16;

/// The first x32 syscall number on x86-64.
pub const X32_SYSCALL_BIT: u32 = 0x40000000;

/// The `clone` flags that create namespaces: `CLONE_NEWTIME`, `CLONE_NEWNS`,
/// `CLONE_NEWCGROUP`, `CLONE_NEWUTS`, `CLONE_NEWIPC`, `CLONE_NEWUSER`,
/// `CLONE_NEWPID` and `CLONE_NEWNET`.
pub const CLONE_NAMESPACE_FLAGS: u32 = 0x7e020080;

/// One classic BPF instruction.
#[derive(Debug, Clone, Copy, PartialEq, Eq, Structural)]
pub struct BpfInstruction {
    pub code: u16,
    pub jt: u8,
    pub jf: u8,
    pub k: u32,
}

/// What the baseline filter decides by: the architecture it admits, whether
/// x32 numbers are refused, the `clone` number and the flags it may not
/// carry, the errno of a denied call and the errno of a call that is
/// reported as unavailable (so that the C library falls back to another).
#[derive(Debug, Clone, Copy, PartialEq, Eq, Structural)]
pub struct SeccompPolicy {
    pub audit_arch: u32,
    pub reject_x32: bool,
    pub clone_nr: u32,
    pub namespace_flags: u32,
    pub denied_errno: u32,
    pub unavailable_errno: u32,
}

pub open spec fn statement_spec(code: u16, k: u32) -> BpfInstruction {
    BpfInstruction { code, jt: 0, jf: 0, k }
}

pub open spec fn jump_spec(code: u16, k: u32, jt: u8, jf: u8) -> BpfInstruction {
    BpfInstruction { code, jt, jf, k }
}

pub fn statement(code: u16, k: u32) -> (i: BpfInstruction)
    ensures
        i == statement_spec(code, k),
{
    BpfInstruction { code, jt: 0, jf: 0, k }
}

pub fn jump(code: u16, k: u32, jt: u8, jf: u8) -> (i: BpfInstruction)
    ensures
        i == jump_spec(code, k, jt, jf),
{
    BpfInstruction { code, jt, jf, k }
}

/// What a filter returns for a syscall, run from instruction `pc` with the
/// accumulator `acc`, for the instructions the baseline uses; `None` when
/// it runs off its end or meets anything else.
pub open spec fn run_filter(
    prog: Seq<BpfInstruction>,
    pc: int,
    acc: u32,
    arch: u32,
    nr: u32,
    arg0: u32,
) -> Option<u32>
    decreases prog.len() - pc,
{
    if pc < 0 || pc >= prog.len() {
        None
    } else {
        let ins = prog[pc];
        if ins.code == BPF_LD_W_ABS {
            if ins.k == SYSCALL_NR_OFFSET {
                run_filter(prog, pc + 1, nr, arch, nr, arg0)
            } else if ins.k == ARCH_OFFSET {
                run_filter(prog, pc + 1, arch, arch, nr, arg0)
            } else if ins.k == ARG0_LOW_OFFSET {
                run_filter(prog, pc + 1, arg0, arch, nr, arg0)
            } else {
                None
            }
        } else if ins.code == BPF_JMP_JEQ_K || ins.code == BPF_JMP_JGE_K || ins.code
            == BPF_JMP_JSET_K {
            let taken = if ins.code == BPF_JMP_JEQ_K {
                acc == ins.k
            } else if ins.code == BPF_JMP_JGE_K {
                acc >= ins.k
            } else {
                acc & ins.k != 0
            };
            let next = pc + 1 + if taken {
                ins.jt as int
            } else {
                ins.jf as int
            };
            if next <= prog.len() {
                run_filter(prog, next, acc, arch, nr, arg0)
            } else {
                None
            }
        } else if ins.code == BPF_RET_K {
            Some(ins.k)
        } else {
            None
        }
    }
}

/// The verdict the baseline policy gives a syscall: any other architecture
/// is killed, as are x32 numbers where they are rejected; a `clone` that
/// would create a namespace, and a denied syscall, fail with the denial
/// errno; an unavailable syscall fails with its own errno; everything else
/// is allowed.
pub open spec fn baseline_verdict(
    p: SeccompPolicy,
    denied: Seq<u32>,
    unavailable: Seq<u32>,
    arch: u32,
    nr: u32,
    arg0: u32,
) -> u32 {
    if arch != p.audit_arch {
        SECCOMP_RET_KILL_PROCESS
    } else if p.reject_x32 && nr >= X32_SYSCALL_BIT {
        SECCOMP_RET_KILL_PROCESS
    } else if nr == p.clone_nr && arg0 & p.namespace_flags != 0 {
        SECCOMP_RET_ERRNO | p.denied_errno
    } else if denied.contains(nr) {
        SECCOMP_RET_ERRNO | p.denied_errno
    } else if unavailable.contains(nr) {
        SECCOMP_RET_ERRNO | p.unavailable_errno
    } else {
        SECCOMP_RET_ALLOW
    }
}

/// One equality test and one return of `verdict` per listed syscall.
pub open spec fn deny_block(listed: Seq<u32>, verdict: u32) -> Seq<BpfInstruction>
    decreases listed.len(),
{
    if listed.len() == 0 {
        seq![]
    } else {
        seq![jump_spec(BPF_JMP_JEQ_K, listed[0], 0, 1), statement_spec(BPF_RET_K, verdict)]
            + deny_block(listed.drop_first(), verdict)
    }
}

pub open spec fn baseline_head(p: SeccompPolicy) -> Seq<BpfInstruction> {
    seq![
        statement_spec(BPF_LD_W_ABS, ARCH_OFFSET),
        jump_spec(BPF_JMP_JEQ_K, p.audit_arch, 1, 0),
        statement_spec(BPF_RET_K, SECCOMP_RET_KILL_PROCESS),
        statement_spec(BPF_LD_W_ABS, SYSCALL_NR_OFFSET),
    ] + if p.reject_x32 {
        seq![
            jump_spec(BPF_JMP_JGE_K, X32_SYSCALL_BIT, 0, 1),
            statement_spec(BPF_RET_K, SECCOMP_RET_KILL_PROCESS),
        ]
    } else {
        seq![]
    }
}

/// For `clone`, test the first argument against the namespace flags, then
/// load the syscall number again.
pub open spec fn clone_guard(p: SeccompPolicy) -> Seq<BpfInstruction> {
    seq![
        jump_spec(BPF_JMP_JEQ_K, p.clone_nr, 0, 4),
        statement_spec(BPF_LD_W_ABS, ARG0_LOW_OFFSET),
        jump_spec(BPF_JMP_JSET_K, p.namespace_flags, 0, 1),
        statement_spec(BPF_RET_K, SECCOMP_RET_ERRNO | p.denied_errno),
        statement_spec(BPF_LD_W_ABS, SYSCALL_NR_OFFSET),
    ]
}

/// Everything after the head: the clone guard, the two lists, then allow.
pub open spec fn baseline_rules(p: SeccompPolicy, denied: Seq<u32>, unavailable: Seq<u32>) -> Seq<
    BpfInstruction,
> {
    clone_guard(p) + (deny_block(denied, SECCOMP_RET_ERRNO | p.denied_errno) + (deny_block(
        unavailable,
        SECCOMP_RET_ERRNO | p.unavailable_errno,
    ) + seq![statement_spec(BPF_RET_K, SECCOMP_RET_ALLOW)]))
}

/// The baseline filter program.
pub open spec fn baseline_program(p: SeccompPolicy, denied: Seq<u32>, unavailable: Seq<u32>) -> Seq<
    BpfInstruction,
> {
    baseline_head(p) + baseline_rules(p, denied, unavailable)
}

/// Running a program from inside a suffix only reads that suffix.
proof fn lemma_run_suffix(
    head: Seq<BpfInstruction>,
    tail: Seq<BpfInstruction>,
    pc: int,
    acc: u32,
    arch: u32,
    nr: u32,
    arg0: u32,
)
    requires
        0 <= pc,
    ensures
        run_filter(head + tail, head.len() + pc, acc, arch, nr, arg0) == run_filter(
            tail,
            pc,
            acc,
            arch,
            nr,
            arg0,
        ),
    decreases tail.len() - pc,
{
    let prog = head + tail;
    if pc < tail.len() {
        assert(prog[head.len() + pc] == tail[pc]);
        let ins = tail[pc];
        if ins.code == BPF_LD_W_ABS {
            lemma_run_suffix(head, tail, pc + 1, nr, arch, nr, arg0);
            lemma_run_suffix(head, tail, pc + 1, arch, arch, nr, arg0);
            lemma_run_suffix(head, tail, pc + 1, arg0, arch, nr, arg0);
        } else if ins.code == BPF_JMP_JEQ_K || ins.code == BPF_JMP_JGE_K || ins.code
            == BPF_JMP_JSET_K {
            if pc + 1 + ins.jt as int <= tail.len() {
                lemma_run_suffix(head, tail, pc + 1 + ins.jt as int, acc, arch, nr, arg0);
            }
            if pc + 1 + ins.jf as int <= tail.len() {
                lemma_run_suffix(head, tail, pc + 1 + ins.jf as int, acc, arch, nr, arg0);
            }
        }
    }
}

/// With the syscall number loaded, a deny block returns its verdict for a
/// listed number and otherwise goes on with what follows it.
proof fn lemma_deny_block(
    listed: Seq<u32>,
    verdict: u32,
    rest: Seq<BpfInstruction>,
    arch: u32,
    nr: u32,
    arg0: u32,
)
    ensures
        run_filter(deny_block(listed, verdict) + rest, 0, nr, arch, nr, arg0) == if listed.contains(
            nr,
        ) {
            Some(verdict)
        } else {
            run_filter(rest, 0, nr, arch, nr, arg0)
        },
    decreases listed.len(),
{
    if listed.len() == 0 {
        assert(deny_block(listed, verdict) + rest =~= rest);
    } else {
        let tail = listed.drop_first();
        let pair = seq![jump_spec(BPF_JMP_JEQ_K, listed[0], 0, 1), statement_spec(BPF_RET_K, verdict)];
        let t = deny_block(listed, verdict) + rest;
        lemma_deny_block(tail, verdict, rest, arch, nr, arg0);
        assert(t =~= pair + (deny_block(tail, verdict) + rest));
        lemma_run_suffix(pair, deny_block(tail, verdict) + rest, 0, nr, arch, nr, arg0);
        assert(t[0] == pair[0]);
        assert(t[1] == pair[1]);
        assert(run_filter(t, 0, nr, arch, nr, arg0) == if nr == listed[0] {
            run_filter(t, 1, nr, arch, nr, arg0)
        } else {
            run_filter(t, 2, nr, arch, nr, arg0)
        });
        if nr == listed[0] {
            assert(listed.contains(nr));
        } else {
            assert(listed.contains(nr) == tail.contains(nr)) by {
                if listed.contains(nr) {
                    let i = choose|i: int| 0 <= i < listed.len() && listed[i] == nr;
                    assert(tail[i - 1] == nr);
                }
                if tail.contains(nr) {
                    let i = choose|i: int| 0 <= i < tail.len() && tail[i] == nr;
                    assert(listed[i + 1] == nr);
                }
            }
        }
    }
}

/// With the syscall number loaded, the clone guard refuses a `clone` that
/// carries a namespace flag and otherwise goes on, number reloaded.
proof fn lemma_clone_guard(p: SeccompPolicy, rest: Seq<BpfInstruction>, arch: u32, nr: u32, arg0: u32)
    requires
        rest.len() > 0,
    ensures
        run_filter(clone_guard(p) + rest, 0, nr, arch, nr, arg0) == if nr == p.clone_nr && arg0
            & p.namespace_flags != 0 {
            Some(SECCOMP_RET_ERRNO | p.denied_errno)
        } else {
            run_filter(rest, 0, nr, arch, nr, arg0)
        },
{
    let g = clone_guard(p);
    let t = g + rest;
    lemma_run_suffix(g, rest, 0, nr, arch, nr, arg0);
    assert(t[0] == g[0]);
    assert(t[1] == g[1]);
    assert(t[2] == g[2]);
    assert(t[3] == g[3]);
    assert(t[4] == g[4]);
    assert(run_filter(t, 4, arg0, arch, nr, arg0) == run_filter(t, 5, nr, arch, nr, arg0));
    assert(run_filter(t, 3, arg0, arch, nr, arg0) == Some(SECCOMP_RET_ERRNO | p.denied_errno));
    assert(run_filter(t, 2, arg0, arch, nr, arg0) == if arg0 & p.namespace_flags != 0 {
        run_filter(t, 3, arg0, arch, nr, arg0)
    } else {
        run_filter(t, 4, arg0, arch, nr, arg0)
    });
    assert(run_filter(t, 1, nr, arch, nr, arg0) == run_filter(t, 2, arg0, arch, nr, arg0));
    assert(run_filter(t, 0, nr, arch, nr, arg0) == if nr == p.clone_nr {
        run_filter(t, 1, nr, arch, nr, arg0)
    } else {
        run_filter(t, 5, nr, arch, nr, arg0)
    });
}

/// The baseline program decides every syscall, whatever its first
/// argument, as the baseline policy says.
pub proof fn lemma_baseline_program_enforces_policy(
    p: SeccompPolicy,
    denied: Seq<u32>,
    unavailable: Seq<u32>,
    arch: u32,
    nr: u32,
    arg0: u32,
)
    ensures
        run_filter(baseline_program(p, denied, unavailable), 0, 0, arch, nr, arg0) == Some(
            baseline_verdict(p, denied, unavailable, arch, nr, arg0),
        ),
{
    let head = baseline_head(p);
    let allow = seq![statement_spec(BPF_RET_K, SECCOMP_RET_ALLOW)];
    let second = deny_block(unavailable, SECCOMP_RET_ERRNO | p.unavailable_errno) + allow;
    let lists = deny_block(denied, SECCOMP_RET_ERRNO | p.denied_errno) + second;
    let tail = clone_guard(p) + lists;
    let prog = head + tail;
    assert(tail == baseline_rules(p, denied, unavailable));
    assert(run_filter(allow, 0, nr, arch, nr, arg0) == Some(SECCOMP_RET_ALLOW));
    lemma_deny_block(unavailable, SECCOMP_RET_ERRNO | p.unavailable_errno, allow, arch, nr, arg0);
    lemma_deny_block(denied, SECCOMP_RET_ERRNO | p.denied_errno, second, arch, nr, arg0);
    assert(lists.len() > 0);
    lemma_clone_guard(p, lists, arch, nr, arg0);
    lemma_run_suffix(head, tail, 0, nr, arch, nr, arg0);
    assert(prog[0] == head[0]);
    assert(prog[1] == head[1]);
    assert(prog[2] == head[2]);
    assert(prog[3] == head[3]);
    let n = head.len() as int;
    assert(run_filter(prog, n, nr, arch, nr, arg0) == run_filter(tail, 0, nr, arch, nr, arg0));
    if p.reject_x32 {
        assert(prog[4] == head[4]);
        assert(prog[5] == head[5]);
        assert(run_filter(prog, 5, nr, arch, nr, arg0) == Some(SECCOMP_RET_KILL_PROCESS));
        assert(run_filter(prog, 4, nr, arch, nr, arg0) == if nr >= X32_SYSCALL_BIT {
            run_filter(prog, 5, nr, arch, nr, arg0)
        } else {
            run_filter(prog, 6, nr, arch, nr, arg0)
        });
    }
    assert(run_filter(prog, 3, arch, arch, nr, arg0) == run_filter(prog, 4, nr, arch, nr, arg0));
    assert(run_filter(prog, 2, arch, arch, nr, arg0) == Some(SECCOMP_RET_KILL_PROCESS));
    assert(run_filter(prog, 1, arch, arch, nr, arg0) == if arch == p.audit_arch {
        run_filter(prog, 3, arch, arch, nr, arg0)
    } else {
        run_filter(prog, 2, arch, arch, nr, arg0)
    });
    assert(run_filter(prog, 0, 0, arch, nr, arg0) == run_filter(prog, 1, arch, arch, nr, arg0));
}

/// Appends one deny block for `listed` to `prog`.
fn push_deny_block(prog: &mut Vec<BpfInstruction>, listed: &[u32], verdict: u32)
    ensures
        final(prog)@ == old(prog)@ + deny_block(listed@, verdict),
{
    let ghost start = prog@;
    assert(listed@.skip(0) =~= listed@);
    let mut i: usize = 0;
    while i < listed.len()
        invariant
            i <= listed@.len(),
            prog@ + deny_block(listed@.skip(i as int), verdict) == start + deny_block(
                listed@,
                verdict,
            ),
        decreases listed.len() - i,
    {
        let ghost before = prog@;
        prog.push(jump(BPF_JMP_JEQ_K, listed[i], 0, 1));
        prog.push(statement(BPF_RET_K, verdict));
        proof {
            let rest = listed@.skip(i as int);
            assert(rest.drop_first() =~= listed@.skip(i + 1));
            assert(rest[0] == listed@[i as int]);
            assert(deny_block(rest, verdict) == seq![
                jump_spec(BPF_JMP_JEQ_K, rest[0], 0, 1),
                statement_spec(BPF_RET_K, verdict),
            ] + deny_block(rest.drop_first(), verdict));
            assert(prog@ + deny_block(listed@.skip(i + 1), verdict) =~= before + deny_block(
                rest,
                verdict,
            ));
        }
        i += 1;
    }
    proof {
        assert(listed@.skip(listed@.len() as int) =~= Seq::<u32>::empty());
        assert(deny_block(Seq::<u32>::empty(), verdict) =~= Seq::<BpfInstruction>::empty());
        assert(prog@ =~= start + deny_block(listed@, verdict));
    }
}

/// Builds the baseline filter: kill other architectures (and x32 numbers
/// where the policy says so), refuse a namespace-creating `clone`, fail each
/// `denied` syscall with the denial errno and each `unavailable` one with
/// its own errno, allow the rest.
pub fn baseline_filter(p: SeccompPolicy, denied: &[u32], unavailable: &[u32]) -> (prog: Vec<
    BpfInstruction,
>)
    ensures
        prog@ == baseline_program(p, denied@, unavailable@),
{
    let mut prog: Vec<BpfInstruction> = Vec::new();
    prog.push(statement(BPF_LD_W_ABS, ARCH_OFFSET));
    prog.push(jump(BPF_JMP_JEQ_K, p.audit_arch, 1, 0));
    prog.push(statement(BPF_RET_K, SECCOMP_RET_KILL_PROCESS));
    prog.push(statement(BPF_LD_W_ABS, SYSCALL_NR_OFFSET));
    if p.reject_x32 {
        prog.push(jump(BPF_JMP_JGE_K, X32_SYSCALL_BIT, 0, 1));
        prog.push(statement(BPF_RET_K, SECCOMP_RET_KILL_PROCESS));
    }
    let ghost head = prog@;
    assert(head =~= baseline_head(p));
    prog.push(jump(BPF_JMP_JEQ_K, p.clone_nr, 0, 4));
    prog.push(statement(BPF_LD_W_ABS, ARG0_LOW_OFFSET));
    prog.push(jump(BPF_JMP_JSET_K, p.namespace_flags, 0, 1));
    prog.push(statement(BPF_RET_K, SECCOMP_RET_ERRNO | p.denied_errno));
    prog.push(statement(BPF_LD_W_ABS, SYSCALL_NR_OFFSET));
    let ghost guarded = prog@;
    assert(guarded =~= head + clone_guard(p));
    push_deny_block(&mut prog, denied, SECCOMP_RET_ERRNO | p.denied_errno);
    push_deny_block(&mut prog, unavailable, SECCOMP_RET_ERRNO | p.unavailable_errno);
    prog.push(statement(BPF_RET_K, SECCOMP_RET_ALLOW));
    proof {
        assert(prog@ =~= baseline_program(p, denied@, unavailable@));
    }
    prog
}

} // verus!
