use micro_sandbox_native::seccomp::{
    BPF_JMP_JEQ_K, BPF_JMP_JGE_K, BPF_JMP_JSET_K, BPF_LD_W_ABS, BPF_RET_K, BpfInstruction,
    CLONE_NAMESPACE_FLAGS, SECCOMP_RET_ALLOW, SECCOMP_RET_ERRNO, SECCOMP_RET_KILL_PROCESS,
    SeccompPolicy, baseline_filter,
};

/// Runs the instructions the baseline uses, as the kernel would.
fn run(program: &[BpfInstruction], arch: u32, nr: u32, arg0: u32) -> u32 {
    let mut pc = 0;
    let mut acc = 0;
    loop {
        let ins = program[pc];
        match ins.code {
            BPF_LD_W_ABS => {
                acc = match ins.k {
                    0 => nr,
                    4 => arch,
                    16 => arg0,
                    other => panic!("unexpected offset {other}"),
                };
                pc += 1;
            }
            BPF_JMP_JEQ_K | BPF_JMP_JGE_K | BPF_JMP_JSET_K => {
                let taken = match ins.code {
                    BPF_JMP_JEQ_K => acc == ins.k,
                    BPF_JMP_JGE_K => acc >= ins.k,
                    _ => acc & ins.k != 0,
                };
                pc += 1 + usize::from(if taken { ins.jt } else { ins.jf });
            }
            BPF_RET_K => return ins.k,
            other => panic!("unexpected instruction {other:#x}"),
        }
    }
}

fn policy(audit_arch: u32, reject_x32: bool) -> SeccompPolicy {
    SeccompPolicy {
        audit_arch,
        reject_x32,
        clone_nr: 56,
        namespace_flags: CLONE_NAMESPACE_FLAGS,
        denied_errno: 1,
        unavailable_errno: 38,
    }
}

#[test]
fn kills_other_architectures_denies_listed_calls_and_allows_the_rest() {
    let program = baseline_filter(policy(0xc000_003e, true), &[165, 101], &[435]);
    assert_eq!(program.len(), 6 + 5 + 2 * 2 + 2 + 1);
    assert_eq!(run(&program, 0x4000_0028, 0, 0), SECCOMP_RET_KILL_PROCESS);
    assert_eq!(
        run(&program, 0xc000_003e, 0x4000_0001, 0),
        SECCOMP_RET_KILL_PROCESS
    );
    assert_eq!(run(&program, 0xc000_003e, 165, 0), SECCOMP_RET_ERRNO | 1);
    assert_eq!(run(&program, 0xc000_003e, 101, 0), SECCOMP_RET_ERRNO | 1);
    assert_eq!(run(&program, 0xc000_003e, 435, 0), SECCOMP_RET_ERRNO | 38);
    assert_eq!(run(&program, 0xc000_003e, 0, 0), SECCOMP_RET_ALLOW);
}

#[test]
fn without_the_x32_guard_large_numbers_are_only_checked_against_the_list() {
    let program = baseline_filter(policy(0xc000_00b7, false), &[40], &[]);
    assert_eq!(program.len(), 4 + 5 + 2 + 1);
    assert_eq!(run(&program, 0xc000_00b7, 0x4000_0001, 0), SECCOMP_RET_ALLOW);
    assert_eq!(run(&program, 0xc000_00b7, 40, 0), SECCOMP_RET_ERRNO | 1);
}

#[test]
fn clone_may_not_create_namespaces() {
    let program = baseline_filter(policy(0xc000_003e, true), &[165], &[]);
    let clone_thread = 0x0001_0000 | 0x0000_0100 | 0x0000_0800;
    assert_eq!(run(&program, 0xc000_003e, 56, clone_thread), SECCOMP_RET_ALLOW);
    assert_eq!(run(&program, 0xc000_003e, 56, 0x1000_0000), SECCOMP_RET_ERRNO | 1);
    assert_eq!(run(&program, 0xc000_003e, 56, 0x4000_0011), SECCOMP_RET_ERRNO | 1);
    assert_eq!(run(&program, 0xc000_003e, 56, 0x80), SECCOMP_RET_ERRNO | 1);
    assert_eq!(run(&program, 0xc000_003e, 57, 0x1000_0000), SECCOMP_RET_ALLOW);
    assert_eq!(run(&program, 0xc000_003e, 165, 0), SECCOMP_RET_ERRNO | 1);
}
