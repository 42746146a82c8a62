# micro_sandbox_native

The native supervisor of a fail-closed Linux process sandbox: it admits jobs
against a capacity ledger, validates launch requests and artifact workspaces,
frames a versioned control protocol, and builds the seccomp filter that every
job runs under.

## Layout

- `src/` is the verified library. Verus proves its functions against their
  `requires` / `ensures` contracts; the few small wrappers marked
  `#[verifier::external_body]` that call std, `base64` and `sha2` are
  trusted, not proved, and their doc comments say what they assume.
  - `scheduler`: the admission ledger; it never reserves more than its limit,
    reserves exactly the sum of the outstanding reservations, and releasing a
    reservation restores it exactly.
  - `supervisor`: the bookkeeping of a running supervisor as a state machine
    (requests in, decisions out), job naming and its read-back.
  - `job`: launch-request validation, the guest environment, the shared
    output budget, wait statuses and job reports.
  - `artifact`: artifact limits, the tree budget, output declarations and
    the manifest.
  - `protocol`, `cgroup`, `capabilities`, `resources`: frames, the frame
    reader and headers,
    cgroup settings, `/proc` capability records, cgroup limit files and the
    admission budget.
  - `seccomp`: the baseline BPF program (architecture, x32, namespace flags
    of `clone`, denied and unavailable calls) with an interpreter in the
    specification and a proof that it enforces its policy.
  - `paths`, `text`, `error`: path components, character-level parsing and
    printing, and the error type with its stable codes.
- `tests/` exercises the library on concrete values.
- `app/` is the executable around the library: the command line, system
  calls, threads, files and the JSON wire types. Verus does not check it.
