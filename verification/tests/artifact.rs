use micro_sandbox_native::artifact::{
    check_manifest_path, check_private_directory, manifest_entry, manifest_includes,
    required_by_default, sort_manifest, validate_limits, ArtifactLimits, ArtifactManifestEntry,
    DeclaredOutput, EntryVerdict, OutputFile, OutputPlan, TreeBudget, TreeEntry, MAX_ARTIFACT_BYTES,
    MAX_ARTIFACT_DEPTH, MAX_ARTIFACT_FILES,
};

fn limits() -> ArtifactLimits {
    ArtifactLimits {
        input_files: 8,
        input_bytes: 4096,
        input_file_bytes: 1024,
        output_files: 4,
        output_bytes: 1000,
        output_file_bytes: 300,
    }
}

fn file(size: u64) -> TreeEntry {
    TreeEntry {
        is_symlink: false,
        is_dir: false,
        is_file: true,
        nlink: 1,
        size,
        blocks: (size + 511) / 512,
        block_size: 4096,
        depth: 1,
    }
}

fn refusal_text(error: micro_sandbox_native::error::SandboxError) -> String {
    assert_eq!(error.code(), "POLICY_VIOLATION");
    error.describe()
}

#[test]
fn limits_stay_inside_the_native_bounds() {
    assert!(validate_limits(limits()).is_ok());
    let mut l = limits();
    l.output_files = MAX_ARTIFACT_FILES + 1;
    assert_eq!(
        refusal_text(validate_limits(l).unwrap_err()),
        "policy violation: artifact limits exceed immutable native bounds"
    );
    let mut l = limits();
    l.input_bytes = MAX_ARTIFACT_BYTES + 1;
    l.input_file_bytes = 1;
    assert!(validate_limits(l).is_err());
    let mut l = limits();
    l.output_file_bytes = l.output_bytes + 1;
    assert!(validate_limits(l).is_err());
    let mut l = limits();
    l.input_files = 0;
    assert!(validate_limits(l).is_err());
}

#[test]
fn counts_only_single_link_regular_files() {
    let mut budget = TreeBudget::new(2, 100, 50, false);
    budget.enter().unwrap();
    let dir = TreeEntry {
        is_dir: true,
        is_file: false,
        ..file(0)
    };
    assert_eq!(budget.examine(dir).unwrap(), EntryVerdict::Descend);
    budget.enter().unwrap();
    assert_eq!(budget.examine(file(4)).unwrap(), EntryVerdict::Count);
    let linked = TreeEntry { nlink: 2, ..file(4) };
    assert_eq!(
        refusal_text(budget.examine(linked).unwrap_err()),
        "policy violation: artifact trees may contain only regular unlinked files"
    );
}

#[test]
fn refuses_symbolic_links_in_a_tree() {
    let mut budget = TreeBudget::new(2, 100, 50, false);
    let link = TreeEntry {
        is_symlink: true,
        ..file(4)
    };
    assert_eq!(
        refusal_text(budget.examine(link).unwrap_err()),
        "policy violation: artifact trees may not contain symbolic links"
    );
}

#[test]
fn tree_budget_enforces_counts_sizes_and_depth() {
    let mut budget = TreeBudget::new(2, 100, 60, false);
    assert!(budget.examine(file(60)).is_ok());
    assert_eq!(
        refusal_text(budget.examine(file(61)).unwrap_err()),
        "policy violation: artifact tree exceeds its configured limits"
    );
    assert_eq!(
        refusal_text(budget.examine(file(41)).unwrap_err()),
        "policy violation: artifact tree exceeds its configured limits"
    );
    assert!(budget.examine(file(40)).is_ok());
    assert!(budget.examine(file(0)).is_err());
    let deep = TreeEntry {
        is_dir: true,
        is_file: false,
        depth: MAX_ARTIFACT_DEPTH + 1,
        ..file(0)
    };
    assert_eq!(
        refusal_text(budget.examine(deep).unwrap_err()),
        "policy violation: artifact tree is nested too deeply"
    );
}

#[test]
fn tree_budget_counts_entries_up_to_sixty_four_for_small_trees() {
    let mut budget = TreeBudget::new(1, 10, 10, false);
    for _ in 0..64 {
        budget.enter().unwrap();
    }
    assert_eq!(
        refusal_text(budget.enter().unwrap_err()),
        "policy violation: artifact tree contains too many entries"
    );
}

#[test]
fn declared_outputs_must_start_empty() {
    let mut budget = TreeBudget::new(2, 100, 60, true);
    assert!(budget.examine(file(0)).is_ok());
    assert_eq!(
        refusal_text(budget.examine(file(1)).unwrap_err()),
        "policy violation: declared artifact outputs must start empty"
    );
}

fn declared(path: &str, max_bytes: Option<u64>) -> DeclaredOutput {
    DeclaredOutput {
        path: path.to_string(),
        max_bytes,
        required: required_by_default(),
    }
}

#[test]
fn output_declarations_share_one_maximum_within_the_budget() {
    assert_eq!(
        refusal_text(OutputPlan::new(5, limits()).err().unwrap()),
        "policy violation: declared artifact output count is invalid"
    );
    let mut plan = OutputPlan::new(4, limits()).unwrap();
    assert_eq!(plan.check(&declared("out/a.txt", None)).unwrap(), 300);
    assert_eq!(
        refusal_text(plan.check(&declared("b", Some(200))).unwrap_err()),
        "policy violation: declared outputs must use one uniform hard maximum"
    );
    assert_eq!(plan.check(&declared("b", Some(300))).unwrap(), 300);
    assert_eq!(plan.check(&declared("c", None)).unwrap(), 300);
    assert_eq!(
        refusal_text(plan.check(&declared("d", None)).unwrap_err()),
        "policy violation: declared outputs exceed their limits"
    );
}

#[test]
fn output_paths_are_plain_relative_names() {
    let mut plan = OutputPlan::new(4, limits()).unwrap();
    for path in ["", "/abs", "./a", "a/../b", "a\\b", &"x".repeat(1025)] {
        assert_eq!(
            refusal_text(plan.check(&declared(path, None)).unwrap_err()),
            "policy violation: declared artifact output path is invalid"
        );
    }
    assert!(plan.check(&declared(&"x".repeat(1024), None)).is_ok());
}

#[test]
fn an_output_is_accepted_once_and_only_when_safe() {
    let mut plan = OutputPlan::new(4, limits()).unwrap();
    plan.check(&declared("a/b", None)).unwrap();
    let fresh = OutputFile {
        is_file: true,
        is_symlink: false,
        nlink: 1,
        size: 0,
    };
    let root = "/work/job/output";
    for unsafe_file in [
        OutputFile { is_file: false, ..fresh },
        OutputFile { is_symlink: true, ..fresh },
        OutputFile { nlink: 2, ..fresh },
        OutputFile { size: 1, ..fresh },
    ] {
        assert_eq!(
            refusal_text(plan.accept("a/b", unsafe_file, "/work/job/output/a/b", root).unwrap_err()),
            "policy violation: declared artifact output is unsafe"
        );
    }
    assert!(plan.accept("a/b", fresh, "/etc/passwd", root).is_err());
    assert!(plan.accept("a/b", fresh, "a/b", root).is_err());
    assert!(plan.accept("a/b", fresh, "/work/job/output/a/b", root).is_ok());
    assert!(plan.accept("a//./b", fresh, "/work/job/output/a/b", root).is_err());
    assert!(plan.accept("a/c", fresh, "/work/job/output/a/c", root).is_ok());
    assert!(plan.check_tree(2).is_ok());
    assert_eq!(
        refusal_text(plan.check_tree(3).unwrap_err()),
        "policy violation: artifact output tree contains undeclared files"
    );
}

#[test]
fn manifest_paths_and_inclusion() {
    assert!(check_manifest_path("out/a.txt").is_ok());
    assert_eq!(
        refusal_text(check_manifest_path("a\\b").unwrap_err()),
        "policy violation: artifact paths may not contain backslashes"
    );
    assert_eq!(manifest_includes(false, 10, true, 1, 0).unwrap(), false);
    assert_eq!(manifest_includes(true, 10, true, 1, 0).unwrap(), true);
    assert_eq!(manifest_includes(false, 10, true, 1, 10).unwrap(), true);
    let error = manifest_includes(true, 10, true, 2, 5).unwrap_err();
    assert_eq!(error.code(), "SECURITY_ERROR");
    assert_eq!(
        error.describe(),
        "security violation: artifact changed after validation"
    );
    assert!(manifest_includes(true, 10, true, 1, 11).is_err());
}

#[test]
fn manifest_entries_carry_the_hex_digest_in_path_order() {
    let entry = manifest_entry("safe.bin".to_string(), 4, b"safe");
    assert_eq!(entry.path, "safe.bin");
    assert_eq!(entry.size, 4);
    assert_eq!(
        entry.sha256,
        "8b3369944dd2a3fab39e32d1aeb1f763946a458ae3e6368a46432adc8f3a0860"
    );
    let empty = manifest_entry("e".to_string(), 0, b"");
    assert_eq!(
        empty.sha256,
        "e3b0c44298fc1c149afbf4c8996fb92427ae41e4649b934ca495991b7852b855"
    );
    let unsorted = vec![
        ArtifactManifestEntry {
            path: "b".to_string(),
            size: 1,
            sha256: String::new(),
        },
        ArtifactManifestEntry {
            path: "a/z".to_string(),
            size: 2,
            sha256: String::new(),
        },
        ArtifactManifestEntry {
            path: "a".to_string(),
            size: 3,
            sha256: String::new(),
        },
    ];
    let sorted = sort_manifest(unsorted);
    let paths: Vec<&str> = sorted.iter().map(|e| e.path.as_str()).collect();
    assert_eq!(paths, vec!["a", "a/z", "b"]);
    assert_eq!(sorted[0].size, 3);
}

#[test]
fn workspace_directories_must_be_private() {
    assert!(check_private_directory(1000, 1000, 0o700, "workspace").is_ok());
    assert!(check_private_directory(1000, 1000, 0o755, "workspace").is_ok());
    assert_eq!(
        refusal_text(check_private_directory(1000, 1000, 0o770, "workspace").unwrap_err()),
        "policy violation: workspace must be owned by the supervisor user and not group/world writable"
    );
    assert!(check_private_directory(0, 1000, 0o700, "workspace").is_err());
    assert!(check_private_directory(1000, 1000, 0o702, "workspace").is_err());
}
