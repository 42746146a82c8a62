use micro_sandbox_native::paths::{is_direct_child, is_within};

#[test]
fn containment_compares_whole_components() {
    assert!(is_within("/srv/root/usr/bin", "/srv/root"));
    assert!(is_within("/srv/root", "/srv/root"));
    assert!(is_within("/srv/root/", "/srv//root"));
    assert!(is_within("/anything", "/"));
    assert!(!is_within("/srv/rootkit", "/srv/root"));
    assert!(!is_within("/srv", "/srv/root"));
    assert!(!is_within("/etc/passwd", "/srv/root"));
}

#[test]
fn containment_needs_absolute_paths() {
    assert!(!is_within("srv/root/a", "srv/root"));
    assert!(!is_within("/srv/root/a", "srv/root"));
    assert!(!is_within("", "/"));
}

#[test]
fn a_workspace_sits_directly_below_its_root() {
    assert!(is_direct_child("/work/job-1", "/work"));
    assert!(!is_direct_child("/work/job-1/inner", "/work"));
    assert!(!is_direct_child("/work", "/work"));
    assert!(!is_direct_child("/elsewhere/job-1", "/work"));
    assert!(is_direct_child("/work", "/"));
    assert!(!is_direct_child("/", "/"));
}
