use single_line::args::drops_marker;
use single_line::args::forward_args;
use single_line::args::wrapper_exit_code;

fn args(parts: &[&str]) -> Vec<Vec<u8>> {
    parts.iter().map(|p| p.as_bytes().to_vec()).collect()
}

#[test]
fn marker_as_first_argument_is_dropped() {
    let out = forward_args(args(&["single-line", "build", "--release"]));
    assert_eq!(out, args(&["build", "--release"]));
    assert!(drops_marker(&args(&["single-line"])));
}

#[test]
fn other_arguments_are_forwarded_unchanged() {
    let out = forward_args(args(&["build", "--release"]));
    assert_eq!(out, args(&["build", "--release"]));
    // A first argument sharing no similarity with the marker stays.
    let out = forward_args(args(&["check"]));
    assert_eq!(out, args(&["check"]));
    // The marker not in first position stays too.
    let out = forward_args(args(&["build", "single-line"]));
    assert_eq!(out, args(&["build", "single-line"]));
    // A near-miss of the marker stays.
    let out = forward_args(args(&["single-lines"]));
    assert_eq!(out, args(&["single-lines"]));
    assert!(!drops_marker(&args(&["single_line"])));
}

#[test]
fn no_arguments_forward_to_none() {
    let out = forward_args(Vec::new());
    assert!(out.is_empty());
    assert!(!drops_marker(&Vec::new()));
}

#[test]
fn exit_code_reconciliation() {
    assert_eq!(wrapper_exit_code(true, 0), 0);
    assert_eq!(wrapper_exit_code(true, 101), 101);
    assert_eq!(wrapper_exit_code(false, 0), 1);
}
