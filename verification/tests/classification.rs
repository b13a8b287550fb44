use single_line::classify::need_to_capture;
use single_line::classify::starts_with;
use single_line::trim::trim_start_color;

#[test]
fn keyword_lines_are_collapsible() {
    assert!(need_to_capture("   Compiling foo v0.1.0".as_bytes()));
    assert!(need_to_capture("Checking bar v2.0.0\n".as_bytes()));
    assert!(need_to_capture("\u{1b}[1m\u{1b}[32m Downloading crates ...".as_bytes()));
    assert!(need_to_capture("Adding serde v1.0.0\n".as_bytes()));
}

#[test]
fn other_lines_are_normal() {
    let line = "\u{1b}[1m\u{1b}[32m    Finished dev target(s)".as_bytes();
    assert!(!need_to_capture(line));
    // ... though the same line trims correctly.
    let off = trim_start_color(line);
    assert_eq!(&line[off..], "Finished dev target(s)".as_bytes());

    assert!(!need_to_capture("error[E0308]: mismatched types\n".as_bytes()));
    assert!(!need_to_capture("".as_bytes()));
    // Case-sensitive: a lowercase keyword does not match.
    assert!(!need_to_capture("compiling foo\n".as_bytes()));
}

#[test]
fn empty_prefix_set_matches_nothing() {
    assert!(!starts_with("Compiling foo\n".as_bytes(), &[]));
}

#[test]
fn custom_prefix_set() {
    let prefixes = ["Finished", "Fresh"];
    assert!(starts_with("\u{1b}[32m   Finished release\n".as_bytes(), &prefixes));
    assert!(!starts_with("   Compiling foo\n".as_bytes(), &prefixes));
}
