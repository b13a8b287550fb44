use single_line::trim::sgr_prefix_len;
use single_line::trim::trim_start_color;

#[test]
fn verify_regex() {
    let input = "\u{1b}[1m\u{1b}[32m    Finished".as_bytes();

    let n = sgr_prefix_len(input, 0).unwrap();
    assert_eq!(&input[..n], "\u{1b}[1m".as_bytes());

    let m = sgr_prefix_len(input, n).unwrap();
    assert_eq!(&input[n..n + m], "\u{1b}[32m".as_bytes());

    assert!(sgr_prefix_len(input, n + m).is_none());
}

#[test]
fn verify_trim() {
    let example =
        "\u{1b}[1m\u{1b}[32m    Finished\u{1b}[0m dev [unoptimized + debuginfo] target(s) in 0.01s\n";

    let line = example.trim().as_bytes();
    let off = trim_start_color(line);
    assert!(line[off..].starts_with("Finished".as_bytes()));
}

#[test]
fn trims_whitespace_and_interleaved_escapes() {
    // Whitespace and well-formed escape sequences interleaved, then text.
    let line = "  \u{1b}[1m \t\u{1b}[32;1m  \u{1b}[K Compiling foo".as_bytes();
    let off = trim_start_color(line);
    assert_eq!(&line[off..], "Compiling foo".as_bytes());
}

#[test]
fn trimming_is_idempotent() {
    let line = " \u{1b}[1m  Updating crates.io index".as_bytes();
    let off = trim_start_color(line);
    let rest = &line[off..];
    assert_eq!(trim_start_color(rest), 0);
    assert_eq!(rest, "Updating crates.io index".as_bytes());
}

#[test]
fn empty_line_trims_to_empty() {
    assert_eq!(trim_start_color(b""), 0);
    assert_eq!(trim_start_color(b"   \t "), 5);
}

#[test]
fn plain_line_only_loses_whitespace() {
    let line = "   Finished dev target(s)".as_bytes();
    let off = trim_start_color(line);
    assert_eq!(&line[off..], "Finished dev target(s)".as_bytes());
}

#[test]
fn malformed_escapes_are_left_as_text() {
    // Four digits: not a recognized sequence, left alone as literal text.
    assert_eq!(trim_start_color(b"\x1b[1234m text"), 0);
    // Truncated at the very prefix being scanned.
    assert_eq!(trim_start_color(b"\x1b["), 0);
    assert_eq!(trim_start_color(b"\x1b[12"), 0);
    // A semicolon with no digits after it fails to match.
    assert_eq!(trim_start_color(b"\x1b[1;m"), 0);
}

#[test]
fn escape_variants_match() {
    // No digits at all.
    assert_eq!(sgr_prefix_len(b"\x1b[m", 0), Some(3));
    // One to three digits.
    assert_eq!(sgr_prefix_len(b"\x1b[0m", 0), Some(4));
    assert_eq!(sgr_prefix_len(b"\x1b[128G", 0), Some(6));
    // Digits, semicolon, one or two digits.
    assert_eq!(sgr_prefix_len(b"\x1b[38;5m", 0), Some(7));
    assert_eq!(sgr_prefix_len(b"\x1b[1;22K", 0), Some(7));
    // Three digits past the semicolon: no match.
    assert_eq!(sgr_prefix_len(b"\x1b[1;222m", 0), None);
}
