use single_line::rewrite::process_lines;
use single_line::rewrite::RewriteState;

fn lines(parts: &[&str]) -> Vec<Vec<u8>> {
    parts.iter().map(|p| p.as_bytes().to_vec()).collect()
}

#[test]
fn scenario_two_overwrites_then_normal() {
    // The exact bytes for two collapsible lines followed by a normal one.
    let input = lines(&["Compiling a v1\n", "Compiling a v1 (longer)\n", "Finished in 0.5s\n"]);
    let out = process_lines(&input);
    let expected = b"Compiling a v1\rCompiling a v1 (longer)\rFinished in 0.5s\n";
    assert_eq!(out, expected.to_vec());
}

#[test]
fn padding_erases_remnants_of_longer_line() {
    // Visible lengths 20, then 6: the second overwrite is padded with 14
    // spaces before its carriage return, and the following normal line
    // starts on a fresh column.
    let input = lines(&["Compiling aaaaaaaaaa\n", "Adding\n", "warning: x\n"]);
    let out = process_lines(&input);
    let expected: Vec<u8> =
        [b"Compiling aaaaaaaaaa\r".as_ref(), b"Adding              \r", b"warning: x\n"].concat();
    assert_eq!(out, expected);
}

#[test]
fn end_of_stream_after_collapsible_owes_one_newline() {
    let input = lines(&["Compiling foo v0.1.0\n"]);
    let out = process_lines(&input);
    assert_eq!(out, b"Compiling foo v0.1.0\r\n".to_vec());
}

#[test]
fn end_of_stream_after_normal_adds_nothing() {
    let input = lines(&["Compiling foo v0.1.0\n", "error: failed\n"]);
    let out = process_lines(&input);
    assert_eq!(out, b"Compiling foo v0.1.0\rerror: failed\n".to_vec());
}

#[test]
fn empty_stream_emits_nothing() {
    let out = process_lines(&Vec::new());
    assert!(out.is_empty());
}

#[test]
fn unterminated_final_lines_keep_their_shape() {
    // A collapsible line without a terminator: its whole text is visible.
    let out = process_lines(&lines(&["Updating index"]));
    assert_eq!(out, b"Updating index\r\n".to_vec());
    // A normal line without a terminator passes through without one.
    let out = process_lines(&lines(&["Compiling x\n", "done"]));
    assert_eq!(out, b"Compiling x\rdone".to_vec());
}

#[test]
fn normal_line_resets_padding_target() {
    let mut st = RewriteState::new();
    let first = st.process_line(b"Compiling aaaaaaaaaa\n");
    assert_eq!(first, b"Compiling aaaaaaaaaa\r".to_vec());
    let second = st.process_line(b"note: plain\n");
    assert_eq!(second, b"note: plain\n".to_vec());
    // After a normal line no remnants are assumed: no padding is added.
    let third = st.process_line(b"Adding x\n");
    assert_eq!(third, b"Adding x\r".to_vec());
    assert_eq!(st.finish(), b"\n".to_vec());
}

#[test]
fn finish_without_pending_newline_is_empty() {
    let mut st = RewriteState::new();
    assert!(st.finish().is_empty());
    st.process_line(b"plain\n");
    assert!(st.finish().is_empty());
}
