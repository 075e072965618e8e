use workforest_core::history::{
    find_safe_history_start, parse_csi_sequence, parse_string_sequence, trim_history_to_boundary,
    HistoryRing,
};

#[test]
fn history_trim_avoids_mid_sequence_cut() {
    let history = b"hello\x1b[31mworld";
    let overflow = 7;
    let start = find_safe_history_start(history, overflow);
    assert_eq!(start, 5);
}

#[test]
fn history_trim_allows_plain_cut() {
    let history = b"hello world";
    let overflow = 3;
    let start = find_safe_history_start(history, overflow);
    assert_eq!(start, 3);
}

#[test]
fn safe_start_steps_past_whole_sequences() {
    // The cut after the complete CSI lands at its end, never inside it.
    let history = b"ab\x1b[31mcd";
    assert_eq!(find_safe_history_start(history, 4), 2);
    assert_eq!(find_safe_history_start(history, 7), 7);
    // A string sequence is skipped whole (terminated by BEL).
    let osc = b"\x1b]0;title\x07rest";
    assert_eq!(find_safe_history_start(osc, 5), 0);
    assert_eq!(find_safe_history_start(osc, 10), 10);
}

#[test]
fn csi_and_string_scanners_find_sequence_ends() {
    // "\x1b[31m": parameters start at index 2, final byte 'm' at 4.
    assert_eq!(parse_csi_sequence(b"\x1b[31m", 2), 5);
    // Unterminated CSI runs to the end.
    assert_eq!(parse_csi_sequence(b"\x1b[31", 2), 4);
    // BEL ends an OSC string.
    assert_eq!(parse_string_sequence(b"\x1b]0;t\x07x", 2), 6);
    // ESC backslash ends it too.
    assert_eq!(parse_string_sequence(b"\x1b]0;t\x1b\\x", 2), 7);
}

#[test]
fn trim_with_zero_limit_discards_all() {
    let mut bytes = b"hello".to_vec();
    trim_history_to_boundary(&mut bytes, 0);
    assert_eq!(bytes.len(), 0);
}

#[test]
fn trim_keeps_content_under_limit() {
    let mut bytes = b"hello".to_vec();
    trim_history_to_boundary(&mut bytes, 5);
    assert_eq!(bytes, b"hello".to_vec());
}

#[test]
fn ring_append_enforces_limit_on_plain_text() {
    let mut ring = HistoryRing::new(4);
    ring.append(b"abc");
    assert_eq!(ring.snapshot_bytes(), b"abc".to_vec());
    ring.append(b"def");
    assert_eq!(ring.snapshot_bytes(), b"cdef".to_vec());
    assert_eq!(ring.len(), 4);
}

#[test]
fn ring_append_rounds_cut_down_to_sequence_boundary() {
    // Limit 8 with 14 bytes asks to drop 6, but position 6 would be
    // inside the CSI, so only the 5 plain bytes before it go.
    let mut ring = HistoryRing::new(8);
    ring.append(b"hello\x1b[31mworld");
    assert_eq!(ring.snapshot_bytes(), b"\x1b[31mworld".to_vec());
}
