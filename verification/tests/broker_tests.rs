use workforest_core::broker::{
    err_response, history_header, modes_header, ok_response, parse_command, Command,
};
use workforest_core::debug::{
    has_dangling_csi, hex_bytes, history_debug_from_bytes, mouse_wheel_sgr_bytes,
    MouseScrollDirection,
};

#[test]
fn parse_attach_command() {
    match parse_command(b"ATTACH demo") {
        Command::Attach { agent } => assert_eq!(agent, "demo"),
        other => panic!("unexpected command: {:?}", kind(&other)),
    }
    // A missing name parses as an empty agent; the handler rejects it.
    match parse_command(b"ATTACH") {
        Command::Attach { agent } => assert_eq!(agent, ""),
        other => panic!("unexpected command: {:?}", kind(&other)),
    }
}

#[test]
fn parse_resize_command() {
    match parse_command(b"RESIZE demo 120 40") {
        Command::Resize { agent, cols, rows } => {
            assert_eq!(agent, "demo");
            assert_eq!(cols, 120);
            assert_eq!(rows, 40);
        },
        other => panic!("unexpected command: {:?}", kind(&other)),
    }
    assert!(matches!(parse_command(b"RESIZE demo x 40"), Command::InvalidResize));
    assert!(matches!(parse_command(b"RESIZE demo 120"), Command::InvalidResize));
    assert!(matches!(parse_command(b"RESIZE demo 99999 40"), Command::InvalidResize));
}

#[test]
fn parse_input_command() {
    match parse_command(b"INPUT demo 5") {
        Command::Input { agent, len } => {
            assert_eq!(agent, "demo");
            assert_eq!(len, 5);
        },
        other => panic!("unexpected command: {:?}", kind(&other)),
    }
    assert!(matches!(parse_command(b"INPUT demo"), Command::InvalidInput));
    assert!(matches!(parse_command(b"INPUT demo -3"), Command::InvalidInput));
}

#[test]
fn parse_other_lines() {
    assert!(matches!(parse_command(b""), Command::Empty));
    assert!(matches!(parse_command(b"   \t"), Command::Empty));
    assert!(matches!(parse_command(b"DETACH demo"), Command::Unknown));
    assert!(matches!(parse_command(b"attach demo"), Command::Unknown));
}

#[test]
fn parse_tolerates_line_terminators() {
    // Lines arrive with their terminator still attached, LF or CRLF.
    match parse_command(b"ATTACH demo\n") {
        Command::Attach { agent } => assert_eq!(agent, "demo"),
        other => panic!("unexpected command: {:?}", kind(&other)),
    }
    match parse_command(b"RESIZE demo 120 40\r\n") {
        Command::Resize { agent, cols, rows } => {
            assert_eq!(agent, "demo");
            assert_eq!(cols, 120);
            assert_eq!(rows, 40);
        },
        other => panic!("unexpected command: {:?}", kind(&other)),
    }
    match parse_command(b"INPUT demo 5\n") {
        Command::Input { agent, len } => {
            assert_eq!(agent, "demo");
            assert_eq!(len, 5);
        },
        other => panic!("unexpected command: {:?}", kind(&other)),
    }
    assert!(matches!(parse_command(b"\n"), Command::Empty));
    assert!(matches!(parse_command(b"\r\n"), Command::Empty));
}

fn kind(c: &Command) -> &'static str {
    match c {
        Command::Empty => "empty",
        Command::Attach { .. } => "attach",
        Command::Resize { .. } => "resize",
        Command::Input { .. } => "input",
        Command::InvalidResize => "invalid-resize",
        Command::InvalidInput => "invalid-input",
        Command::Unknown => "unknown",
    }
}

#[test]
fn response_framing() {
    assert_eq!(ok_response(), b"OK\n".to_vec());
    assert_eq!(err_response("agent not found"), b"ERR agent not found\n".to_vec());
    assert_eq!(history_header(0), b"HISTORY 0\n".to_vec());
    assert_eq!(history_header(2097152), b"HISTORY 2097152\n".to_vec());
    assert_eq!(modes_header(b"{}"), b"MODES {}\n".to_vec());
}

#[test]
fn hex_bytes_renders_pairs() {
    assert_eq!(hex_bytes(&[]), "");
    assert_eq!(hex_bytes(&[0x00]), "00");
    assert_eq!(hex_bytes(&[0x1b, 0x5b, 0xff]), "1b 5b ff");
}

#[test]
fn dangling_csi_detection() {
    assert!(!has_dangling_csi(b""));
    assert!(!has_dangling_csi(b"hello"));
    assert!(has_dangling_csi(b"hello\x1b"));
    assert!(has_dangling_csi(b"hello\x1b[31"));
    assert!(!has_dangling_csi(b"hello\x1b[31m"));
    assert!(!has_dangling_csi(b"hello\x1bM"));
}

#[test]
fn history_debug_counts() {
    let d = history_debug_from_bytes(b"\x1b[0m0m text", "main");
    assert_eq!(d.label, "main");
    assert_eq!(d.history_len, 11);
    assert_eq!(d.esc_count, 1);
    // Both "0m" windows count: neither directly follows an ESC byte.
    assert_eq!(d.literal_0m_count, 2);
    assert!(!d.dangling_csi);
    assert_eq!(d.head_hex, hex_bytes(b"\x1b[0m0m text"));
    assert_eq!(d.tail_hex, hex_bytes(b"\x1b[0m0m text"));
}

#[test]
fn mouse_wheel_reports_in_sgr_form() {
    let up = mouse_wheel_sgr_bytes(MouseScrollDirection::Up, 9, 4).unwrap();
    assert_eq!(up, b"\x1b[<64;10;5M".to_vec());
    let down = mouse_wheel_sgr_bytes(MouseScrollDirection::Down, 0, 0).unwrap();
    assert_eq!(down, b"\x1b[<65;1;1M".to_vec());
}
