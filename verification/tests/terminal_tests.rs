use termwiz::escape::csi::{Sgr, CSI};
use termwiz::escape::parser::Parser;
use termwiz::escape::Action;
use workforest_core::builder::SnapshotBuilder;
use workforest_core::snapshot::{
    apply_action_to_snapshot, default_terminal_snapshot, set_mode_entry, CursorShape, ModeEntry,
    ScrollRegion, SgrAttribute, TerminalAction, TerminalBlink, TerminalColor, TerminalIntensity,
    TerminalUnderline,
};

#[test]
fn default_snapshot_state() {
    let snapshot = default_terminal_snapshot();
    assert!(snapshot.cursor_visible);
    assert!(snapshot.wrap_mode);
    assert!(!snapshot.alt_screen);
    assert!(!snapshot.insert_mode);
    assert!(snapshot.scroll_region.is_none());
    assert_eq!(snapshot.attributes.foreground, TerminalColor::Default);
    assert_eq!(snapshot.cursor_shape, CursorShape::Default);
    assert!(snapshot.dec_private_modes.is_empty());
    assert!(snapshot.terminal_modes.is_empty());
}

#[test]
fn set_mode_entry_updates_in_place() {
    let mut entries: Vec<ModeEntry> = Vec::new();
    set_mode_entry(&mut entries, 25, true);
    set_mode_entry(&mut entries, 1049, true);
    set_mode_entry(&mut entries, 25, false);
    assert_eq!(
        entries,
        vec![
            ModeEntry { code: 25, enabled: false },
            ModeEntry { code: 1049, enabled: true },
        ]
    );
}

#[test]
fn sgr_bytes_latch_attributes() {
    let mut b = SnapshotBuilder::new(24);
    b.feed_bytes(b"\x1b[1;31;44m");
    assert_eq!(b.snapshot.attributes.intensity, TerminalIntensity::Bold);
    assert_eq!(b.snapshot.attributes.foreground, TerminalColor::Ansi(1));
    assert_eq!(b.snapshot.attributes.background, TerminalColor::Ansi(4));
    b.feed_bytes(b"\x1b[0m");
    assert_eq!(b.snapshot.attributes, default_terminal_snapshot().attributes);
}

#[test]
fn extended_colors_parse() {
    let mut b = SnapshotBuilder::new(24);
    b.feed_bytes(b"\x1b[38;5;196m");
    assert_eq!(b.snapshot.attributes.foreground, TerminalColor::Ansi(196));
    b.feed_bytes(b"\x1b[48;2;10;20;30m");
    assert_eq!(
        b.snapshot.attributes.background,
        TerminalColor::Rgb { r: 10, g: 20, b: 30 }
    );
}

#[test]
fn bright_and_default_colors_parse() {
    let mut b = SnapshotBuilder::new(24);
    b.feed_bytes(b"\x1b[97m");
    assert_eq!(b.snapshot.attributes.foreground, TerminalColor::Ansi(15));
    b.feed_bytes(b"\x1b[39m");
    assert_eq!(b.snapshot.attributes.foreground, TerminalColor::Default);
    b.feed_bytes(b"\x1b[4m\x1b[5m\x1b[3m\x1b[7m\x1b[9m");
    assert_eq!(b.snapshot.attributes.underline, TerminalUnderline::Single);
    assert_eq!(b.snapshot.attributes.blink, TerminalBlink::Slow);
    assert!(b.snapshot.attributes.italic);
    assert!(b.snapshot.attributes.inverse);
    assert!(b.snapshot.attributes.strikethrough);
}

#[test]
fn dec_private_modes_latch_named_fields() {
    let mut b = SnapshotBuilder::new(24);
    b.feed_bytes(b"\x1b[?25l");
    assert!(!b.snapshot.cursor_visible);
    b.feed_bytes(b"\x1b[?1049h\x1b[?1000h\x1b[?1006h\x1b[?7l");
    assert!(b.snapshot.alt_screen);
    assert!(b.snapshot.mouse_tracking);
    assert!(b.snapshot.mouse_sgr);
    assert!(!b.snapshot.wrap_mode);
    // Every observed code is also recorded in the map.
    assert!(b
        .snapshot
        .dec_private_modes
        .contains(&ModeEntry { code: 25, enabled: false }));
    assert!(b
        .snapshot
        .dec_private_modes
        .contains(&ModeEntry { code: 1049, enabled: true }));
    // An unknown code lands only in the map.
    b.feed_bytes(b"\x1b[?2004h");
    assert!(b
        .snapshot
        .dec_private_modes
        .contains(&ModeEntry { code: 2004, enabled: true }));
}

#[test]
fn standard_modes_latch_insert_and_cursor() {
    let mut b = SnapshotBuilder::new(24);
    b.feed_bytes(b"\x1b[4h");
    assert!(b.snapshot.insert_mode);
    b.feed_bytes(b"\x1b[4l");
    assert!(!b.snapshot.insert_mode);
    assert!(b
        .snapshot
        .terminal_modes
        .contains(&ModeEntry { code: 4, enabled: false }));
}

#[test]
fn cursor_style_and_margins() {
    let mut b = SnapshotBuilder::new(24);
    b.feed_bytes(b"\x1b[2 q");
    assert_eq!(b.snapshot.cursor_shape, CursorShape::SteadyBlock);
    b.feed_bytes(b"\x1b[3;10r");
    assert_eq!(b.snapshot.scroll_region, Some(ScrollRegion { top: 2, bottom: 9 }));
    // Inverted margins clear the region.
    b.feed_bytes(b"\x1b[10;3r");
    assert_eq!(b.snapshot.scroll_region, None);
    // Blinking-cursor mode 12 selects the blinking block.
    b.feed_bytes(b"\x1b[?12h");
    assert_eq!(b.snapshot.cursor_shape, CursorShape::BlinkingBlock);
}

#[test]
fn margins_beyond_the_height_clear_the_region() {
    let mut b = SnapshotBuilder::new(24);
    b.feed_bytes(b"\x1b[3;10r");
    assert_eq!(b.snapshot.scroll_region, Some(ScrollRegion { top: 2, bottom: 9 }));
    // A bottom margin past the 24-row height does not fit: cleared.
    b.feed_bytes(b"\x1b[1;30r");
    assert_eq!(b.snapshot.scroll_region, None);
    // The last row itself still fits.
    b.feed_bytes(b"\x1b[1;24r");
    assert_eq!(b.snapshot.scroll_region, Some(ScrollRegion { top: 0, bottom: 23 }));
    // A taller terminal accepts what the shorter one refused.
    let mut tall = SnapshotBuilder::new(50);
    tall.feed_bytes(b"\x1b[1;30r");
    assert_eq!(tall.snapshot.scroll_region, Some(ScrollRegion { top: 0, bottom: 29 }));
}

#[test]
fn full_reset_restores_defaults() {
    let mut b = SnapshotBuilder::new(24);
    b.feed_bytes(b"\x1b[1;31m\x1b[?25l\x1b[4h\x1b[3;10r");
    b.feed_bytes(b"\x1bc");
    assert_eq!(b.snapshot, default_terminal_snapshot());
}

#[test]
fn sequences_split_across_chunks_parse_the_same() {
    let mut split = SnapshotBuilder::new(24);
    split.feed_bytes(b"\x1b[3");
    split.feed_bytes(b"1m");
    let mut whole = SnapshotBuilder::new(24);
    whole.feed_bytes(b"\x1b[31m");
    assert_eq!(split.snapshot, whole.snapshot);
    assert_eq!(split.snapshot.attributes.foreground, TerminalColor::Ansi(1));
}

#[test]
fn unknown_sequences_leave_the_snapshot_alone() {
    let mut b = SnapshotBuilder::new(24);
    b.feed_bytes(b"plain text\x1b[2J\x1b[10;20H\x1b]0;title\x07\x1bM");
    assert_eq!(b.snapshot, default_terminal_snapshot());
}

#[test]
fn apply_action_matches_builder() {
    let mut snapshot = default_terminal_snapshot();
    apply_action_to_snapshot(
        TerminalAction::Sgr(SgrAttribute::Foreground(TerminalColor::Ansi(3))),
        &mut snapshot,
    );
    let mut b = SnapshotBuilder::new(24);
    b.feed_bytes(b"\x1b[33m");
    assert_eq!(snapshot, b.snapshot);
}

#[test]
fn sgr_interpretation_agrees_with_termwiz() {
    let bytes = b"\x1b[38;5;196m\x1b[1m\x1b[44m";
    let mut actions: Vec<Action> = Vec::new();
    let mut parser = Parser::new();
    parser.parse(bytes, |a| actions.push(a));

    let mut fg_palette: Option<u8> = None;
    let mut bold = false;
    let mut bg_palette: Option<u8> = None;
    for action in &actions {
        if let Action::CSI(CSI::Sgr(sgr)) = action {
            match sgr {
                Sgr::Foreground(spec) => {
                    if let termwiz::color::ColorSpec::PaletteIndex(i) = spec {
                        fg_palette = Some(*i);
                    }
                }
                Sgr::Background(spec) => {
                    if let termwiz::color::ColorSpec::PaletteIndex(i) = spec {
                        bg_palette = Some(*i);
                    }
                }
                Sgr::Intensity(termwiz::cell::Intensity::Bold) => {
                    bold = true;
                }
                _ => {}
            }
        }
    }

    let mut b = SnapshotBuilder::new(24);
    b.feed_bytes(bytes);
    assert_eq!(b.snapshot.attributes.foreground, TerminalColor::Ansi(fg_palette.unwrap()));
    assert_eq!(b.snapshot.attributes.background, TerminalColor::Ansi(bg_palette.unwrap()));
    assert_eq!(bold, b.snapshot.attributes.intensity == TerminalIntensity::Bold);
}
