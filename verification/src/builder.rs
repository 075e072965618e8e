//! The snapshot builder: a per-session parser that consumes raw PTY bytes
//! and maintains the terminal snapshot.
//!
//! The builder recognizes the control sequences that change latched state
//! (SGR, cursor style, margins, mode set/reset, full reset) and ignores
//! everything else; unknown or malformed sequences leave the snapshot
//! unchanged.  Sequences split across chunks are carried in the parser
//! state.

use vstd::prelude::*;
use crate::history::is_string_intro;
use crate::snapshot::{
    apply_actions_to_snapshot, default_snapshot_view, default_terminal_snapshot,
    spec_apply_action, spec_apply_actions, spec_apply_dec_private, spec_apply_terminal_mode,
    CursorShape, ScrollRegion, SgrAttribute, SnapshotView,
    TerminalAction, TerminalBlink, TerminalColor, TerminalIntensity, TerminalSnapshot,
    TerminalUnderline,
};

verus! {

/// Most parameters one CSI sequence may carry; further separators mark
/// the sequence as ignored.
pub const MAX_CSI_PARAMS: usize = 32;

/// Where the parser stands between two bytes.
#[derive(Debug, Clone, Copy, PartialEq, Eq, Structural)]
pub enum ParseState {
    /// Plain output.
    Ground,
    /// After an `ESC`.
    Escape,
    /// Inside a CSI sequence.
    Csi,
    /// Inside an OSC, DCS, PM or APC string sequence.
    StringSeq,
    /// Inside a string sequence, after an `ESC` that may begin `ESC \`.
    StringEsc,
}

/// The stateful parser and the snapshot it maintains.  `rows` is the
/// current PTY height in rows, against which set-margin sequences are
/// validated.
#[derive(Debug, Clone)]
pub struct SnapshotBuilder {
    pub snapshot: TerminalSnapshot,
    pub rows: u16,
    pub state: ParseState,
    pub csi_private: bool,
    pub csi_params: Vec<u16>,
    pub csi_current: u16,
    pub csi_has_digits: bool,
    pub csi_space: bool,
    pub csi_ignored: bool,
}

/// The mathematical model of the builder.
#[verifier::ext_equal]
pub struct BuilderView {
    pub snapshot: SnapshotView,
    pub rows: u16,
    pub state: ParseState,
    pub csi_private: bool,
    pub csi_params: Seq<u16>,
    pub csi_current: u16,
    pub csi_has_digits: bool,
    pub csi_space: bool,
    pub csi_ignored: bool,
}

impl View for SnapshotBuilder {
    type V = BuilderView;

    open spec fn view(&self) -> BuilderView {
        BuilderView {
            snapshot: self.snapshot@,
            rows: self.rows,
            state: self.state,
            csi_private: self.csi_private,
            csi_params: self.csi_params@,
            csi_current: self.csi_current,
            csi_has_digits: self.csi_has_digits,
            csi_space: self.csi_space,
            csi_ignored: self.csi_ignored,
        }
    }
}

/// A builder with cleared CSI accumulators, in the given state.
pub open spec fn reset_csi(b: BuilderView, state: ParseState) -> BuilderView {
    BuilderView {
        state,
        csi_private: false,
        csi_params: Seq::empty(),
        csi_current: 0,
        csi_has_digits: false,
        csi_space: false,
        csi_ignored: false,
        ..b
    }
}

/// Append a decimal digit to a parameter, saturating at 65535.
pub open spec fn sat_param(current: u16, digit: u16) -> u16 {
    if current * 10 + digit > 65535 {
        65535u16
    } else {
        (current * 10 + digit) as u16
    }
}

/// The parameter list once the final byte arrives: a parameter being
/// accumulated is completed, and a trailing separator yields an empty
/// (zero) parameter.
pub open spec fn finish_params(b: BuilderView) -> Seq<u16> {
    if b.csi_has_digits {
        b.csi_params.push(b.csi_current)
    } else if b.csi_params.len() > 0 {
        b.csi_params.push(0u16)
    } else {
        b.csi_params
    }
}

/// The one simple attribute change an SGR code stands for, if any.
pub open spec fn sgr_simple(p: u16) -> Option<SgrAttribute> {
    if p == 0 {
        Some(SgrAttribute::Reset)
    } else if p == 1 {
        Some(SgrAttribute::Intensity(TerminalIntensity::Bold))
    } else if p == 2 {
        Some(SgrAttribute::Intensity(TerminalIntensity::Faint))
    } else if p == 22 {
        Some(SgrAttribute::Intensity(TerminalIntensity::Normal))
    } else if p == 3 {
        Some(SgrAttribute::Italic(true))
    } else if p == 23 {
        Some(SgrAttribute::Italic(false))
    } else if p == 4 {
        Some(SgrAttribute::Underline(TerminalUnderline::Single))
    } else if p == 21 {
        Some(SgrAttribute::Underline(TerminalUnderline::Double))
    } else if p == 24 {
        Some(SgrAttribute::Underline(TerminalUnderline::NoUnderline))
    } else if p == 5 {
        Some(SgrAttribute::Blink(TerminalBlink::Slow))
    } else if p == 6 {
        Some(SgrAttribute::Blink(TerminalBlink::Rapid))
    } else if p == 25 {
        Some(SgrAttribute::Blink(TerminalBlink::NoBlink))
    } else if p == 7 {
        Some(SgrAttribute::Inverse(true))
    } else if p == 27 {
        Some(SgrAttribute::Inverse(false))
    } else if p == 8 {
        Some(SgrAttribute::Invisible(true))
    } else if p == 28 {
        Some(SgrAttribute::Invisible(false))
    } else if p == 9 {
        Some(SgrAttribute::StrikeThrough(true))
    } else if p == 29 {
        Some(SgrAttribute::StrikeThrough(false))
    } else if 30 <= p && p <= 37 {
        Some(SgrAttribute::Foreground(TerminalColor::Ansi((p - 30) as u8)))
    } else if p == 39 {
        Some(SgrAttribute::Foreground(TerminalColor::Default))
    } else if 90 <= p && p <= 97 {
        Some(SgrAttribute::Foreground(TerminalColor::Ansi((p - 90 + 8) as u8)))
    } else if 40 <= p && p <= 47 {
        Some(SgrAttribute::Background(TerminalColor::Ansi((p - 40) as u8)))
    } else if p == 49 {
        Some(SgrAttribute::Background(TerminalColor::Default))
    } else if 100 <= p && p <= 107 {
        Some(SgrAttribute::Background(TerminalColor::Ansi((p - 100 + 8) as u8)))
    } else {
        None
    }
}

/// A foreground or background change, by the introducing code 38 or 48.
pub open spec fn sgr_color(p: u16, color: TerminalColor) -> SgrAttribute {
    if p == 38 {
        SgrAttribute::Foreground(color)
    } else {
        SgrAttribute::Background(color)
    }
}

/// The actions an SGR parameter list stands for.  Extended colors use the
/// `38;5;index` and `38;2;r;g;b` forms (48 for background); a malformed
/// extended color ends interpretation of the list.
pub open spec fn spec_sgr_actions(params: Seq<u16>) -> Seq<TerminalAction>
    decreases params.len(),
{
    if params.len() == 0 {
        Seq::empty()
    } else {
        let p = params[0];
        if p == 38 || p == 48 {
            if params.len() >= 3 && params[1] == 5 {
                if params[2] <= 255 {
                    seq![TerminalAction::Sgr(sgr_color(p, TerminalColor::Ansi(params[2] as u8)))]
                        + spec_sgr_actions(params.skip(3))
                } else {
                    spec_sgr_actions(params.skip(3))
                }
            } else if params.len() >= 5 && params[1] == 2 {
                if params[2] <= 255 && params[3] <= 255 && params[4] <= 255 {
                    seq![TerminalAction::Sgr(sgr_color(p, TerminalColor::Rgb {
                        r: params[2] as u8,
                        g: params[3] as u8,
                        b: params[4] as u8,
                    }))] + spec_sgr_actions(params.skip(5))
                } else {
                    spec_sgr_actions(params.skip(5))
                }
            } else {
                Seq::empty()
            }
        } else {
            match sgr_simple(p) {
                Some(a) => seq![TerminalAction::Sgr(a)] + spec_sgr_actions(params.drop_first()),
                None => spec_sgr_actions(params.drop_first()),
            }
        }
    }
}

/// One mode set/reset action for each parameter.
pub open spec fn spec_mode_actions(params: Seq<u16>, private: bool, enabled: bool) -> Seq<
    TerminalAction,
>
    decreases params.len(),
{
    if params.len() == 0 {
        Seq::empty()
    } else {
        let head = if private {
            TerminalAction::SetDecPrivateMode { code: params[0], enabled }
        } else {
            TerminalAction::SetTerminalMode { code: params[0], enabled }
        };
        seq![head] + spec_mode_actions(params.drop_first(), private, enabled)
    }
}

/// The cursor shape a cursor-style parameter selects, if any.
pub open spec fn cursor_style_shape(p: u16) -> Option<CursorShape> {
    if p == 0 {
        Some(CursorShape::Default)
    } else if p == 1 {
        Some(CursorShape::BlinkingBlock)
    } else if p == 2 {
        Some(CursorShape::SteadyBlock)
    } else if p == 3 {
        Some(CursorShape::BlinkingUnderline)
    } else if p == 4 {
        Some(CursorShape::SteadyUnderline)
    } else if p == 5 {
        Some(CursorShape::BlinkingBar)
    } else if p == 6 {
        Some(CursorShape::SteadyBar)
    } else {
        None
    }
}

/// The actions of a set-top-and-bottom-margins sequence: both one-based
/// parameters present select a region when it fits in the current height
/// (`bottom < rows`; the snapshot further requires `top < bottom`); a
/// missing bottom or a region beyond the height clears it.
pub open spec fn spec_margin_actions(params: Seq<u16>, rows: u16) -> Seq<TerminalAction> {
    let top = if params.len() >= 1 && params[0] > 0 {
        params[0]
    } else {
        1u16
    };
    if params.len() >= 2 && params[1] > 0 && params[1] - 1 < rows {
        seq![TerminalAction::SetScrollRegion {
            top: (top - 1) as usize,
            bottom: (params[1] - 1) as usize,
        }]
    } else {
        seq![TerminalAction::SetScrollRegion { top: 0, bottom: 0 }]
    }
}

/// The actions a completed CSI sequence stands for.
pub open spec fn spec_csi_actions(
    params: Seq<u16>,
    private: bool,
    space: bool,
    ignored: bool,
    fin: u8,
    rows: u16,
) -> Seq<TerminalAction> {
    if ignored {
        Seq::empty()
    } else if space {
        if fin == 0x71 {
            let p = if params.len() >= 1 {
                params[0]
            } else {
                0u16
            };
            match cursor_style_shape(p) {
                Some(shape) => seq![TerminalAction::CursorStyle(shape)],
                None => Seq::empty(),
            }
        } else {
            Seq::empty()
        }
    } else if fin == 0x6d {
        if params.len() == 0 {
            spec_sgr_actions(seq![0u16])
        } else {
            spec_sgr_actions(params)
        }
    } else if fin == 0x68 {
        spec_mode_actions(params, private, true)
    } else if fin == 0x6c {
        spec_mode_actions(params, private, false)
    } else if fin == 0x72 && !private {
        spec_margin_actions(params, rows)
    } else {
        Seq::empty()
    }
}

/// One step of the parser on one byte in `Ground` state.
pub open spec fn spec_step_ground(b: BuilderView, byte: u8) -> BuilderView {
    if byte == 0x1b {
        BuilderView { state: ParseState::Escape, ..b }
    } else {
        b
    }
}

/// One step in `Escape` state.
pub open spec fn spec_step_escape(b: BuilderView, byte: u8) -> BuilderView {
    if byte == 0x5b {
        reset_csi(b, ParseState::Csi)
    } else if is_string_intro(byte) {
        BuilderView { state: ParseState::StringSeq, ..b }
    } else if byte == 0x63 {
        BuilderView { snapshot: default_snapshot_view(), state: ParseState::Ground, ..b }
    } else if byte == 0x1b {
        b
    } else {
        BuilderView { state: ParseState::Ground, ..b }
    }
}

/// One step in `Csi` state.
pub open spec fn spec_step_csi(b: BuilderView, byte: u8) -> BuilderView {
    if 0x30 <= byte && byte <= 0x39 {
        BuilderView {
            csi_current: sat_param(b.csi_current, (byte - 0x30) as u16),
            csi_has_digits: true,
            ..b
        }
    } else if byte == 0x3b {
        if b.csi_params.len() >= MAX_CSI_PARAMS {
            BuilderView { csi_ignored: true, ..b }
        } else {
            BuilderView {
                csi_params: b.csi_params.push(b.csi_current),
                csi_current: 0,
                csi_has_digits: false,
                ..b
            }
        }
    } else if byte == 0x3a {
        BuilderView { csi_ignored: true, ..b }
    } else if 0x3c <= byte && byte <= 0x3f {
        BuilderView { csi_private: true, ..b }
    } else if byte == 0x20 {
        BuilderView { csi_space: true, ..b }
    } else if 0x21 <= byte && byte <= 0x2f {
        BuilderView { csi_ignored: true, ..b }
    } else if 0x40 <= byte && byte <= 0x7e {
        let actions = spec_csi_actions(finish_params(b), b.csi_private, b.csi_space, b.csi_ignored,
            byte, b.rows);
        reset_csi(
            BuilderView { snapshot: spec_apply_actions(b.snapshot, actions), ..b },
            ParseState::Ground,
        )
    } else if byte == 0x1b {
        BuilderView { state: ParseState::Escape, ..b }
    } else {
        b
    }
}

/// One step in `StringSeq` state.
pub open spec fn spec_step_string(b: BuilderView, byte: u8) -> BuilderView {
    if byte == 7 {
        BuilderView { state: ParseState::Ground, ..b }
    } else if byte == 0x1b {
        BuilderView { state: ParseState::StringEsc, ..b }
    } else {
        b
    }
}

/// One step in `StringEsc` state.
pub open spec fn spec_step_string_esc(b: BuilderView, byte: u8) -> BuilderView {
    if byte == 0x5c {
        BuilderView { state: ParseState::Ground, ..b }
    } else if byte == 0x1b {
        b
    } else {
        BuilderView { state: ParseState::StringSeq, ..b }
    }
}

/// One step of the parser on one byte.
pub open spec fn spec_builder_step(b: BuilderView, byte: u8) -> BuilderView {
    match b.state {
        ParseState::Ground => spec_step_ground(b, byte),
        ParseState::Escape => spec_step_escape(b, byte),
        ParseState::Csi => spec_step_csi(b, byte),
        ParseState::StringSeq => spec_step_string(b, byte),
        ParseState::StringEsc => spec_step_string_esc(b, byte),
    }
}

/// The parser after a whole chunk of bytes, in order.
pub open spec fn spec_builder_feed(b: BuilderView, bytes: Seq<u8>) -> BuilderView
    decreases bytes.len(),
{
    if bytes.len() == 0 {
        b
    } else {
        spec_builder_feed(spec_builder_step(b, bytes[0]), bytes.drop_first())
    }
}

/// The builder a fresh session starts with: default snapshot, the given
/// PTY height, ground state, cleared accumulators.
pub open spec fn initial_builder_view(rows: u16) -> BuilderView {
    BuilderView {
        snapshot: default_snapshot_view(),
        rows,
        state: ParseState::Ground,
        csi_private: false,
        csi_params: Seq::empty(),
        csi_current: 0,
        csi_has_digits: false,
        csi_space: false,
        csi_ignored: false,
    }
}

/// The actions a completed CSI sequence stands for.
fn csi_actions(params: &Vec<u16>, private: bool, space: bool, ignored: bool, fin: u8, rows: u16)
    -> (r: Vec<TerminalAction>)
    ensures
        r@ == spec_csi_actions(params@, private, space, ignored, fin, rows),
{
    let mut out: Vec<TerminalAction> = Vec::new();
    if ignored {
        return out;
    }
    if space {
        if fin == 0x71 {
            let p: u16 = if params.len() >= 1 {
                params[0]
            } else {
                0
            };
            match cursor_style_shape_exec(p) {
                Some(shape) => {
                    out.push(TerminalAction::CursorStyle(shape));
                    proof {
                        assert(out@ =~= spec_csi_actions(params@, private, space, ignored, fin, rows));
                    }
                },
                None => {
                },
            }
        }
        return out;
    }
    if fin == 0x6d {
        if params.len() == 0 {
            let mut zero: Vec<u16> = Vec::new();
            zero.push(0);
            proof {
                assert(zero@ =~= seq![0u16]);
            }
            return sgr_actions(&zero);
        }
        return sgr_actions(params);
    }
    if fin == 0x68 {
        return mode_actions(params, private, true);
    }
    if fin == 0x6c {
        return mode_actions(params, private, false);
    }
    if fin == 0x72 && !private {
        let top: u16 = if params.len() >= 1 && params[0] > 0 {
            params[0]
        } else {
            1
        };
        if params.len() >= 2 && params[1] > 0 && params[1] - 1 < rows {
            out.push(TerminalAction::SetScrollRegion {
                top: (top - 1) as usize,
                bottom: (params[1] - 1) as usize,
            });
        } else {
            out.push(TerminalAction::SetScrollRegion { top: 0, bottom: 0 });
        }
        proof {
            assert(out@ =~= spec_margin_actions(params@, rows));
        }
        return out;
    }
    out
}

/// The cursor shape a cursor-style parameter selects, if any.
fn cursor_style_shape_exec(p: u16) -> (r: Option<CursorShape>)
    ensures
        r == cursor_style_shape(p),
{
    if p == 0 {
        Some(CursorShape::Default)
    } else if p == 1 {
        Some(CursorShape::BlinkingBlock)
    } else if p == 2 {
        Some(CursorShape::SteadyBlock)
    } else if p == 3 {
        Some(CursorShape::BlinkingUnderline)
    } else if p == 4 {
        Some(CursorShape::SteadyUnderline)
    } else if p == 5 {
        Some(CursorShape::BlinkingBar)
    } else if p == 6 {
        Some(CursorShape::SteadyBar)
    } else {
        None
    }
}

/// One mode action per parameter.
fn mode_actions(params: &Vec<u16>, private: bool, enabled: bool) -> (r: Vec<TerminalAction>)
    ensures
        r@ == spec_mode_actions(params@, private, enabled),
{
    let n: usize = params.len();
    let mut out: Vec<TerminalAction> = Vec::new();
    let mut i: usize = 0;
    proof {
        assert(params@.skip(0) =~= params@);
    }
    while i < n
        invariant
            i <= n,
            n == params@.len(),
            spec_mode_actions(params@, private, enabled) == out@ + spec_mode_actions(params@.skip(
                i as int,
            ), private, enabled),
        decreases n - i,
    {
        let code = params[i];
        if private {
            out.push(TerminalAction::SetDecPrivateMode { code, enabled });
        } else {
            out.push(TerminalAction::SetTerminalMode { code, enabled });
        }
        proof {
            assert(params@.skip(i as int)[0] == params@[i as int]);
            assert(params@.skip(i as int).drop_first() =~= params@.skip(i as int + 1));
            assert(spec_mode_actions(params@, private, enabled) =~= out@ + spec_mode_actions(
                params@.skip(i as int + 1),
                private,
                enabled,
            ));
        }
        i = i + 1;
    }
    proof {
        assert(params@.skip(n as int) =~= Seq::<u16>::empty());
        assert(out@ =~= spec_mode_actions(params@, private, enabled));
    }
    out
}

/// The one simple attribute change an SGR code stands for, if any.
fn sgr_simple_exec(p: u16) -> (r: Option<SgrAttribute>)
    ensures
        r == sgr_simple(p),
{
    if p == 0 {
        Some(SgrAttribute::Reset)
    } else if p == 1 {
        Some(SgrAttribute::Intensity(TerminalIntensity::Bold))
    } else if p == 2 {
        Some(SgrAttribute::Intensity(TerminalIntensity::Faint))
    } else if p == 22 {
        Some(SgrAttribute::Intensity(TerminalIntensity::Normal))
    } else if p == 3 {
        Some(SgrAttribute::Italic(true))
    } else if p == 23 {
        Some(SgrAttribute::Italic(false))
    } else if p == 4 {
        Some(SgrAttribute::Underline(TerminalUnderline::Single))
    } else if p == 21 {
        Some(SgrAttribute::Underline(TerminalUnderline::Double))
    } else if p == 24 {
        Some(SgrAttribute::Underline(TerminalUnderline::NoUnderline))
    } else if p == 5 {
        Some(SgrAttribute::Blink(TerminalBlink::Slow))
    } else if p == 6 {
        Some(SgrAttribute::Blink(TerminalBlink::Rapid))
    } else if p == 25 {
        Some(SgrAttribute::Blink(TerminalBlink::NoBlink))
    } else if p == 7 {
        Some(SgrAttribute::Inverse(true))
    } else if p == 27 {
        Some(SgrAttribute::Inverse(false))
    } else if p == 8 {
        Some(SgrAttribute::Invisible(true))
    } else if p == 28 {
        Some(SgrAttribute::Invisible(false))
    } else if p == 9 {
        Some(SgrAttribute::StrikeThrough(true))
    } else if p == 29 {
        Some(SgrAttribute::StrikeThrough(false))
    } else if 30 <= p && p <= 37 {
        Some(SgrAttribute::Foreground(TerminalColor::Ansi((p - 30) as u8)))
    } else if p == 39 {
        Some(SgrAttribute::Foreground(TerminalColor::Default))
    } else if 90 <= p && p <= 97 {
        Some(SgrAttribute::Foreground(TerminalColor::Ansi((p - 90 + 8) as u8)))
    } else if 40 <= p && p <= 47 {
        Some(SgrAttribute::Background(TerminalColor::Ansi((p - 40) as u8)))
    } else if p == 49 {
        Some(SgrAttribute::Background(TerminalColor::Default))
    } else if 100 <= p && p <= 107 {
        Some(SgrAttribute::Background(TerminalColor::Ansi((p - 100 + 8) as u8)))
    } else {
        None
    }
}

/// The actions an SGR parameter list stands for.
#[verifier::rlimit(100)]
fn sgr_actions(params: &Vec<u16>) -> (r: Vec<TerminalAction>)
    ensures
        r@ == spec_sgr_actions(params@),
{
    let n: usize = params.len();
    let mut out: Vec<TerminalAction> = Vec::new();
    let mut i: usize = 0;
    proof {
        assert(params@.skip(0) =~= params@);
    }
    while i < n
        invariant
            i <= n,
            n == params@.len(),
            spec_sgr_actions(params@) == out@ + spec_sgr_actions(params@.skip(i as int)),
        decreases n - i,
    {
        let ghost rest = params@.skip(i as int);
        proof {
            assert(rest[0] == params@[i as int]);
        }
        let p = params[i];
        if p == 38 || p == 48 {
            if n - i > 2 && params[i + 1] == 5 {
                proof {
                    assert(rest[1] == params@[i as int + 1]);
                    assert(rest[2] == params@[i as int + 2]);
                    assert(rest.skip(3) =~= params@.skip(i as int + 3));
                }
                let index = params[i + 2];
                if index <= 255 {
                    let color = TerminalColor::Ansi(index as u8);
                    if p == 38 {
                        out.push(TerminalAction::Sgr(SgrAttribute::Foreground(color)));
                    } else {
                        out.push(TerminalAction::Sgr(SgrAttribute::Background(color)));
                    }
                }
                proof {
                    assert(spec_sgr_actions(params@) =~= out@ + spec_sgr_actions(params@.skip(
                        i as int + 3,
                    )));
                }
                i = i + 3;
            } else if n - i > 4 && params[i + 1] == 2 {
                proof {
                    assert(rest[1] == params@[i as int + 1]);
                    assert(rest[2] == params@[i as int + 2]);
                    assert(rest[3] == params@[i as int + 3]);
                    assert(rest[4] == params@[i as int + 4]);
                    assert(rest.skip(5) =~= params@.skip(i as int + 5));
                }
                let pr = params[i + 2];
                let pg = params[i + 3];
                let pb = params[i + 4];
                if pr <= 255 && pg <= 255 && pb <= 255 {
                    let color = TerminalColor::Rgb { r: pr as u8, g: pg as u8, b: pb as u8 };
                    if p == 38 {
                        out.push(TerminalAction::Sgr(SgrAttribute::Foreground(color)));
                    } else {
                        out.push(TerminalAction::Sgr(SgrAttribute::Background(color)));
                    }
                }
                proof {
                    assert(spec_sgr_actions(params@) =~= out@ + spec_sgr_actions(params@.skip(
                        i as int + 5,
                    )));
                }
                i = i + 5;
            } else {
                proof {
                    assert(spec_sgr_actions(rest) =~= Seq::<TerminalAction>::empty());
                    assert(out@ =~= spec_sgr_actions(params@));
                }
                return out;
            }
        } else {
            match sgr_simple_exec(p) {
                Some(a) => {
                    out.push(TerminalAction::Sgr(a));
                },
                None => {
                },
            }
            proof {
                assert(rest.drop_first() =~= params@.skip(i as int + 1));
                assert(spec_sgr_actions(params@) =~= out@ + spec_sgr_actions(params@.skip(i as int
                    + 1)));
            }
            i = i + 1;
        }
    }
    proof {
        assert(params@.skip(n as int) =~= Seq::<u16>::empty());
        assert(out@ =~= spec_sgr_actions(params@));
    }
    out
}

impl SnapshotBuilder {
    /// A fresh builder with the default snapshot, validating margins
    /// against the given PTY height.
    pub fn new(rows: u16) -> (r: SnapshotBuilder)
        ensures
            r@ == initial_builder_view(rows),
    {
        let r = SnapshotBuilder {
            snapshot: default_terminal_snapshot(),
            rows,
            state: ParseState::Ground,
            csi_private: false,
            csi_params: Vec::new(),
            csi_current: 0,
            csi_has_digits: false,
            csi_space: false,
            csi_ignored: false,
        };
        proof {
            assert(r@ =~= initial_builder_view(rows));
        }
        r
    }

    /// Consume one byte.
    #[verifier::rlimit(100)]
    pub fn feed_byte(&mut self, byte: u8)
        ensures
            final(self)@ == spec_builder_step(old(self)@, byte),
    {
        match self.state {
            ParseState::Ground => {
                if byte == 0x1b {
                    self.state = ParseState::Escape;
                }
                proof {
                    assert(final(self)@ =~= spec_step_ground(old(self)@, byte));
                }
            },
            ParseState::Escape => {
                if byte == 0x5b {
                    self.state = ParseState::Csi;
                    self.csi_private = false;
                    self.csi_params = Vec::new();
                    self.csi_current = 0;
                    self.csi_has_digits = false;
                    self.csi_space = false;
                    self.csi_ignored = false;
                } else if byte == 0x5d || byte == 0x50 || byte == 0x5e || byte == 0x5f {
                    self.state = ParseState::StringSeq;
                } else if byte == 0x63 {
                    self.snapshot = default_terminal_snapshot();
                    self.state = ParseState::Ground;
                } else if byte == 0x1b {
                } else {
                    self.state = ParseState::Ground;
                }
                proof {
                    assert(final(self)@ =~= spec_step_escape(old(self)@, byte));
                }
            },
            ParseState::Csi => {
                self.feed_csi_byte(byte);
            },
            ParseState::StringSeq => {
                if byte == 7 {
                    self.state = ParseState::Ground;
                } else if byte == 0x1b {
                    self.state = ParseState::StringEsc;
                }
                proof {
                    assert(final(self)@ =~= spec_step_string(old(self)@, byte));
                }
            },
            ParseState::StringEsc => {
                if byte == 0x5c {
                    self.state = ParseState::Ground;
                } else if byte == 0x1b {
                } else {
                    self.state = ParseState::StringSeq;
                }
                proof {
                    assert(final(self)@ =~= spec_step_string_esc(old(self)@, byte));
                }
            },
        }
    }

    /// Consume one byte while inside a CSI sequence.
    #[verifier::rlimit(100)]
    fn feed_csi_byte(&mut self, byte: u8)
        requires
            old(self)@.state == ParseState::Csi,
        ensures
            final(self)@ == spec_step_csi(old(self)@, byte),
    {
        if 0x30 <= byte && byte <= 0x39 {
            let digit: u16 = (byte - 0x30) as u16;
            let raw: u32 = (self.csi_current as u32) * 10 + (digit as u32);
            self.csi_current = if raw > 65535 {
                65535
            } else {
                raw as u16
            };
            self.csi_has_digits = true;
            proof {
                assert(final(self)@ =~= spec_step_csi(old(self)@, byte));
            }
        } else if byte == 0x3b {
            if self.csi_params.len() >= MAX_CSI_PARAMS {
                self.csi_ignored = true;
            } else {
                let current = self.csi_current;
                self.csi_params.push(current);
                self.csi_current = 0;
                self.csi_has_digits = false;
            }
            proof {
                assert(final(self)@ =~= spec_step_csi(old(self)@, byte));
            }
        } else if byte == 0x3a {
            self.csi_ignored = true;
            proof {
                assert(final(self)@ =~= spec_step_csi(old(self)@, byte));
            }
        } else if 0x3c <= byte && byte <= 0x3f {
            self.csi_private = true;
            proof {
                assert(final(self)@ =~= spec_step_csi(old(self)@, byte));
            }
        } else if byte == 0x20 {
            self.csi_space = true;
            proof {
                assert(final(self)@ =~= spec_step_csi(old(self)@, byte));
            }
        } else if 0x21 <= byte && byte <= 0x2f {
            self.csi_ignored = true;
            proof {
                assert(final(self)@ =~= spec_step_csi(old(self)@, byte));
            }
        } else if 0x40 <= byte && byte <= 0x7e {
            if self.csi_has_digits {
                let current = self.csi_current;
                self.csi_params.push(current);
            } else if self.csi_params.len() > 0 {
                self.csi_params.push(0);
            }
            proof {
                assert(self.csi_params@ == finish_params(old(self)@));
            }
            let actions = csi_actions(
                &self.csi_params,
                self.csi_private,
                self.csi_space,
                self.csi_ignored,
                byte,
                self.rows,
            );
            apply_actions_to_snapshot(&actions, &mut self.snapshot);
            self.state = ParseState::Ground;
            self.csi_private = false;
            self.csi_params = Vec::new();
            self.csi_current = 0;
            self.csi_has_digits = false;
            self.csi_space = false;
            self.csi_ignored = false;
            proof {
                assert(final(self)@ =~= spec_step_csi(old(self)@, byte));
            }
        } else if byte == 0x1b {
            self.state = ParseState::Escape;
            proof {
                assert(final(self)@ =~= spec_step_csi(old(self)@, byte));
            }
        } else {
            proof {
                assert(final(self)@ =~= spec_step_csi(old(self)@, byte));
            }
        }
    }

    /// Consume a whole chunk of PTY output.
    pub fn feed_bytes(&mut self, chunk: &[u8])
        ensures
            final(self)@ == spec_builder_feed(old(self)@, chunk@),
    {
        let n: usize = chunk.len();
        let mut i: usize = 0;
        proof {
            assert(chunk@.skip(0) =~= chunk@);
        }
        while i < n
            invariant
                i <= n,
                n == chunk@.len(),
                spec_builder_feed(old(self)@, chunk@) == spec_builder_feed(self@, chunk@.skip(
                    i as int,
                )),
            decreases n - i,
        {
            self.feed_byte(chunk[i]);
            proof {
                assert(chunk@.skip(i as int)[0] == chunk@[i as int]);
                assert(chunk@.skip(i as int).drop_first() =~= chunk@.skip(i as int + 1));
            }
            i = i + 1;
        }
        proof {
            assert(chunk@.skip(n as int) =~= Seq::<u8>::empty());
        }
    }
}

/// Feeding two chunks one after the other is the same as feeding their
/// concatenation: chunk boundaries do not affect the parse.
pub proof fn lemma_builder_feed_concat(b: BuilderView, first: Seq<u8>, second: Seq<u8>)
    ensures
        spec_builder_feed(spec_builder_feed(b, first), second) == spec_builder_feed(b, first
            + second),
    decreases first.len(),
{
    if first.len() == 0 {
        assert(first + second =~= second);
    } else {
        let stepped = spec_builder_step(b, first[0]);
        lemma_builder_feed_concat(stepped, first.drop_first(), second);
        assert((first + second).drop_first() =~= first.drop_first() + second);
        assert((first + second)[0] == first[0]);
    }
}

} // verus!
