//! The structured terminal snapshot: latched modes, cursor shape,
//! character attributes and scroll region, maintained from parsed
//! terminal actions so that a late subscriber can initialize its own
//! emulator before replaying history.

use vstd::prelude::*;

verus! {

/// Cursor shape as selected by the cursor-style control sequence.
#[derive(Debug, Clone, Copy, PartialEq, Eq, Structural)]
pub enum CursorShape {
    Default,
    BlinkingBlock,
    SteadyBlock,
    BlinkingUnderline,
    SteadyUnderline,
    BlinkingBar,
    SteadyBar,
}

/// A foreground or background color: terminal default, palette index, or
/// direct color.
#[derive(Debug, Clone, Copy, PartialEq, Eq, Structural)]
pub enum TerminalColor {
    Default,
    Ansi(u8),
    Rgb { r: u8, g: u8, b: u8 },
}

/// Character intensity.
#[derive(Debug, Clone, Copy, PartialEq, Eq, Structural)]
pub enum TerminalIntensity {
    Normal,
    Bold,
    Faint,
}

/// Underline style.
#[derive(Debug, Clone, Copy, PartialEq, Eq, Structural)]
pub enum TerminalUnderline {
    NoUnderline,
    Single,
    Double,
}

/// Blink speed.
#[derive(Debug, Clone, Copy, PartialEq, Eq, Structural)]
pub enum TerminalBlink {
    NoBlink,
    Slow,
    Rapid,
}

/// The latched character attributes.
#[derive(Debug, Clone, Copy, PartialEq, Eq, Structural)]
pub struct TerminalAttributes {
    pub foreground: TerminalColor,
    pub background: TerminalColor,
    pub intensity: TerminalIntensity,
    pub underline: TerminalUnderline,
    pub blink: TerminalBlink,
    pub inverse: bool,
    pub italic: bool,
    pub hidden: bool,
    pub strikethrough: bool,
}

/// A scroll region, in zero-based rows with `top < bottom`.
#[derive(Debug, Clone, Copy, PartialEq, Eq, Structural)]
pub struct ScrollRegion {
    pub top: usize,
    pub bottom: usize,
}

/// A saved cursor position in cells.
#[derive(Debug, Clone, Copy, PartialEq, Eq, Structural)]
pub struct CursorPosition {
    pub x: usize,
    pub y: usize,
}

/// One observed mode code and its latched state.
#[derive(Debug, Clone, Copy, PartialEq, Eq, Structural)]
pub struct ModeEntry {
    pub code: u16,
    pub enabled: bool,
}

/// The emulator's visible state at one instant.
#[derive(Debug, Clone, PartialEq)]
pub struct TerminalSnapshot {
    pub alt_screen: bool,
    pub mouse_tracking: bool,
    pub mouse_button_tracking: bool,
    pub mouse_any_event: bool,
    pub mouse_sgr: bool,
    pub cursor_visible: bool,
    pub cursor_shape: CursorShape,
    pub origin_mode: bool,
    pub wrap_mode: bool,
    pub insert_mode: bool,
    pub scroll_region: Option<ScrollRegion>,
    pub attributes: TerminalAttributes,
    pub saved_cursor_main: Option<CursorPosition>,
    pub saved_cursor_alt: Option<CursorPosition>,
    pub dec_private_modes: Vec<ModeEntry>,
    pub terminal_modes: Vec<ModeEntry>,
}

/// The mathematical model of a snapshot, with the mode maps as sequences.
#[verifier::ext_equal]
pub struct SnapshotView {
    pub alt_screen: bool,
    pub mouse_tracking: bool,
    pub mouse_button_tracking: bool,
    pub mouse_any_event: bool,
    pub mouse_sgr: bool,
    pub cursor_visible: bool,
    pub cursor_shape: CursorShape,
    pub origin_mode: bool,
    pub wrap_mode: bool,
    pub insert_mode: bool,
    pub scroll_region: Option<ScrollRegion>,
    pub attributes: TerminalAttributes,
    pub saved_cursor_main: Option<CursorPosition>,
    pub saved_cursor_alt: Option<CursorPosition>,
    pub dec_private_modes: Seq<ModeEntry>,
    pub terminal_modes: Seq<ModeEntry>,
}

impl View for TerminalSnapshot {
    type V = SnapshotView;

    open spec fn view(&self) -> SnapshotView {
        SnapshotView {
            alt_screen: self.alt_screen,
            mouse_tracking: self.mouse_tracking,
            mouse_button_tracking: self.mouse_button_tracking,
            mouse_any_event: self.mouse_any_event,
            mouse_sgr: self.mouse_sgr,
            cursor_visible: self.cursor_visible,
            cursor_shape: self.cursor_shape,
            origin_mode: self.origin_mode,
            wrap_mode: self.wrap_mode,
            insert_mode: self.insert_mode,
            scroll_region: self.scroll_region,
            attributes: self.attributes,
            saved_cursor_main: self.saved_cursor_main,
            saved_cursor_alt: self.saved_cursor_alt,
            dec_private_modes: self.dec_private_modes@,
            terminal_modes: self.terminal_modes@,
        }
    }
}

/// Attributes with everything off and both colors default.
pub open spec fn default_attributes() -> TerminalAttributes {
    TerminalAttributes {
        foreground: TerminalColor::Default,
        background: TerminalColor::Default,
        intensity: TerminalIntensity::Normal,
        underline: TerminalUnderline::NoUnderline,
        blink: TerminalBlink::NoBlink,
        inverse: false,
        italic: false,
        hidden: false,
        strikethrough: false,
    }
}

/// The default snapshot: cursor visible, wrap enabled, everything else
/// off or default.
pub open spec fn default_snapshot_view() -> SnapshotView {
    SnapshotView {
        alt_screen: false,
        mouse_tracking: false,
        mouse_button_tracking: false,
        mouse_any_event: false,
        mouse_sgr: false,
        cursor_visible: true,
        cursor_shape: CursorShape::Default,
        origin_mode: false,
        wrap_mode: true,
        insert_mode: false,
        scroll_region: None,
        attributes: default_attributes(),
        saved_cursor_main: None,
        saved_cursor_alt: None,
        dec_private_modes: Seq::empty(),
        terminal_modes: Seq::empty(),
    }
}

/// The attributes a terminal starts with.
pub fn new_attributes() -> (r: TerminalAttributes)
    ensures
        r == default_attributes(),
{
    TerminalAttributes {
        foreground: TerminalColor::Default,
        background: TerminalColor::Default,
        intensity: TerminalIntensity::Normal,
        underline: TerminalUnderline::NoUnderline,
        blink: TerminalBlink::NoBlink,
        inverse: false,
        italic: false,
        hidden: false,
        strikethrough: false,
    }
}

/// The snapshot a session starts with: cursor visible, wrap enabled,
/// everything else off or default.
pub fn default_terminal_snapshot() -> (r: TerminalSnapshot)
    ensures
        r@ == default_snapshot_view(),
{
    let r = TerminalSnapshot {
        alt_screen: false,
        mouse_tracking: false,
        mouse_button_tracking: false,
        mouse_any_event: false,
        mouse_sgr: false,
        cursor_visible: true,
        cursor_shape: CursorShape::Default,
        origin_mode: false,
        wrap_mode: true,
        insert_mode: false,
        scroll_region: None,
        attributes: new_attributes(),
        saved_cursor_main: None,
        saved_cursor_alt: None,
        dec_private_modes: Vec::new(),
        terminal_modes: Vec::new(),
    };
    proof {
        assert(r@ =~= default_snapshot_view());
    }
    r
}

/// One latched attribute change carried by an SGR control sequence.
#[derive(Debug, Clone, Copy, PartialEq, Eq, Structural)]
pub enum SgrAttribute {
    Reset,
    Intensity(TerminalIntensity),
    Underline(TerminalUnderline),
    Blink(TerminalBlink),
    Italic(bool),
    Inverse(bool),
    Invisible(bool),
    StrikeThrough(bool),
    Foreground(TerminalColor),
    Background(TerminalColor),
}

/// One terminal action that affects the snapshot.  Actions that only move
/// the cursor or edit cells are not modeled: they do not change latched
/// state.
#[derive(Debug, Clone, Copy, PartialEq, Eq, Structural)]
pub enum TerminalAction {
    FullReset,
    Sgr(SgrAttribute),
    CursorStyle(CursorShape),
    SetScrollRegion { top: usize, bottom: usize },
    SetDecPrivateMode { code: u16, enabled: bool },
    SetTerminalMode { code: u16, enabled: bool },
}

/// The first index holding `code`, or -1 when the code is absent.
pub open spec fn find_mode(entries: Seq<ModeEntry>, code: u16) -> int
    decreases entries.len(),
{
    if entries.len() == 0 {
        -1
    } else if entries[0].code == code {
        0
    } else {
        let r = find_mode(entries.drop_first(), code);
        if r < 0 {
            -1
        } else {
            r + 1
        }
    }
}

/// The latched state recorded for `code`, if any.
pub open spec fn mode_state(entries: Seq<ModeEntry>, code: u16) -> Option<bool> {
    let i = find_mode(entries, code);
    if i < 0 {
        None
    } else {
        Some(entries[i].enabled)
    }
}

/// The mode map after latching `code` to `enabled`: the first entry for
/// the code is updated in place, or a new entry is appended.
pub open spec fn spec_set_mode_entry(entries: Seq<ModeEntry>, code: u16, enabled: bool) -> Seq<
    ModeEntry,
> {
    let i = find_mode(entries, code);
    if i < 0 {
        entries.push(ModeEntry { code, enabled })
    } else {
        entries.update(i, ModeEntry { code, enabled })
    }
}

pub proof fn lemma_find_mode_props(entries: Seq<ModeEntry>, code: u16)
    ensures
        find_mode(entries, code) >= 0 ==> {
            &&& find_mode(entries, code) < entries.len()
            &&& entries[find_mode(entries, code)].code == code
            &&& forall|k: int| 0 <= k < find_mode(entries, code) ==> entries[k].code != code
        },
        find_mode(entries, code) < 0 ==> find_mode(entries, code) == -1 && (forall|k: int|
            0 <= k < entries.len() ==> entries[k].code != code),
    decreases entries.len(),
{
    if entries.len() > 0 && entries[0].code != code {
        let rest = entries.drop_first();
        lemma_find_mode_props(rest, code);
        let r = find_mode(rest, code);
        if r >= 0 {
            assert(entries[r + 1] == rest[r]);
            assert forall|k: int| 0 <= k < r + 1 implies entries[k].code != code by {
                if k > 0 {
                    assert(rest[k - 1] == entries[k]);
                }
            }
        } else {
            assert forall|k: int| 0 <= k < entries.len() implies entries[k].code != code by {
                if k > 0 {
                    assert(rest[k - 1] == entries[k]);
                }
            }
        }
    }
}

proof fn lemma_find_mode_unique(entries: Seq<ModeEntry>, code: u16, i: int)
    requires
        0 <= i <= entries.len(),
        forall|k: int| 0 <= k < i ==> entries[k].code != code,
        i < entries.len() ==> entries[i].code == code,
    ensures
        i < entries.len() ==> find_mode(entries, code) == i,
        i == entries.len() ==> find_mode(entries, code) == -1,
    decreases entries.len(),
{
    if entries.len() > 0 {
        if entries[0].code == code {
        } else {
            let rest = entries.drop_first();
            assert(forall|k: int| 0 <= k < rest.len() ==> rest[k] == entries[k + 1]);
            lemma_find_mode_unique(rest, code, i - 1);
        }
    }
}

/// Latch `code` to `enabled` in a mode map: the first entry for the code
/// is updated in place, or a new entry is appended.
pub fn set_mode_entry(entries: &mut Vec<ModeEntry>, code: u16, enabled: bool)
    ensures
        final(entries)@ == spec_set_mode_entry(old(entries)@, code, enabled),
{
    let n: usize = entries.len();
    let mut i: usize = 0;
    while i < n
        invariant
            i <= n,
            n == entries@.len(),
            entries@ == old(entries)@,
            forall|k: int| 0 <= k < i ==> entries@[k].code != code,
        decreases n - i,
    {
        if entries[i].code == code {
            entries.set(i, ModeEntry { code, enabled });
            proof {
                lemma_find_mode_unique(old(entries)@, code, i as int);
            }
            return ;
        }
        i = i + 1;
    }
    entries.push(ModeEntry { code, enabled });
    proof {
        lemma_find_mode_unique(old(entries)@, code, n as int);
    }
}

/// After latching, the code reads back as latched and every other code is
/// unchanged.
pub proof fn lemma_set_mode_entry_lookup(entries: Seq<ModeEntry>, code: u16, enabled: bool)
    ensures
        mode_state(spec_set_mode_entry(entries, code, enabled), code) == Some(enabled),
        forall|other: u16|
            other != code ==> mode_state(spec_set_mode_entry(entries, code, enabled), other)
                == mode_state(entries, other),
{
    let updated = spec_set_mode_entry(entries, code, enabled);
    lemma_find_mode_props(entries, code);
    let i = find_mode(entries, code);
    if i < 0 {
        lemma_find_mode_unique(updated, code, entries.len() as int);
    } else {
        lemma_find_mode_unique(updated, code, i);
    }
    assert forall|other: u16| other != code implies mode_state(updated, other) == mode_state(
        entries,
        other,
    ) by {
        lemma_find_mode_props(entries, other);
        lemma_find_mode_props(updated, other);
        let j = find_mode(entries, other);
        if j < 0 {
            if find_mode(updated, other) >= 0 {
                assert(updated[find_mode(updated, other)].code == other);
                assert(false);
            }
        } else {
            lemma_find_mode_unique(updated, other, j);
        }
    }
}

/// Attributes after applying one SGR change.
pub open spec fn spec_apply_sgr(attrs: TerminalAttributes, sgr: SgrAttribute) -> TerminalAttributes {
    match sgr {
        SgrAttribute::Reset => default_attributes(),
        SgrAttribute::Intensity(v) => TerminalAttributes { intensity: v, ..attrs },
        SgrAttribute::Underline(v) => TerminalAttributes { underline: v, ..attrs },
        SgrAttribute::Blink(v) => TerminalAttributes { blink: v, ..attrs },
        SgrAttribute::Italic(v) => TerminalAttributes { italic: v, ..attrs },
        SgrAttribute::Inverse(v) => TerminalAttributes { inverse: v, ..attrs },
        SgrAttribute::Invisible(v) => TerminalAttributes { hidden: v, ..attrs },
        SgrAttribute::StrikeThrough(v) => TerminalAttributes { strikethrough: v, ..attrs },
        SgrAttribute::Foreground(c) => TerminalAttributes { foreground: c, ..attrs },
        SgrAttribute::Background(c) => TerminalAttributes { background: c, ..attrs },
    }
}

/// The attributes after one SGR change.
pub fn apply_sgr_attributes(sgr: SgrAttribute, attrs: TerminalAttributes) -> (r:
    TerminalAttributes)
    ensures
        r == spec_apply_sgr(attrs, sgr),
{
    match sgr {
        SgrAttribute::Reset => new_attributes(),
        SgrAttribute::Intensity(v) => TerminalAttributes { intensity: v, ..attrs },
        SgrAttribute::Underline(v) => TerminalAttributes { underline: v, ..attrs },
        SgrAttribute::Blink(v) => TerminalAttributes { blink: v, ..attrs },
        SgrAttribute::Italic(v) => TerminalAttributes { italic: v, ..attrs },
        SgrAttribute::Inverse(v) => TerminalAttributes { inverse: v, ..attrs },
        SgrAttribute::Invisible(v) => TerminalAttributes { hidden: v, ..attrs },
        SgrAttribute::StrikeThrough(v) => TerminalAttributes { strikethrough: v, ..attrs },
        SgrAttribute::Foreground(c) => TerminalAttributes { foreground: c, ..attrs },
        SgrAttribute::Background(c) => TerminalAttributes { background: c, ..attrs },
    }
}

/// Apply one SGR change to the snapshot's attributes.
pub fn apply_sgr_to_snapshot(sgr: SgrAttribute, snapshot: &mut TerminalSnapshot)
    ensures
        final(snapshot)@ == (SnapshotView {
            attributes: spec_apply_sgr(old(snapshot)@.attributes, sgr),
            ..old(snapshot)@
        }),
{
    snapshot.attributes = apply_sgr_attributes(sgr, snapshot.attributes);
    proof {
        assert(final(snapshot)@ =~= (SnapshotView {
            attributes: spec_apply_sgr(old(snapshot)@.attributes, sgr),
            ..old(snapshot)@
        }));
    }
}

/// The snapshot after latching a DEC private mode: the numeric code is
/// recorded in the DEC private mode map, and the named fields are updated
/// for the codes the model knows (show-cursor 25, blinking-cursor 12,
/// origin 6, auto-wrap 7, alternate screen 47/1047/1049, mouse tracking
/// 1000, button-event mouse 1002, any-event mouse 1003, SGR mouse 1006).
pub open spec fn spec_apply_dec_private(v: SnapshotView, code: u16, enabled: bool) -> SnapshotView {
    let recorded = SnapshotView {
        dec_private_modes: spec_set_mode_entry(v.dec_private_modes, code, enabled),
        ..v
    };
    if code == 25 {
        SnapshotView { cursor_visible: enabled, ..recorded }
    } else if code == 12 {
        if enabled {
            SnapshotView { cursor_shape: CursorShape::BlinkingBlock, ..recorded }
        } else {
            recorded
        }
    } else if code == 6 {
        SnapshotView { origin_mode: enabled, ..recorded }
    } else if code == 7 {
        SnapshotView { wrap_mode: enabled, ..recorded }
    } else if code == 47 || code == 1047 || code == 1049 {
        SnapshotView { alt_screen: enabled, ..recorded }
    } else if code == 1000 {
        SnapshotView { mouse_tracking: enabled, ..recorded }
    } else if code == 1002 {
        SnapshotView { mouse_button_tracking: enabled, ..recorded }
    } else if code == 1003 {
        SnapshotView { mouse_any_event: enabled, ..recorded }
    } else if code == 1006 {
        SnapshotView { mouse_sgr: enabled, ..recorded }
    } else {
        recorded
    }
}

/// Latch a DEC private mode set or reset.
#[verifier::rlimit(50)]
pub fn apply_dec_private_mode(code: u16, snapshot: &mut TerminalSnapshot, enabled: bool)
    ensures
        final(snapshot)@ == spec_apply_dec_private(old(snapshot)@, code, enabled),
{
    set_mode_entry(&mut snapshot.dec_private_modes, code, enabled);
    if code == 25 {
        snapshot.cursor_visible = enabled;
    } else if code == 12 {
        if enabled {
            snapshot.cursor_shape = CursorShape::BlinkingBlock;
        }
    } else if code == 6 {
        snapshot.origin_mode = enabled;
    } else if code == 7 {
        snapshot.wrap_mode = enabled;
    } else if code == 47 || code == 1047 || code == 1049 {
        snapshot.alt_screen = enabled;
    } else if code == 1000 {
        snapshot.mouse_tracking = enabled;
    } else if code == 1002 {
        snapshot.mouse_button_tracking = enabled;
    } else if code == 1003 {
        snapshot.mouse_any_event = enabled;
    } else if code == 1006 {
        snapshot.mouse_sgr = enabled;
    }
    proof {
        assert(final(snapshot)@ =~= spec_apply_dec_private(old(snapshot)@, code, enabled));
    }
}

/// The snapshot after latching a standard terminal mode: the numeric code
/// is recorded in the terminal mode map, and insert (4) and show-cursor
/// (25) update their named fields.
pub open spec fn spec_apply_terminal_mode(v: SnapshotView, code: u16, enabled: bool) -> SnapshotView {
    let recorded = SnapshotView {
        terminal_modes: spec_set_mode_entry(v.terminal_modes, code, enabled),
        ..v
    };
    if code == 4 {
        SnapshotView { insert_mode: enabled, ..recorded }
    } else if code == 25 {
        SnapshotView { cursor_visible: enabled, ..recorded }
    } else {
        recorded
    }
}

/// Latch a standard terminal mode set or reset.
pub fn apply_terminal_mode(code: u16, snapshot: &mut TerminalSnapshot, enabled: bool)
    ensures
        final(snapshot)@ == spec_apply_terminal_mode(old(snapshot)@, code, enabled),
{
    set_mode_entry(&mut snapshot.terminal_modes, code, enabled);
    if code == 4 {
        snapshot.insert_mode = enabled;
    } else if code == 25 {
        snapshot.cursor_visible = enabled;
    }
    proof {
        assert(final(snapshot)@ =~= spec_apply_terminal_mode(old(snapshot)@, code, enabled));
    }
}

/// The snapshot after a set-top-and-bottom-margins action: stored when
/// `top < bottom`, cleared otherwise.  The builder validates the margins
/// against the current height before emitting the action (a region whose
/// bottom lies beyond the height arrives here as a clearing action).
pub open spec fn spec_apply_scroll_region(v: SnapshotView, top: usize, bottom: usize) -> SnapshotView {
    if top < bottom {
        SnapshotView { scroll_region: Some(ScrollRegion { top, bottom }), ..v }
    } else {
        SnapshotView { scroll_region: None, ..v }
    }
}

/// The snapshot after one terminal action.
pub open spec fn spec_apply_action(v: SnapshotView, action: TerminalAction) -> SnapshotView {
    match action {
        TerminalAction::FullReset => default_snapshot_view(),
        TerminalAction::Sgr(sgr) => SnapshotView {
            attributes: spec_apply_sgr(v.attributes, sgr),
            ..v
        },
        TerminalAction::CursorStyle(shape) => SnapshotView { cursor_shape: shape, ..v },
        TerminalAction::SetScrollRegion { top, bottom } => spec_apply_scroll_region(v, top, bottom),
        TerminalAction::SetDecPrivateMode { code, enabled } => spec_apply_dec_private(v, code,
            enabled),
        TerminalAction::SetTerminalMode { code, enabled } => spec_apply_terminal_mode(v, code,
            enabled),
    }
}

/// Apply one terminal action to the snapshot.
#[verifier::rlimit(100)]
pub fn apply_action_to_snapshot(action: TerminalAction, snapshot: &mut TerminalSnapshot)
    ensures
        final(snapshot)@ == spec_apply_action(old(snapshot)@, action),
{
    match action {
        TerminalAction::FullReset => {
            *snapshot = default_terminal_snapshot();
        },
        TerminalAction::Sgr(sgr) => {
            apply_sgr_to_snapshot(sgr, snapshot);
        },
        TerminalAction::CursorStyle(shape) => {
            snapshot.cursor_shape = shape;
            proof {
                assert(final(snapshot)@ =~= (SnapshotView {
                    cursor_shape: shape,
                    ..old(snapshot)@
                }));
            }
        },
        TerminalAction::SetScrollRegion { top, bottom } => {
            if top < bottom {
                snapshot.scroll_region = Some(ScrollRegion { top, bottom });
            } else {
                snapshot.scroll_region = None;
            }
            proof {
                assert(final(snapshot)@ =~= spec_apply_scroll_region(old(snapshot)@, top, bottom));
            }
        },
        TerminalAction::SetDecPrivateMode { code, enabled } => {
            apply_dec_private_mode(code, snapshot, enabled);
        },
        TerminalAction::SetTerminalMode { code, enabled } => {
            apply_terminal_mode(code, snapshot, enabled);
        },
    }
}

/// The snapshot after a whole sequence of actions, applied in order.
pub open spec fn spec_apply_actions(v: SnapshotView, actions: Seq<TerminalAction>) -> SnapshotView
    decreases actions.len(),
{
    if actions.len() == 0 {
        v
    } else {
        spec_apply_actions(spec_apply_action(v, actions[0]), actions.drop_first())
    }
}

/// Apply a batch of terminal actions in order.
pub fn apply_actions_to_snapshot(actions: &Vec<TerminalAction>, snapshot: &mut TerminalSnapshot)
    ensures
        final(snapshot)@ == spec_apply_actions(old(snapshot)@, actions@),
{
    let n: usize = actions.len();
    let mut i: usize = 0;
    proof {
        assert(actions@.skip(0) =~= actions@);
    }
    while i < n
        invariant
            i <= n,
            n == actions@.len(),
            spec_apply_actions(old(snapshot)@, actions@) == spec_apply_actions(snapshot@,
                actions@.skip(i as int)),
        decreases n - i,
    {
        let ghost pre = snapshot@;
        apply_action_to_snapshot(actions[i], snapshot);
        proof {
            assert(actions@.skip(i as int)[0] == actions@[i as int]);
            assert(actions@.skip(i as int).drop_first() =~= actions@.skip(i as int + 1));
        }
        i = i + 1;
    }
    proof {
        assert(actions@.skip(n as int) =~= Seq::<TerminalAction>::empty());
    }
}

} // verus!
