//! Diagnostics over raw history bytes, as shown in the operator's debug
//! sidebar, and the SGR mouse-wheel report a viewer sends back to the
//! PTY.

use vstd::prelude::*;
use crate::broker::{ascii_chars, push_decimal, spec_decimal, string_from_ascii};
use crate::history::{is_csi_final, ESC};

verus! {

/// The lowercase hexadecimal digit for a value below 16.
pub open spec fn spec_hex_digit(value: u8) -> u8 {
    if value < 10 {
        (value + 48) as u8
    } else {
        (value + 87) as u8
    }
}

/// Convert one value in `0..16` to its lowercase hexadecimal digit.
pub fn hex_digit(value: u8) -> (r: u8)
    requires
        value < 16,
    ensures
        r == spec_hex_digit(value),
{
    if value < 10 {
        value + 48
    } else {
        value - 10 + 97
    }
}

/// Bytes rendered as lowercase hex pairs separated by single spaces.
pub open spec fn spec_hex_bytes(s: Seq<u8>) -> Seq<u8>
    decreases s.len(),
{
    if s.len() == 0 {
        Seq::empty()
    } else if s.len() == 1 {
        seq![spec_hex_digit(s[0] / 16), spec_hex_digit(s[0] % 16)]
    } else {
        spec_hex_bytes(s.drop_last()) + seq![32u8, spec_hex_digit(s.last() / 16), spec_hex_digit(
            s.last() % 16,
        )]
    }
}

/// Render bytes as lowercase hex pairs separated by spaces.
pub fn hex_bytes(bytes: &[u8]) -> (r: String)
    ensures
        r@ == ascii_chars(spec_hex_bytes(bytes@)),
{
    let n: usize = bytes.len();
    let mut out: Vec<u8> = Vec::new();
    let mut i: usize = 0;
    while i < n
        invariant
            i <= n,
            n == bytes@.len(),
            out@ == spec_hex_bytes(bytes@.subrange(0, i as int)),
        decreases n - i,
    {
        if i > 0 {
            out.push(32);
        }
        let b = bytes[i];
        out.push(hex_digit(b / 16));
        out.push(hex_digit(b % 16));
        i = i + 1;
        proof {
            let prefix = bytes@.subrange(0, i as int);
            assert(prefix.drop_last() =~= bytes@.subrange(0, i as int - 1));
            assert(prefix.last() == bytes@[i as int - 1]);
            if i > 1 {
                assert(out@ =~= spec_hex_bytes(prefix.drop_last()) + seq![32u8, spec_hex_digit(
                    prefix.last() / 16,
                ), spec_hex_digit(prefix.last() % 16)]);
            } else {
                assert(out@ =~= seq![spec_hex_digit(prefix[0] / 16), spec_hex_digit(prefix[0]
                    % 16)]);
            }
        }
    }
    proof {
        assert(bytes@.subrange(0, n as int) =~= bytes@);
        assert(forall|k: int| 0 <= k < out@.len() ==> #[trigger] out@[k] < 128) by {
            lemma_hex_bytes_ascii(bytes@);
        }
    }
    string_from_ascii(out)
}

proof fn lemma_hex_bytes_ascii(s: Seq<u8>)
    ensures
        forall|k: int| 0 <= k < spec_hex_bytes(s).len() ==> #[trigger] spec_hex_bytes(s)[k] < 128,
    decreases s.len(),
{
    if s.len() > 1 {
        lemma_hex_bytes_ascii(s.drop_last());
        let pre = spec_hex_bytes(s.drop_last());
        let whole = spec_hex_bytes(s);
        assert forall|k: int| 0 <= k < whole.len() implies #[trigger] whole[k] < 128 by {
            if k < pre.len() {
                assert(whole[k] == pre[k]);
            } else {
                assert(whole[k] == seq![32u8, spec_hex_digit(s.last() / 16), spec_hex_digit(
                    s.last() % 16,
                )][k - pre.len()]);
            }
        }
    }
}

/// The index of the last `ESC` byte, or -1 when none occurs.
pub open spec fn spec_last_esc(s: Seq<u8>) -> int
    decreases s.len(),
{
    if s.len() == 0 {
        -1
    } else if s.last() == ESC {
        s.len() - 1
    } else {
        spec_last_esc(s.drop_last())
    }
}

/// Whether a CSI sequence whose parameters begin at `j` finds a final
/// byte before the data ends.
pub open spec fn csi_terminated_from(s: Seq<u8>, j: int) -> bool {
    exists|f: int| j <= f < s.len() && is_csi_final(#[trigger] s[f])
}

/// Whether the data ends in an unterminated escape: a trailing lone
/// `ESC`, or a final CSI sequence whose final byte never arrived.
pub open spec fn spec_has_dangling_csi(s: Seq<u8>) -> bool {
    let e = spec_last_esc(s);
    if e < 0 {
        false
    } else if e == s.len() - 1 {
        true
    } else if s[e + 1] == 0x5b {
        !csi_terminated_from(s, e + 2)
    } else {
        false
    }
}

proof fn lemma_last_esc_props(s: Seq<u8>)
    ensures
        spec_last_esc(s) >= 0 ==> {
            &&& spec_last_esc(s) < s.len()
            &&& s[spec_last_esc(s)] == ESC
            &&& forall|k: int| spec_last_esc(s) < k < s.len() ==> s[k] != ESC
        },
        spec_last_esc(s) < 0 ==> spec_last_esc(s) == -1 && (forall|k: int|
            0 <= k < s.len() ==> s[k] != ESC),
    decreases s.len(),
{
    if s.len() > 0 && s.last() != ESC {
        lemma_last_esc_props(s.drop_last());
        assert(forall|k: int| 0 <= k < s.len() - 1 ==> s.drop_last()[k] == s[k]);
    }
}

proof fn lemma_last_esc_unique(s: Seq<u8>, e: int)
    requires
        0 <= e < s.len(),
        s[e] == ESC,
        forall|k: int| e < k < s.len() ==> s[k] != ESC,
    ensures
        spec_last_esc(s) == e,
    decreases s.len(),
{
    if e < s.len() - 1 {
        assert(s.last() != ESC);
        assert(forall|k: int| 0 <= k < s.len() - 1 ==> s.drop_last()[k] == s[k]);
        lemma_last_esc_unique(s.drop_last(), e);
    }
}

/// Whether the history ends in an unterminated escape: a trailing lone
/// `ESC`, or a trailing CSI sequence whose final byte never arrived.
pub fn has_dangling_csi(history: &[u8]) -> (r: bool)
    ensures
        r == spec_has_dangling_csi(history@),
{
    let ghost s = history@;
    let n: usize = history.len();
    if n == 0 {
        return false;
    }
    let mut index: usize = n;
    while index > 0
        invariant
            index <= n,
            n == s.len(),
            s == history@,
            forall|k: int| index <= k < n ==> s[k] != ESC,
        decreases index,
    {
        index = index - 1;
        if history[index] == ESC {
            proof {
                lemma_last_esc_unique(s, index as int);
            }
            if index == n - 1 {
                return true;
            }
            if history[index + 1] == 0x5b {
                let mut cursor: usize = index + 2;
                while cursor < n
                    invariant
                        index + 2 <= cursor <= n,
                        index < n - 1,
                        n == s.len(),
                        s == history@,
                        spec_last_esc(s) == index as int,
                        s[index as int] == ESC,
                        s[index as int + 1] == 0x5b,
                        forall|k: int| index + 2 <= k < cursor ==> !is_csi_final(s[k]),
                    decreases n - cursor,
                {
                    let byte = history[cursor];
                    if 0x40 <= byte && byte <= 0x7e {
                        proof {
                            assert(is_csi_final(s[cursor as int]));
                            assert(csi_terminated_from(s, index as int + 2));
                        }
                        return false;
                    }
                    cursor = cursor + 1;
                }
                proof {
                    assert(!csi_terminated_from(s, index as int + 2));
                }
                return true;
            }
            return false;
        }
    }
    proof {
        lemma_last_esc_props(s);
        if spec_last_esc(s) >= 0 {
            assert(s[spec_last_esc(s)] == ESC);
            assert(false);
        }
    }
    false
}

/// Count of `ESC` bytes at or after index `i`.
pub open spec fn spec_esc_count(s: Seq<u8>, i: int) -> int
    decreases s.len() - i,
{
    if i < 0 || i >= s.len() {
        0
    } else {
        (if s[i] == ESC {
            1int
        } else {
            0int
        }) + spec_esc_count(s, i + 1)
    }
}

/// Count of two-byte windows `0m` at or after index `i` that are not
/// directly preceded by an `ESC` (stray reset text rather than a real
/// SGR reset).
pub open spec fn spec_literal_0m_count(s: Seq<u8>, i: int) -> int
    decreases s.len() - i,
{
    if i < 0 || i + 1 >= s.len() {
        0
    } else {
        (if s[i] == 48 && s[i + 1] == 109 && !(i > 0 && s[i - 1] == ESC) {
            1int
        } else {
            0int
        }) + spec_literal_0m_count(s, i + 1)
    }
}

/// The statistics shown for one history buffer in the debug sidebar.
#[derive(Debug, Clone)]
pub struct HistoryDebug {
    pub label: String,
    pub history_len: usize,
    pub esc_count: usize,
    pub literal_0m_count: usize,
    pub dangling_csi: bool,
    pub head_hex: String,
    pub tail_hex: String,
}

/// Summarize a history buffer for the debug sidebar: its length, how
/// many escapes it holds, how many stray `0m` pairs, whether it ends in
/// an unterminated escape, and hex dumps of its first and last 64 bytes.
pub fn history_debug_from_bytes(history: &[u8], label: &str) -> (r: HistoryDebug)
    ensures
        r.label@ == label@,
        r.history_len == history@.len(),
        r.esc_count == spec_esc_count(history@, 0),
        r.literal_0m_count == spec_literal_0m_count(history@, 0),
        r.dangling_csi == spec_has_dangling_csi(history@),
        r.head_hex@ == ascii_chars(spec_hex_bytes(history@.subrange(0, if history@.len() < 64 {
            history@.len() as int
        } else {
            64
        }))),
        r.tail_hex@ == ascii_chars(spec_hex_bytes(history@.subrange(if history@.len() < 64 {
            0
        } else {
            history@.len() - 64
        }, history@.len() as int))),
{
    let ghost s = history@;
    let n: usize = history.len();
    let mut esc_count: usize = 0;
    let mut i: usize = 0;
    while i < n
        invariant
            i <= n,
            n == s.len(),
            s == history@,
            esc_count <= i,
            esc_count + spec_esc_count(s, i as int) == spec_esc_count(s, 0),
        decreases n - i,
    {
        if history[i] == ESC {
            esc_count = esc_count + 1;
        }
        i = i + 1;
    }
    let mut literal_0m_count: usize = 0;
    let mut j: usize = 0;
    while j < n
        invariant
            j <= n,
            n == s.len(),
            s == history@,
            literal_0m_count <= j,
            literal_0m_count + spec_literal_0m_count(s, j as int) == spec_literal_0m_count(s, 0),
        decreases n - j,
    {
        if j + 1 < n && history[j] == 48 && history[j + 1] == 109 {
            let preceded = j > 0 && history[j - 1] == ESC;
            if !preceded {
                literal_0m_count = literal_0m_count + 1;
            }
        }
        j = j + 1;
    }
    let dangling = has_dangling_csi(history);
    let head_len: usize = if n < 64 {
        n
    } else {
        64
    };
    let mut head: Vec<u8> = Vec::new();
    let mut k: usize = 0;
    while k < head_len
        invariant
            k <= head_len,
            head_len <= n,
            n == s.len(),
            s == history@,
            head@ == s.subrange(0, k as int),
        decreases head_len - k,
    {
        head.push(history[k]);
        k = k + 1;
        proof {
            assert(s.subrange(0, k as int) =~= s.subrange(0, k as int - 1).push(s[k as int - 1]));
        }
    }
    let tail_start: usize = if n < 64 {
        0
    } else {
        n - 64
    };
    let mut tail: Vec<u8> = Vec::new();
    let mut t: usize = tail_start;
    while t < n
        invariant
            tail_start <= t <= n,
            n == s.len(),
            s == history@,
            tail@ == s.subrange(tail_start as int, t as int),
        decreases n - t,
    {
        tail.push(history[t]);
        t = t + 1;
        proof {
            assert(s.subrange(tail_start as int, t as int) =~= s.subrange(
                tail_start as int,
                t as int - 1,
            ).push(s[t as int - 1]));
        }
    }
    let head_hex = hex_bytes(head.as_slice());
    let tail_hex = hex_bytes(tail.as_slice());
    HistoryDebug {
        label: label.to_owned(),
        history_len: n,
        esc_count,
        literal_0m_count,
        dangling_csi: dangling,
        head_hex,
        tail_hex,
    }
}

/// Which way the mouse wheel turned.
#[derive(Debug, Clone, Copy, PartialEq, Eq, Structural)]
pub enum MouseScrollDirection {
    Up,
    Down,
}

/// The SGR mouse report for one wheel step.
pub open spec fn spec_mouse_wheel_sgr(code: int, col: int, row: int) -> Seq<u8> {
    seq![27u8, 91u8, 60u8] + spec_decimal(code) + seq![59u8] + spec_decimal(col) + seq![59u8]
        + spec_decimal(row) + seq![77u8]
}

/// The bytes a viewer sends to report one mouse-wheel step in SGR mouse
/// mode: `ESC [ < code ; column ; row M` with one-based coordinates.
pub fn mouse_wheel_sgr_bytes(direction: MouseScrollDirection, column: u16, row: u16) -> (r: Option<
    Vec<u8>,
>)
    ensures
        r matches Some(bytes) && bytes@ == spec_mouse_wheel_sgr(
            (match direction {
                MouseScrollDirection::Up => 64int,
                MouseScrollDirection::Down => 65int,
            }),
            (if column == 65535 {
                65535int
            } else {
                column + 1
            }),
            (if row == 65535 {
                65535int
            } else {
                row + 1
            }),
        ),
{
    let code: u64 = match direction {
        MouseScrollDirection::Up => 64,
        MouseScrollDirection::Down => 65,
    };
    let col: u64 = if column == 65535 {
        65535
    } else {
        (column + 1) as u64
    };
    let rw: u64 = if row == 65535 {
        65535
    } else {
        (row + 1) as u64
    };
    let mut out: Vec<u8> = Vec::new();
    out.push(27);
    out.push(91);
    out.push(60);
    proof {
        assert(out@ =~= seq![27u8, 91u8, 60u8]);
    }
    push_decimal(code, &mut out);
    out.push(59);
    push_decimal(col, &mut out);
    out.push(59);
    push_decimal(rw, &mut out);
    out.push(77);
    proof {
        assert(out@ =~= spec_mouse_wheel_sgr(code as int, col as int, rw as int));
    }
    Some(out)
}

} // verus!
