//! Bounded byte history with escape-sequence-aware trimming.
//!
//! The history ring keeps the most recent PTY output, up to a byte limit.
//! When the limit is exceeded, a prefix is discarded; the cut is rounded
//! down to a safe boundary so it never lands inside an escape sequence.

use vstd::prelude::*;

verus! {

/// The escape byte that introduces terminal control sequences.
pub const ESC: u8 = 0x1b;

/// A byte that terminates a CSI sequence.
pub open spec fn is_csi_final(b: u8) -> bool {
    0x40 <= b <= 0x7e
}

/// A byte that, after `ESC`, introduces a string-terminated sequence
/// (OSC, DCS, PM or APC).
pub open spec fn is_string_intro(b: u8) -> bool {
    b == 0x5d || b == 0x50 || b == 0x5e || b == 0x5f
}

/// Index just past the end of a CSI sequence whose parameter bytes begin at
/// `start`: one past the first final byte, or the end of the data if the
/// sequence is unterminated.
pub open spec fn spec_csi_end(s: Seq<u8>, start: int) -> int
    decreases s.len() - start,
{
    if start < 0 {
        spec_csi_end(s, 0)
    } else if start >= s.len() {
        start
    } else if is_csi_final(s[start]) {
        start + 1
    } else {
        spec_csi_end(s, start + 1)
    }
}

/// Index just past the end of a string sequence whose payload begins at
/// `start`: one past a BEL terminator, two past an `ESC \` terminator, or
/// the end of the data if the sequence is unterminated.
pub open spec fn spec_string_end(s: Seq<u8>, start: int) -> int
    decreases s.len() - start,
{
    if start < 0 {
        spec_string_end(s, 0)
    } else if start >= s.len() {
        start
    } else if s[start] == 7 {
        start + 1
    } else if s[start] == ESC && start + 1 < s.len() && s[start + 1] == 0x5c {
        start + 2
    } else {
        spec_string_end(s, start + 1)
    }
}

pub proof fn lemma_csi_end_bounds(s: Seq<u8>, start: int)
    requires
        0 <= start <= s.len(),
    ensures
        start <= spec_csi_end(s, start) <= s.len(),
    decreases s.len() - start,
{
    if start < s.len() && !is_csi_final(s[start]) {
        lemma_csi_end_bounds(s, start + 1);
    }
}

pub proof fn lemma_string_end_bounds(s: Seq<u8>, start: int)
    requires
        0 <= start <= s.len(),
    ensures
        start <= spec_string_end(s, start) <= s.len(),
    decreases s.len() - start,
{
    if start < s.len() && s[start] != 7 && !(s[start] == ESC && start + 1 < s.len() && s[start
        + 1] == 0x5c) {
        lemma_string_end_bounds(s, start + 1);
    }
}

/// The scan position just past the escape sequence introduced at `p`
/// (where `s[p] == ESC` and a following byte exists).
pub open spec fn esc_seq_end(s: Seq<u8>, p: int) -> int
    recommends
        0 <= p,
        p + 1 < s.len(),
        s[p] == ESC,
{
    if s[p + 1] == 0x5b {
        spec_csi_end(s, p + 2)
    } else if is_string_intro(s[p + 1]) {
        spec_string_end(s, p + 2)
    } else {
        p + 2
    }
}

/// One step of the boundary scan from position `p`: past the next plain
/// byte or the next whole escape sequence.  A lone `ESC` as the very last
/// byte cannot be classified, and the scan sticks at it (`scan_step` then
/// returns `p` itself).
pub open spec fn scan_step(s: Seq<u8>, p: int) -> int
    recommends
        0 <= p < s.len(),
{
    if s[p] != ESC {
        p + 1
    } else if p + 1 >= s.len() {
        p
    } else {
        esc_seq_end(s, p)
    }
}

pub proof fn lemma_scan_step_bounds(s: Seq<u8>, p: int)
    requires
        0 <= p < s.len(),
    ensures
        p <= scan_step(s, p) <= s.len(),
        scan_step(s, p) == p ==> p == s.len() - 1 && s[p] == ESC,
{
    if s[p] == ESC && p + 1 < s.len() {
        if s[p + 1] == 0x5b {
            lemma_csi_end_bounds(s, p + 2);
        } else if is_string_intro(s[p + 1]) {
            lemma_string_end_bounds(s, p + 2);
        }
    }
}

/// The last safe cut at or below `overflow`, for a scan that has reached
/// position `i` with `last` the best boundary seen so far.
pub open spec fn scan_last_safe(s: Seq<u8>, i: int, last: int, overflow: int) -> int
    decreases s.len() - i,
{
    if i < 0 || i >= s.len() {
        last
    } else {
        let j = scan_step(s, i);
        if j <= i || j > s.len() {
            last
        } else {
            scan_last_safe(s, j, if j <= overflow { j } else { last }, overflow)
        }
    }
}

/// The largest safe boundary at or below `overflow`: the prefix of this
/// length may be discarded without cutting inside an escape sequence.
pub open spec fn safe_start(s: Seq<u8>, overflow: int) -> int {
    scan_last_safe(s, 0, 0, overflow)
}

pub proof fn lemma_scan_last_safe_bounds(s: Seq<u8>, i: int, last: int, overflow: int)
    requires
        0 <= last <= s.len(),
        last <= overflow,
        last <= i,
    ensures
        last <= scan_last_safe(s, i, last, overflow) <= s.len(),
        scan_last_safe(s, i, last, overflow) <= overflow,
    decreases s.len() - i,
{
    if 0 <= i < s.len() {
        let j = scan_step(s, i);
        lemma_scan_step_bounds(s, i);
        if i < j <= s.len() {
            lemma_scan_last_safe_bounds(s, j, if j <= overflow { j } else { last }, overflow);
        }
    }
}

/// Whether the boundary scan, stepping over whole plain bytes and whole
/// escape sequences, can reach position `p` starting from position `i`.
pub open spec fn reaches(s: Seq<u8>, i: int, p: int) -> bool
    decreases s.len() - i,
{
    i == p || (0 <= i < s.len() && {
        let j = scan_step(s, i);
        i < j <= s.len() && reaches(s, j, p)
    })
}

/// A safe cut: a position the boundary scan reaches from the start of the
/// data.  The bytes before a safe cut are a whole number of plain bytes
/// and complete escape sequences.
pub open spec fn safe_cut(s: Seq<u8>, p: int) -> bool {
    reaches(s, 0, p)
}

pub proof fn lemma_reaches_lower_bound(s: Seq<u8>, i: int, p: int)
    requires
        reaches(s, i, p),
    ensures
        p >= i,
    decreases s.len() - i,
{
    if i != p {
        let j = scan_step(s, i);
        lemma_reaches_lower_bound(s, j, p);
    }
}

pub proof fn lemma_reaches_extend(s: Seq<u8>, i: int, p: int)
    requires
        reaches(s, i, p),
        0 <= p < s.len(),
        p < scan_step(s, p) <= s.len(),
    ensures
        reaches(s, i, scan_step(s, p)),
    decreases s.len() - i,
{
    if i == p {
        let j = scan_step(s, p);
        assert(reaches(s, j, j));
    } else {
        let j = scan_step(s, i);
        lemma_reaches_extend(s, j, p);
    }
}

/// Two positions on the scan chain are themselves linked by the chain.
pub proof fn lemma_reaches_linear(s: Seq<u8>, i: int, q: int, p: int)
    requires
        reaches(s, i, q),
        reaches(s, i, p),
        q <= p,
    ensures
        reaches(s, q, p),
    decreases s.len() - i,
{
    if i == q {
        // reaches(s, q, p) is the second hypothesis.
    } else if i == p {
        lemma_reaches_lower_bound(s, i, q);
        assert(q == p);
    } else {
        let j = scan_step(s, i);
        lemma_reaches_linear(s, j, q, p);
    }
}

/// A safe cut never lands strictly inside an escape sequence that begins
/// at an earlier safe position: the cut is at or past the sequence's end.
pub proof fn lemma_cut_not_inside_sequence(s: Seq<u8>, q: int, p: int)
    requires
        safe_cut(s, q),
        safe_cut(s, p),
        q < p,
        0 <= q < s.len(),
    ensures
        p >= scan_step(s, q),
{
    lemma_reaches_linear(s, 0, q, p);
    assert(reaches(s, q, p));
    let j = scan_step(s, q);
    assert(q != p);
    lemma_reaches_lower_bound(s, j, p);
}

proof fn lemma_scan_last_safe_is_cut(s: Seq<u8>, i: int, last: int, overflow: int)
    requires
        safe_cut(s, i),
        safe_cut(s, last),
        0 <= i,
    ensures
        safe_cut(s, scan_last_safe(s, i, last, overflow)),
    decreases s.len() - i,
{
    if 0 <= i < s.len() {
        let j = scan_step(s, i);
        lemma_scan_step_bounds(s, i);
        if i < j <= s.len() {
            lemma_reaches_extend(s, 0, i);
            lemma_scan_last_safe_is_cut(s, j, if j <= overflow { j } else { last }, overflow);
        }
    }
}

/// The boundary the trim selects is a safe cut.
pub proof fn lemma_safe_start_is_cut(s: Seq<u8>, overflow: int)
    requires
        overflow >= 0,
    ensures
        safe_cut(s, safe_start(s, overflow)),
        0 <= safe_start(s, overflow) <= s.len(),
        safe_start(s, overflow) <= overflow,
{
    assert(reaches(s, 0, 0));
    lemma_scan_last_safe_is_cut(s, 0, 0, overflow);
    lemma_scan_last_safe_bounds(s, 0, 0, overflow);
}

proof fn lemma_scan_last_safe_ge_reachable(s: Seq<u8>, i: int, last: int, overflow: int, t: int)
    requires
        reaches(s, i, t),
        t <= overflow,
        t <= s.len(),
        0 <= last <= s.len(),
        last <= overflow,
        last <= i,
        t == i ==> last >= t,
    ensures
        scan_last_safe(s, i, last, overflow) >= t,
    decreases s.len() - i,
{
    if i == t {
        lemma_scan_last_safe_bounds(s, i, last, overflow);
    } else {
        let j = scan_step(s, i);
        lemma_reaches_lower_bound(s, j, t);
        lemma_scan_last_safe_ge_reachable(s, j, if j <= overflow { j } else { last }, overflow, t);
    }
}

/// The trim boundary is exactly the overflow if and only if the overflow
/// position itself is a safe cut.
pub proof fn lemma_safe_start_exact_iff(s: Seq<u8>, overflow: int)
    requires
        0 <= overflow <= s.len(),
    ensures
        safe_start(s, overflow) == overflow <==> safe_cut(s, overflow),
{
    lemma_safe_start_is_cut(s, overflow);
    if safe_cut(s, overflow) {
        assert(reaches(s, 0, 0));
        lemma_scan_last_safe_ge_reachable(s, 0, 0, overflow, overflow);
    }
}

/// When no escape byte lies below the overflow, the trim is exact.
pub proof fn lemma_plain_prefix_exact(s: Seq<u8>, overflow: int)
    requires
        0 <= overflow <= s.len(),
        forall|k: int| 0 <= k < overflow ==> s[k] != ESC,
    ensures
        safe_start(s, overflow) == overflow,
{
    lemma_plain_prefix_reaches(s, overflow, 0);
    lemma_safe_start_exact_iff(s, overflow);
}

proof fn lemma_plain_prefix_reaches(s: Seq<u8>, overflow: int, i: int)
    requires
        0 <= i <= overflow <= s.len(),
        forall|k: int| i <= k < overflow ==> s[k] != ESC,
    ensures
        reaches(s, i, overflow),
    decreases overflow - i,
{
    if i < overflow {
        assert(s[i] != ESC);
        assert(scan_step(s, i) == i + 1);
        lemma_plain_prefix_reaches(s, overflow, i + 1);
    }
}

/// Whether the boundary scan started at `i` runs to the very end of the
/// data without sticking at a trailing lone `ESC`.
pub open spec fn scan_completes(s: Seq<u8>, i: int) -> bool
    decreases s.len() - i,
{
    !(0 <= i < s.len()) || {
        let j = scan_step(s, i);
        i < j <= s.len() && scan_completes(s, j)
    }
}

proof fn lemma_no_trailing_esc_completes(s: Seq<u8>, i: int)
    requires
        s.len() == 0 || s[s.len() - 1] != ESC,
    ensures
        scan_completes(s, i),
    decreases s.len() - i,
{
    if 0 <= i < s.len() {
        lemma_scan_step_bounds(s, i);
        let j = scan_step(s, i);
        assert(j > i);
        lemma_no_trailing_esc_completes(s, j);
    }
}

proof fn lemma_completes_full_discard(s: Seq<u8>, i: int, last: int)
    requires
        scan_completes(s, i),
        0 <= i <= s.len(),
        0 <= last <= s.len(),
        i >= s.len() ==> last == s.len(),
    ensures
        scan_last_safe(s, i, last, s.len() as int) == s.len(),
    decreases s.len() - i,
{
    if i < s.len() {
        let j = scan_step(s, i);
        lemma_completes_full_discard(s, j, j);
    }
}

/// A trim whose overflow equals the whole length discards every byte,
/// provided the data does not end in a lone `ESC` byte.
pub proof fn lemma_full_overflow_discards_all(s: Seq<u8>)
    requires
        s.len() == 0 || s[s.len() - 1] != ESC,
    ensures
        safe_start(s, s.len() as int) == s.len(),
{
    lemma_no_trailing_esc_completes(s, 0);
    if s.len() == 0 {
    } else {
        lemma_completes_full_discard(s, 0, 0);
    }
}

/// Scan a CSI sequence: return the index one past its final byte, or the
/// end of the data if the sequence is unterminated.
pub fn parse_csi_sequence(bytes: &[u8], start: usize) -> (r: usize)
    ensures
        r as int == spec_csi_end(bytes@, start as int),
{
    let len: usize = bytes.len();
    let mut index: usize = start;
    while index < len
        invariant
            start <= index,
            len == bytes@.len(),
            spec_csi_end(bytes@, start as int) == spec_csi_end(bytes@, index as int),
        decreases len - index,
    {
        let byte = bytes[index];
        if 0x40 <= byte && byte <= 0x7e {
            return index + 1;
        }
        index = index + 1;
    }
    index
}

/// Scan a string sequence (OSC, DCS, PM or APC): return the index one past
/// its BEL or `ESC \` terminator, or the end of the data if unterminated.
pub fn parse_string_sequence(bytes: &[u8], start: usize) -> (r: usize)
    ensures
        r as int == spec_string_end(bytes@, start as int),
{
    let len: usize = bytes.len();
    let mut index: usize = start;
    while index < len
        invariant
            start <= index,
            len == bytes@.len(),
            spec_string_end(bytes@, start as int) == spec_string_end(bytes@, index as int),
        decreases len - index,
    {
        let byte = bytes[index];
        if byte == 7 {
            return index + 1;
        }
        if byte == ESC && index + 1 < len && bytes[index + 1] == 0x5c {
            return index + 2;
        }
        index = index + 1;
    }
    index
}

/// The number of leading bytes that may be discarded: the largest safe
/// boundary at or below `overflow`.
pub fn find_safe_history_start(bytes: &[u8], overflow: usize) -> (r: usize)
    ensures
        r as int == safe_start(bytes@, overflow as int),
        r <= bytes@.len(),
        r <= overflow,
        safe_cut(bytes@, r as int),
{
    let ghost s = bytes@;
    let len: usize = bytes.len();
    let mut index: usize = 0;
    let mut last_safe: usize = 0;
    proof {
        assert(reaches(s, 0, 0));
    }
    while index < len
        invariant
            index <= len,
            last_safe <= len,
            last_safe <= overflow,
            len == s.len(),
            s == bytes@,
            safe_start(s, overflow as int) == scan_last_safe(s, index as int, last_safe as int,
                overflow as int),
            safe_cut(s, last_safe as int),
            safe_cut(s, index as int),
        decreases len - index,
    {
        let ghost i0 = index as int;
        let byte = bytes[index];
        if byte == ESC {
            if index + 1 < len {
                let next = bytes[index + 1];
                if next == 0x5b {
                    index = parse_csi_sequence(bytes, index + 2);
                } else if next == 0x5d || next == 0x50 || next == 0x5e || next == 0x5f {
                    index = parse_string_sequence(bytes, index + 2);
                } else {
                    index = index + 2;
                }
            } else {
                proof {
                    assert(scan_step(s, i0) == i0);
                }
                return last_safe;
            }
        } else {
            index = index + 1;
        }
        proof {
            lemma_scan_step_bounds(s, i0);
            assert(index as int == scan_step(s, i0));
            lemma_reaches_extend(s, 0, i0);
        }
        if index <= overflow {
            last_safe = index;
        }
    }
    last_safe
}

/// The ring contents after appending `chunk` to `contents` under `limit`:
/// the concatenation, trimmed at a safe boundary when it exceeds the limit.
pub open spec fn ring_append(contents: Seq<u8>, chunk: Seq<u8>, limit: int) -> Seq<u8> {
    let all = contents + chunk;
    if all.len() <= limit {
        all
    } else {
        all.skip(safe_start(all, all.len() - limit))
    }
}

/// Discard a prefix of `history` so that at most `limit` bytes remain,
/// rounding the cut down to a safe boundary.
pub fn trim_history_to_boundary(history: &mut Vec<u8>, limit: usize)
    ensures
        final(history)@ == ring_append(old(history)@, Seq::<u8>::empty(), limit as int),
        old(history)@.len() <= limit ==> final(history)@ == old(history)@,
{
    proof {
        assert(old(history)@ + Seq::<u8>::empty() =~= old(history)@);
    }
    if history.len() <= limit {
        return ;
    }
    let overflow: usize = history.len() - limit;
    let drop_count: usize = find_safe_history_start(history.as_slice(), overflow);
    let len: usize = history.len();
    let mut rest: Vec<u8> = Vec::new();
    let mut i: usize = drop_count;
    while i < len
        invariant
            drop_count <= i <= len,
            len == old(history)@.len(),
            history@ == old(history)@,
            rest@ == old(history)@.subrange(drop_count as int, i as int),
        decreases len - i,
    {
        rest.push(history[i]);
        i = i + 1;
        proof {
            assert(old(history)@.subrange(drop_count as int, i as int) =~= old(
                history,
            )@.subrange(drop_count as int, i as int - 1).push(old(history)@[i as int - 1]));
        }
    }
    *history = rest;
    proof {
        assert(old(history)@.subrange(drop_count as int, len as int) =~= old(history)@.skip(
            drop_count as int));
    }
}

/// A bounded byte history: all bytes of every chunk are appended in order,
/// then a prefix is discarded at a safe boundary whenever the length
/// exceeds the limit.
pub struct HistoryRing {
    pub bytes: Vec<u8>,
    pub limit: usize,
}

impl HistoryRing {
    /// An empty history with the given byte limit.
    pub fn new(limit: usize) -> (r: HistoryRing)
        ensures
            r.bytes@ == Seq::<u8>::empty(),
            r.limit == limit,
    {
        HistoryRing { bytes: Vec::new(), limit }
    }

    /// The current contents, oldest byte first.
    pub open spec fn contents(self) -> Seq<u8> {
        self.bytes@
    }

    /// Number of bytes currently held.
    pub fn len(&self) -> (r: usize)
        ensures
            r == self.contents().len(),
    {
        self.bytes.len()
    }

    /// A copy of the current contents, for an attach reply.
    pub fn snapshot_bytes(&self) -> (r: Vec<u8>)
        ensures
            r@ == self.contents(),
    {
        let len: usize = self.bytes.len();
        let mut out: Vec<u8> = Vec::new();
        let mut i: usize = 0;
        while i < len
            invariant
                i <= len,
                len == self.bytes@.len(),
                out@ == self.bytes@.subrange(0, i as int),
            decreases len - i,
        {
            out.push(self.bytes[i]);
            i = i + 1;
            proof {
                assert(self.bytes@.subrange(0, i as int) =~= self.bytes@.subrange(0, i as int
                    - 1).push(self.bytes@[i as int - 1]));
            }
        }
        proof {
            assert(self.bytes@.subrange(0, len as int) =~= self.bytes@);
        }
        out
    }

    /// Append a chunk and enforce the limit at a safe boundary.
    pub fn append(&mut self, chunk: &[u8])
        ensures
            final(self).contents() == ring_append(old(self).contents(), chunk@, old(
                self,
            ).limit as int),
            final(self).limit == old(self).limit,
    {
        let chunk_len: usize = chunk.len();
        let mut i: usize = 0;
        while i < chunk_len
            invariant
                i <= chunk_len,
                chunk_len == chunk@.len(),
                self.bytes@ == old(self).bytes@ + chunk@.subrange(0, i as int),
                self.limit == old(self).limit,
            decreases chunk_len - i,
        {
            self.bytes.push(chunk[i]);
            i = i + 1;
            proof {
                assert(old(self).bytes@ + chunk@.subrange(0, i as int) =~= (old(self).bytes@
                    + chunk@.subrange(0, i as int - 1)).push(chunk@[i as int - 1]));
            }
        }
        proof {
            assert(old(self).bytes@ + chunk@.subrange(0, chunk_len as int) =~= old(self).bytes@
                + chunk@);
        }
        trim_history_to_boundary(&mut self.bytes, self.limit);
        proof {
            let all = old(self).bytes@ + chunk@;
            assert(all + Seq::<u8>::empty() =~= all);
            if all.len() > self.limit {
                assert(final(self).bytes@ == all.skip(safe_start(all, all.len()
                    - self.limit as int)));
            }
        }
    }
}

/// After an append that overflows, the ring is a suffix of the accumulated
/// bytes, cut at a safe boundary at or below the overflow; the cut never
/// lands inside an escape sequence.
pub proof fn lemma_ring_append_cut_is_safe(contents: Seq<u8>, chunk: Seq<u8>, limit: int)
    requires
        limit >= 0,
        (contents + chunk).len() > limit,
    ensures
        ({
            let all = contents + chunk;
            let p = safe_start(all, all.len() - limit);
            &&& ring_append(contents, chunk, limit) == all.skip(p)
            &&& safe_cut(all, p)
            &&& 0 <= p <= all.len() - limit
            &&& ring_append(contents, chunk, limit).len() >= limit
        }),
{
    let all = contents + chunk;
    lemma_safe_start_is_cut(all, all.len() - limit);
}

/// The ring stays within its limit exactly when the overflow position is a
/// safe cut of the accumulated bytes; in particular it does whenever no
/// escape byte lies in the discarded region.
pub proof fn lemma_ring_append_within_limit(contents: Seq<u8>, chunk: Seq<u8>, limit: int)
    requires
        limit >= 0,
        (contents + chunk).len() > limit,
    ensures
        ({
            let all = contents + chunk;
            let overflow = all.len() - limit;
            &&& (ring_append(contents, chunk, limit).len() <= limit <==> safe_cut(all, overflow))
            &&& ((forall|k: int| 0 <= k < overflow ==> all[k] != ESC) ==> ring_append(contents,
                chunk, limit).len() == limit)
        }),
{
    let all = contents + chunk;
    let overflow = all.len() - limit;
    lemma_safe_start_exact_iff(all, overflow);
    lemma_safe_start_is_cut(all, overflow);
    if forall|k: int| 0 <= k < overflow ==> all[k] != ESC {
        lemma_plain_prefix_exact(all, overflow);
    }
}

/// A trim whose overflow equals the ring's whole length discards all bytes
/// (unless the data ends in a lone `ESC`, which no boundary can follow).
pub proof fn lemma_trim_full_overflow_discards_all(contents: Seq<u8>)
    requires
        contents.len() == 0 || contents[contents.len() - 1] != ESC,
    ensures
        ring_append(contents, Seq::<u8>::empty(), 0).len() == 0,
{
    let all = contents + Seq::<u8>::empty();
    assert(all =~= contents);
    if all.len() > 0 {
        lemma_full_overflow_discards_all(all);
        assert(all.skip(all.len() as int) =~= Seq::<u8>::empty());
    }
}

} // verus!
