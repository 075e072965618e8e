//! The attach broker's wire protocol: parsing of the line-oriented
//! ATTACH / RESIZE / INPUT commands and construction of the response
//! framing.  The socket itself is handled by the surrounding program;
//! this module decides what each line means and what bytes go back.

use vstd::prelude::*;
use vstd::string::StringSliceAdditionalSpecFns;

verus! {

/// Whitespace separating command tokens; the line terminator itself
/// (`\n`, with or without a preceding `\r`) is tolerated the same way.
pub open spec fn is_ws(b: u8) -> bool {
    b == 0x20 || b == 0x09 || b == 0x0d || b == 0x0a
}

/// The first index at or after `i` holding a whitespace byte, or the
/// length if none follows.
pub open spec fn first_ws(s: Seq<u8>, i: int) -> int
    decreases s.len() - i,
{
    if i < 0 {
        first_ws(s, 0)
    } else if i >= s.len() {
        s.len() as int
    } else if is_ws(s[i]) {
        i
    } else {
        first_ws(s, i + 1)
    }
}

/// The whitespace-separated tokens of the line, scanning from `i`.
pub open spec fn spec_tokens_from(s: Seq<u8>, i: int) -> Seq<Seq<u8>>
    decreases s.len() - i,
{
    if i < 0 || i >= s.len() {
        Seq::empty()
    } else if is_ws(s[i]) {
        spec_tokens_from(s, i + 1)
    } else {
        let j0 = first_ws(s, i + 1);
        let j = if j0 < i + 1 {
            i + 1
        } else if j0 > s.len() {
            s.len() as int
        } else {
            j0
        };
        seq![s.subrange(i, j)] + spec_tokens_from(s, j)
    }
}

/// The whitespace-separated tokens of the line.
pub open spec fn spec_tokens(s: Seq<u8>) -> Seq<Seq<u8>> {
    spec_tokens_from(s, 0)
}

proof fn lemma_first_ws_eq(s: Seq<u8>, i: int, j: int)
    requires
        0 <= i <= j <= s.len(),
        forall|k: int| i <= k < j ==> !is_ws(s[k]),
        j < s.len() ==> is_ws(s[j]),
    ensures
        first_ws(s, i) == j,
    decreases j - i,
{
    if i < j {
        lemma_first_ws_eq(s, i + 1, j);
    }
}

/// One command of the broker protocol, as parsed from one line.
pub enum Command {
    /// A blank line; ignored.
    Empty,
    /// `ATTACH <name>`.
    Attach { agent: String },
    /// `RESIZE <name> <cols> <rows>`.
    Resize { agent: String, cols: u16, rows: u16 },
    /// `INPUT <name> <len>`, followed by exactly `len` payload bytes.
    Input { agent: String, len: u64 },
    /// A RESIZE line whose dimensions were missing or unparsable.
    InvalidResize,
    /// An INPUT line whose length was missing or unparsable.
    InvalidInput,
    /// Any other command word, or a name that is not printable ASCII.
    Unknown,
}

/// The mathematical model of a parsed command.
pub enum CommandView {
    Empty,
    Attach { agent: Seq<char> },
    Resize { agent: Seq<char>, cols: u16, rows: u16 },
    Input { agent: Seq<char>, len: u64 },
    InvalidResize,
    InvalidInput,
    Unknown,
}

impl View for Command {
    type V = CommandView;

    open spec fn view(&self) -> CommandView {
        match self {
            Command::Empty => CommandView::Empty,
            Command::Attach { agent } => CommandView::Attach { agent: agent@ },
            Command::Resize { agent, cols, rows } => CommandView::Resize {
                agent: agent@,
                cols: *cols,
                rows: *rows,
            },
            Command::Input { agent, len } => CommandView::Input { agent: agent@, len: *len },
            Command::InvalidResize => CommandView::InvalidResize,
            Command::InvalidInput => CommandView::InvalidInput,
            Command::Unknown => CommandView::Unknown,
        }
    }
}

/// Whether every byte is ASCII.
pub open spec fn all_ascii(s: Seq<u8>) -> bool {
    forall|i: int| 0 <= i < s.len() ==> s[i] < 128
}

/// ASCII bytes read as characters.
pub open spec fn ascii_chars(s: Seq<u8>) -> Seq<char> {
    Seq::new(s.len(), |i: int| s[i] as char)
}

/// The numeric value of a digit string (most significant digit first).
pub open spec fn dec_value(s: Seq<u8>) -> int
    decreases s.len(),
{
    if s.len() == 0 {
        0
    } else {
        dec_value(s.drop_last()) * 10 + (s.last() - 48)
    }
}

/// Whether every byte is a decimal digit.
pub open spec fn all_digits(s: Seq<u8>) -> bool {
    forall|i: int| 0 <= i < s.len() ==> 48 <= #[trigger] s[i] <= 57
}

/// The number a token denotes, within the given bound: digits only,
/// nonempty, value at most `bound`.
pub open spec fn spec_parse_number(s: Seq<u8>, bound: int) -> Option<int> {
    if s.len() > 0 && all_digits(s) && dec_value(s) <= bound {
        Some(dec_value(s))
    } else {
        None
    }
}

/// The command a token list stands for.
pub open spec fn spec_parse_command(tokens: Seq<Seq<u8>>) -> CommandView {
    if tokens.len() == 0 {
        CommandView::Empty
    } else {
        let cmd = tokens[0];
        let agent = if tokens.len() >= 2 {
            tokens[1]
        } else {
            Seq::empty()
        };
        if !all_ascii(agent) {
            CommandView::Unknown
        } else if cmd == attach_word() {
            CommandView::Attach { agent: ascii_chars(agent) }
        } else if cmd == resize_word() {
            let cols = if tokens.len() >= 3 {
                spec_parse_number(tokens[2], 65535)
            } else {
                None
            };
            let rows = if tokens.len() >= 4 {
                spec_parse_number(tokens[3], 65535)
            } else {
                None
            };
            if cols is Some && rows is Some {
                CommandView::Resize {
                    agent: ascii_chars(agent),
                    cols: cols->0 as u16,
                    rows: rows->0 as u16,
                }
            } else {
                CommandView::InvalidResize
            }
        } else if cmd == input_word() {
            let len = if tokens.len() >= 3 {
                spec_parse_number(tokens[2], 0xffff_ffff_ffff_ffff)
            } else {
                None
            };
            if len is Some {
                CommandView::Input { agent: ascii_chars(agent), len: len->0 as u64 }
            } else {
                CommandView::InvalidInput
            }
        } else {
            CommandView::Unknown
        }
    }
}

/// The bytes of the word `ATTACH`.
pub open spec fn attach_word() -> Seq<u8> {
    seq![65u8, 84u8, 84u8, 65u8, 67u8, 72u8]
}

/// The bytes of the word `RESIZE`.
pub open spec fn resize_word() -> Seq<u8> {
    seq![82u8, 69u8, 83u8, 73u8, 90u8, 69u8]
}

/// The bytes of the word `INPUT`.
pub open spec fn input_word() -> Seq<u8> {
    seq![73u8, 78u8, 80u8, 85u8, 84u8]
}

/// Whether two byte strings are equal.
pub fn bytes_eq(a: &[u8], b: &[u8]) -> (r: bool)
    ensures
        r == (a@ == b@),
{
    let n: usize = a.len();
    if n != b.len() {
        proof {
            assert(a@.len() != b@.len());
        }
        return false;
    }
    let mut i: usize = 0;
    while i < n
        invariant
            i <= n,
            n == a@.len(),
            n == b@.len(),
            forall|k: int| 0 <= k < i ==> a@[k] == b@[k],
        decreases n - i,
    {
        if a[i] != b[i] {
            return false;
        }
        i = i + 1;
    }
    proof {
        assert(a@ =~= b@);
    }
    true
}

/// Relies on String::from_utf8: ASCII bytes decode to exactly those
/// characters.
#[verifier::external_body]
pub(crate) fn string_from_ascii(bytes: Vec<u8>) -> (r: String)
    requires
        all_ascii(bytes@),
    ensures
        r@ == ascii_chars(bytes@),
{
    String::from_utf8(bytes).unwrap_or_default()
}

/// Parse a decimal token bounded by `bound`.
fn parse_number(token: &Vec<u8>, bound: u64) -> (r: Option<u64>)
    ensures
        (match r {
            Some(v) => Some(v as int),
            None => None,
        }) == spec_parse_number(token@, bound as int),
{
    let n: usize = token.len();
    if n == 0 {
        return None;
    }
    let mut value: u64 = 0;
    let mut i: usize = 0;
    while i < n
        invariant
            i <= n,
            n == token@.len(),
            all_digits(token@.subrange(0, i as int)),
            value == dec_value(token@.subrange(0, i as int)),
            value <= bound,
            bound <= 0xffff_ffff_ffff_ffff,
        decreases n - i,
    {
        let b = token[i];
        if b < 48 || b > 57 {
            proof {
                assert(!all_digits(token@));
            }
            return None;
        }
        let d: u64 = (b - 48) as u64;
        let too_big: bool = if value > bound / 10 {
            true
        } else {
            let scaled: u64 = value * 10;
            d > bound || scaled > bound - d
        };
        if too_big {
            proof {
                if all_digits(token@) {
                    assert(token@.subrange(0, i as int + 1).drop_last() =~= token@.subrange(
                        0,
                        i as int,
                    ));
                    assert(token@.subrange(0, i as int + 1).last() == token@[i as int]);
                    assert(dec_value(token@.subrange(0, i as int + 1)) == value * 10 + d);
                    assert(value * 10 + d > bound);
                    lemma_dec_value_monotone(token@, i as int + 1);
                    assert(dec_value(token@) > bound);
                }
            }
            return None;
        }
        value = value * 10 + d;
        i = i + 1;
        proof {
            assert(token@.subrange(0, i as int).drop_last() =~= token@.subrange(0, i as int - 1));
            assert(token@.subrange(0, i as int).last() == token@[i as int - 1]);
            assert(all_digits(token@.subrange(0, i as int)));
        }
    }
    proof {
        assert(token@.subrange(0, n as int) =~= token@);
    }
    Some(value)
}

proof fn lemma_dec_value_nonneg(s: Seq<u8>)
    requires
        all_digits(s),
    ensures
        dec_value(s) >= 0,
    decreases s.len(),
{
    if s.len() > 0 {
        assert(forall|k: int| 0 <= k < s.drop_last().len() ==> s.drop_last()[k] == s[k]);
        lemma_dec_value_nonneg(s.drop_last());
    }
}

proof fn lemma_dec_value_monotone(s: Seq<u8>, i: int)
    requires
        0 <= i <= s.len(),
        all_digits(s),
    ensures
        dec_value(s) >= dec_value(s.subrange(0, i)),
    decreases s.len() - i,
{
    if i < s.len() {
        lemma_dec_value_monotone(s, i + 1);
        assert(s.subrange(0, i + 1).drop_last() =~= s.subrange(0, i));
        assert(s.subrange(0, i + 1).last() == s[i]);
        assert(forall|k: int| 0 <= k < i ==> s.subrange(0, i)[k] == s[k]);
        lemma_dec_value_nonneg(s.subrange(0, i));
        assert(dec_value(s.subrange(0, i + 1)) >= dec_value(s.subrange(0, i)));
    } else {
        assert(s.subrange(0, i) =~= s);
    }
}

/// Split a line into whitespace-separated tokens.
fn tokenize(line: &[u8]) -> (r: Vec<Vec<u8>>)
    ensures
        Seq::new(r@.len(), |k: int| r@[k]@) == spec_tokens(line@),
{
    let ghost s = line@;
    let n: usize = line.len();
    let mut out: Vec<Vec<u8>> = Vec::new();
    let mut i: usize = 0;
    while i < n
        invariant
            i <= n,
            n == s.len(),
            s == line@,
            spec_tokens(s) == Seq::new(out@.len(), |k: int| out@[k]@) + spec_tokens_from(s,
                i as int),
        decreases n - i,
    {
        if is_ws_exec(line[i]) {
            i = i + 1;
        } else {
            let start: usize = i;
            let mut j: usize = i + 1;
            while j < n && !is_ws_exec(line[j])
                invariant
                    start < j <= n,
                    n == s.len(),
                    s == line@,
                    forall|k: int| start + 1 <= k < j ==> !is_ws(s[k]),
                decreases n - j,
            {
                j = j + 1;
            }
            proof {
                lemma_first_ws_eq(s, start as int + 1, j as int);
            }
            let mut token: Vec<u8> = Vec::new();
            let mut k: usize = start;
            while k < j
                invariant
                    start <= k <= j <= n,
                    n == s.len(),
                    s == line@,
                    token@ == s.subrange(start as int, k as int),
                decreases j - k,
            {
                token.push(line[k]);
                k = k + 1;
                proof {
                    assert(s.subrange(start as int, k as int) =~= s.subrange(
                        start as int,
                        k as int - 1,
                    ).push(s[k as int - 1]));
                }
            }
            let ghost before = Seq::new(out@.len(), |k: int| out@[k]@);
            out.push(token);
            proof {
                assert(Seq::new(out@.len(), |k: int| out@[k]@) =~= before.push(s.subrange(
                    start as int,
                    j as int,
                )));
                assert(spec_tokens_from(s, start as int) == seq![s.subrange(
                    start as int,
                    j as int,
                )] + spec_tokens_from(s, j as int));
                assert(spec_tokens(s) =~= Seq::new(out@.len(), |k: int| out@[k]@)
                    + spec_tokens_from(s, j as int));
            }
            i = j;
        }
    }
    proof {
        assert(Seq::new(out@.len(), |k: int| out@[k]@) =~= spec_tokens(s));
    }
    out
}

/// Whether one byte separates tokens.
fn is_ws_exec(b: u8) -> (r: bool)
    ensures
        r == is_ws(b),
{
    b == 0x20 || b == 0x09 || b == 0x0d || b == 0x0a
}

/// Whether every byte of the token is ASCII.
fn all_ascii_exec(token: &Vec<u8>) -> (r: bool)
    ensures
        r == all_ascii(token@),
{
    let n: usize = token.len();
    let mut i: usize = 0;
    while i < n
        invariant
            i <= n,
            n == token@.len(),
            forall|k: int| 0 <= k < i ==> token@[k] < 128,
        decreases n - i,
    {
        if token[i] >= 128 {
            return false;
        }
        i = i + 1;
    }
    true
}

/// Parse one control line into a command.
pub fn parse_command(line: &[u8]) -> (r: Command)
    ensures
        r@ == spec_parse_command(spec_tokens(line@)),
{
    let tokens = tokenize(line);
    let ghost toks = spec_tokens(line@);
    proof {
        assert(toks == Seq::new(tokens@.len(), |k: int| tokens@[k]@));
    }
    if tokens.len() == 0 {
        return Command::Empty;
    }
    proof {
        assert(tokens@[0]@ == toks[0]);
    }
    let agent_bytes: Vec<u8> = if tokens.len() >= 2 {
        let mut t: Vec<u8> = Vec::new();
        let src = &tokens[1];
        let m: usize = src.len();
        let mut k: usize = 0;
        while k < m
            invariant
                k <= m,
                m == src@.len(),
                t@ == src@.subrange(0, k as int),
            decreases m - k,
        {
            t.push(src[k]);
            k = k + 1;
            proof {
                assert(src@.subrange(0, k as int) =~= src@.subrange(0, k as int - 1).push(
                    src@[k as int - 1],
                ));
            }
        }
        proof {
            assert(src@.subrange(0, m as int) =~= src@);
            assert(tokens@[1]@ == toks[1]);
        }
        t
    } else {
        Vec::new()
    };
    proof {
        if toks.len() >= 2 {
            assert(agent_bytes@ == toks[1]);
        } else {
            assert(agent_bytes@ =~= Seq::<u8>::empty());
        }
    }
    if !all_ascii_exec(&agent_bytes) {
        return Command::Unknown;
    }
    let cmd = &tokens[0];
    if bytes_eq(cmd.as_slice(), &[65, 84, 84, 65, 67, 72]) {
        proof {
            assert(seq![65u8, 84u8, 84u8, 65u8, 67u8, 72u8] =~= attach_word());
        }
        let agent = string_from_ascii(agent_bytes);
        return Command::Attach { agent };
    }
    if bytes_eq(cmd.as_slice(), &[82, 69, 83, 73, 90, 69]) {
        proof {
            assert(seq![82u8, 69u8, 83u8, 73u8, 90u8, 69u8] =~= resize_word());
        }
        let cols = if tokens.len() >= 3 {
            proof {
                assert(tokens@[2]@ == toks[2]);
            }
            parse_number(&tokens[2], 65535)
        } else {
            None
        };
        let rows = if tokens.len() >= 4 {
            proof {
                assert(tokens@[3]@ == toks[3]);
            }
            parse_number(&tokens[3], 65535)
        } else {
            None
        };
        match (cols, rows) {
            (Some(c), Some(w)) => {
                let agent = string_from_ascii(agent_bytes);
                return Command::Resize { agent, cols: c as u16, rows: w as u16 };
            },
            _ => {
                return Command::InvalidResize;
            },
        }
    }
    if bytes_eq(cmd.as_slice(), &[73, 78, 80, 85, 84]) {
        proof {
            assert(seq![73u8, 78u8, 80u8, 85u8, 84u8] =~= input_word());
        }
        let len = if tokens.len() >= 3 {
            proof {
                assert(tokens@[2]@ == toks[2]);
            }
            parse_number(&tokens[2], 0xffff_ffff_ffff_ffff)
        } else {
            None
        };
        match len {
            Some(l) => {
                let agent = string_from_ascii(agent_bytes);
                return Command::Input { agent, len: l };
            },
            None => {
                return Command::InvalidInput;
            },
        }
    }
    Command::Unknown
}

/// The decimal digits of a number, most significant first.
pub open spec fn spec_decimal(n: int) -> Seq<u8>
    decreases n,
{
    if n < 10 {
        seq![(48 + if n >= 0 {
            n
        } else {
            0
        }) as u8]
    } else {
        spec_decimal(n / 10) + seq![(48 + n % 10) as u8]
    }
}

/// Append the decimal digits of `n`.
pub fn push_decimal(n: u64, out: &mut Vec<u8>)
    ensures
        final(out)@ == old(out)@ + spec_decimal(n as int),
    decreases n,
{
    if n < 10 {
        out.push(48 + (n as u8));
        proof {
            assert(final(out)@ =~= old(out)@ + spec_decimal(n as int));
        }
    } else {
        push_decimal(n / 10, out);
        out.push(48 + ((n % 10) as u8));
        proof {
            assert(final(out)@ =~= old(out)@ + spec_decimal(n as int));
        }
    }
}

/// The `HISTORY <n>` line that precedes the history bytes.
pub open spec fn spec_history_header(n: int) -> Seq<u8> {
    seq![72u8, 73u8, 83u8, 84u8, 79u8, 82u8, 89u8, 32u8] + spec_decimal(n) + seq![10u8]
}

/// Build the `HISTORY <n>` line that precedes `n` history bytes.
pub fn history_header(n: u64) -> (r: Vec<u8>)
    ensures
        r@ == spec_history_header(n as int),
{
    let mut out: Vec<u8> = Vec::new();
    out.push(72);
    out.push(73);
    out.push(83);
    out.push(84);
    out.push(79);
    out.push(82);
    out.push(89);
    out.push(32);
    proof {
        assert(out@ =~= seq![72u8, 73u8, 83u8, 84u8, 79u8, 82u8, 89u8, 32u8]);
    }
    push_decimal(n, &mut out);
    out.push(10);
    proof {
        assert(out@ =~= spec_history_header(n as int));
    }
    out
}

/// The `MODES <payload>` line carrying the serialized snapshot.
pub open spec fn spec_modes_header(payload: Seq<u8>) -> Seq<u8> {
    seq![77u8, 79u8, 68u8, 69u8, 83u8, 32u8] + payload + seq![10u8]
}

/// Build the `MODES <payload>` line around a serialized snapshot.
pub fn modes_header(payload: &[u8]) -> (r: Vec<u8>)
    ensures
        r@ == spec_modes_header(payload@),
{
    let mut out: Vec<u8> = Vec::new();
    out.push(77);
    out.push(79);
    out.push(68);
    out.push(69);
    out.push(83);
    out.push(32);
    let n: usize = payload.len();
    let mut i: usize = 0;
    while i < n
        invariant
            i <= n,
            n == payload@.len(),
            out@ == seq![77u8, 79u8, 68u8, 69u8, 83u8, 32u8] + payload@.subrange(0, i as int),
        decreases n - i,
    {
        out.push(payload[i]);
        i = i + 1;
        proof {
            assert(seq![77u8, 79u8, 68u8, 69u8, 83u8, 32u8] + payload@.subrange(0, i as int)
                =~= (seq![77u8, 79u8, 68u8, 69u8, 83u8, 32u8] + payload@.subrange(
                0,
                i as int - 1,
            )).push(payload@[i as int - 1]));
        }
    }
    out.push(10);
    proof {
        assert(payload@.subrange(0, n as int) =~= payload@);
        assert(out@ =~= spec_modes_header(payload@));
    }
    out
}

/// The `OK` response line.
pub fn ok_response() -> (r: Vec<u8>)
    ensures
        r@ == seq![79u8, 75u8, 10u8],
{
    let mut out: Vec<u8> = Vec::new();
    out.push(79);
    out.push(75);
    out.push(10);
    proof {
        assert(out@ =~= seq![79u8, 75u8, 10u8]);
    }
    out
}

/// An `ERR <message>` response line.
pub fn err_response(message: &str) -> (r: Vec<u8>)
    ensures
        r@ == seq![69u8, 82u8, 82u8, 32u8] + message.spec_bytes() + seq![10u8],
{
    let bytes = message.as_bytes();
    let mut out: Vec<u8> = Vec::new();
    out.push(69);
    out.push(82);
    out.push(82);
    out.push(32);
    let n: usize = bytes.len();
    let mut i: usize = 0;
    while i < n
        invariant
            i <= n,
            n == bytes@.len(),
            out@ == seq![69u8, 82u8, 82u8, 32u8] + bytes@.subrange(0, i as int),
        decreases n - i,
    {
        out.push(bytes[i]);
        i = i + 1;
        proof {
            assert(seq![69u8, 82u8, 82u8, 32u8] + bytes@.subrange(0, i as int) =~= (seq![69u8,
                82u8, 82u8, 32u8] + bytes@.subrange(0, i as int - 1)).push(bytes@[i as int - 1]));
        }
    }
    out.push(10);
    proof {
        assert(bytes@.subrange(0, n as int) =~= bytes@);
        assert(out@ =~= seq![69u8, 82u8, 82u8, 32u8] + bytes@ + seq![10u8]);
    }
    out
}

} // verus!
