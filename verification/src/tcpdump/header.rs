//! The capture-record decoder: one ASCII header line of the form
//! `<time> IP <src> > <dst>: <key-value tail>` becomes a timestamp, an
//! endpoint pair, transport flags, optional sequence/acknowledgement
//! numbers, a window size, an optional options string and a declared length.

use vstd::prelude::*;
use vstd::string::StringSliceAdditionalSpecFns;
use vstd::slice::slice_subrange;
use vstd::slice::slice_to_vec;
use chrono::Timelike;
use super::HeaderError;
use crate::tcp::flags::FlagCollection;
use crate::tcp::flags::spec_parse_flag_bytes;

verus! {

/// A wall-clock time of day with sub-second precision: hour, minute, second
/// and nanosecond, the nanosecond count running up to two thousand million
/// to leave room for a leap second.
#[derive(Debug, Clone, Copy, PartialEq, Eq, Structural)]
pub struct TimeOfDay {
    pub hour: u32,
    pub min: u32,
    pub sec: u32,
    pub nanos: u32,
}

impl TimeOfDay {
    pub open spec fn wf(self) -> bool {
        self.hour < 24 && self.min < 60 && self.sec < 60 && self.nanos < 2_000_000_000
    }

    /// The time as a plain tuple.
    pub open spec fn spec_parts(self) -> (u32, u32, u32, u32) {
        (self.hour, self.min, self.sec, self.nanos)
    }
}

/// An IPv4 address: four octets.
#[derive(Debug, Clone, Copy, PartialEq, Eq, Structural)]
pub struct IpV4 {
    pub a: u8,
    pub b: u8,
    pub c: u8,
    pub d: u8,
}

impl IpV4 {
    /// The address as a plain tuple.
    pub open spec fn spec_parts(self) -> (u8, u8, u8, u8) {
        (self.a, self.b, self.c, self.d)
    }
}

/// An endpoint: an IPv4 address and a port.
#[derive(Debug, Clone, Copy, PartialEq, Eq, Structural)]
pub struct SockAddr {
    pub ip: IpV4,
    pub port: u16,
}

/// What `chrono` makes of a time text under the `HH:MM:SS[.fraction]`
/// format: hour, minute, second and nanosecond, or nothing.  The result is a
/// function of the input bytes alone.
pub uninterp spec fn chrono_time_of(b: Seq<u8>) -> Option<(u32, u32, u32, u32)>;

/// Relies on `chrono::NaiveTime::parse_from_str` with format
/// `"%H:%M:%S%.f"`, read back through the `chrono::Timelike` accessors,
/// whose documentation bounds the hour below 24, minute and second below 60,
/// and the nanosecond below two thousand million (leap seconds included).
#[verifier::external_body]
fn parse_time_raw(tok: &[u8]) -> (r: Option<(u32, u32, u32, u32)>)
    ensures
        r == chrono_time_of(tok@),
        r matches Some(t) ==> t.0 < 24 && t.1 < 60 && t.2 < 60 && t.3 < 2_000_000_000,
{
    let s = core::str::from_utf8(tok).ok()?;
    let t = chrono::NaiveTime::parse_from_str(s, "%H:%M:%S%.f").ok()?;
    Some((t.hour(), t.minute(), t.second(), t.nanosecond()))
}

/// Whether a byte is an ASCII decimal digit.
pub open spec fn spec_is_digit(b: u8) -> bool {
    48 <= b && b <= 57
}

/// Whether a text is one or more decimal digits and nothing else.
pub open spec fn spec_all_digits(b: Seq<u8>) -> bool {
    b.len() > 0 && (forall|i: int| 0 <= i < b.len() ==> spec_is_digit(#[trigger] b[i]))
}

/// The decimal value of a digit string.
pub open spec fn spec_dec_val(b: Seq<u8>) -> int
    decreases b.len(),
{
    if b.len() == 0 {
        0
    } else {
        spec_dec_val(b.take(b.len() - 1)) * 10 + (b[b.len() - 1] - 48)
    }
}

proof fn lemma_dec_val_nonneg(b: Seq<u8>)
    requires
        forall|i: int| 0 <= i < b.len() ==> spec_is_digit(#[trigger] b[i]),
    ensures
        spec_dec_val(b) >= 0,
    decreases b.len(),
{
    if b.len() > 0 {
        let p = b.take(b.len() - 1);
        assert(forall|i: int| 0 <= i < p.len() ==> spec_is_digit(#[trigger] p[i]));
        lemma_dec_val_nonneg(p);
    }
}

/// A digit string's value only grows as digits are appended.
proof fn lemma_dec_val_mono(b: Seq<u8>, j: int)
    requires
        0 <= j <= b.len(),
        forall|i: int| 0 <= i < b.len() ==> spec_is_digit(#[trigger] b[i]),
    ensures
        spec_dec_val(b) >= spec_dec_val(b.take(j)),
    decreases b.len() - j,
{
    if j < b.len() {
        let p = b.take(j + 1);
        assert(p.take(j) =~= b.take(j));
        assert(forall|i: int| 0 <= i < p.len() ==> spec_is_digit(#[trigger] p[i]));
        lemma_dec_val_nonneg(b.take(j));
        assert(spec_dec_val(p) == spec_dec_val(b.take(j)) * 10 + (b[j] - 48));
        lemma_dec_val_mono(b, j + 1);
    } else {
        assert(b.take(j) =~= b);
    }
}

/// Parse a decimal digit string whose value must not exceed `cap`: the exact
/// value on success, nothing if the text is empty, holds a non-digit, or
/// exceeds the cap.
fn parse_dec_capped(b: &[u8], cap: u128) -> (r: Option<u128>)
    ensures
        r is Some <==> spec_all_digits(b@) && spec_dec_val(b@) <= cap,
        r matches Some(v) ==> v == spec_dec_val(b@),
{
    let n = b.len();
    if n == 0 {
        return None;
    }
    let mut acc: u128 = 0;
    let mut j: usize = 0;
    proof {
        assert(b@.take(0) =~= Seq::<u8>::empty());
    }
    while j < n
        invariant
            0 <= j <= n,
            n == b@.len(),
            forall|i: int| 0 <= i < j ==> spec_is_digit(#[trigger] b@[i]),
            acc == spec_dec_val(b@.take(j as int)),
            acc <= cap,
        decreases n - j,
    {
        let d = b[j];
        if !(48 <= d && d <= 57) {
            return None;
        }
        proof {
            assert(b@.take(j as int + 1).take(j as int) =~= b@.take(j as int));
            assert(b@.take(j as int + 1)[j as int] == b@[j as int]);
        }
        let q = cap / 10;
        let rm = cap % 10;
        let dv = (d - 48) as u128;
        if acc > q || (acc == q && dv > rm) {
            proof {
                assert(spec_dec_val(b@.take(j as int + 1)) == acc * 10 + dv);
                assert(acc * 10 + dv > cap) by (nonlinear_arith)
                    requires
                        acc > cap / 10 || (acc == cap / 10 && dv > cap % 10),
                        acc >= 0,
                        dv >= 0,
                        cap >= 0,
                ;
                if spec_all_digits(b@) {
                    lemma_dec_val_mono(b@, j as int + 1);
                }
            }
            return None;
        }
        proof {
            assert(acc * 10 + dv <= cap) by (nonlinear_arith)
                requires
                    acc <= cap / 10,
                    !(acc == cap / 10 && dv > cap % 10),
                    acc >= 0,
                    0 <= dv <= 9,
                    cap >= 0,
            ;
        }
        acc = acc * 10 + dv;
        j = j + 1;
    }
    proof {
        assert(b@.take(n as int) =~= b@);
    }
    Some(acc)
}

/// The first index where the two-byte separator `s0 s1` occurs, the text
/// before it and the text after it, if it occurs at all.
pub open spec fn spec_split_once2(b: Seq<u8>, s0: u8, s1: u8) -> Option<(Seq<u8>, Seq<u8>)>
    decreases b.len(),
{
    if b.len() < 2 {
        None
    } else if b[0] == s0 && b[1] == s1 {
        Some((Seq::empty(), b.skip(2)))
    } else {
        match spec_split_once2(b.skip(1), s0, s1) {
            None => None,
            Some(ht) => Some((seq![b[0]] + ht.0, ht.1)),
        }
    }
}

/// Split at the first occurrence of a single byte.
pub open spec fn spec_split_once_b(b: Seq<u8>, sep: u8) -> Option<(Seq<u8>, Seq<u8>)>
    decreases b.len(),
{
    if b.len() == 0 {
        None
    } else if b[0] == sep {
        Some((Seq::empty(), b.skip(1)))
    } else {
        match spec_split_once_b(b.skip(1), sep) {
            None => None,
            Some(ht) => Some((seq![b[0]] + ht.0, ht.1)),
        }
    }
}

/// The index of the last occurrence of a byte, if any.
pub open spec fn spec_rfind_b(b: Seq<u8>, sep: u8) -> Option<int>
    decreases b.len(),
{
    if b.len() == 0 {
        None
    } else if b[b.len() - 1] == sep {
        Some(b.len() - 1)
    } else {
        spec_rfind_b(b.take(b.len() - 1), sep)
    }
}

/// Split on every occurrence of a byte, accumulating the piece under
/// construction; empty pieces are kept.
pub open spec fn spec_split_all_b(b: Seq<u8>, sep: u8, cur: Seq<u8>) -> Seq<Seq<u8>>
    decreases b.len(),
{
    if b.len() == 0 {
        seq![cur]
    } else if b[0] == sep {
        seq![cur] + spec_split_all_b(b.skip(1), sep, Seq::empty())
    } else {
        spec_split_all_b(b.skip(1), sep, cur.push(b[0]))
    }
}

/// Find the first occurrence of the two-byte separator `s0 s1`.
fn find_sep2(b: &[u8], s0: u8, s1: u8) -> (r: Option<usize>)
    ensures
        (match r {
            Some(i) => i + 2 <= b@.len() && spec_split_once2(b@, s0, s1) == Some(
                (b@.subrange(0, i as int), b@.skip(i as int + 2)),
            ),
            None => spec_split_once2(b@, s0, s1) is None,
        }),
{
    let n = b.len();
    let mut i: usize = 0;
    proof {
        assert(b@.skip(0) =~= b@);
        assert(b@.subrange(0, 0) + b@.skip(0) =~= b@);
    }
    while i < n && i + 1 < n && !(b[i] == s0 && b[i + 1] == s1)
        invariant
            i <= n,
            n == b@.len(),
            (match spec_split_once2(b@.skip(i as int), s0, s1) {
                None => spec_split_once2(b@, s0, s1) is None,
                Some(ht) => spec_split_once2(b@, s0, s1) == Some(
                    (b@.subrange(0, i as int) + ht.0, ht.1),
                ),
            }),
        decreases n - i,
    {
        proof {
            let t = b@.skip(i as int);
            assert(t[0] == b@[i as int]);
            assert(t.len() >= 2);
            assert(t[1] == b@[i as int + 1]);
            assert(t.skip(1) =~= b@.skip(i as int + 1));
            match spec_split_once2(b@.skip(i as int + 1), s0, s1) {
                None => {},
                Some(ht) => {
                    assert(seq![b@[i as int]] + ht.0 =~= b@.subrange(i as int, i as int + 1) + ht.0);
                    assert(b@.subrange(0, i as int) + (b@.subrange(i as int, i as int + 1) + ht.0)
                        =~= b@.subrange(0, i as int + 1) + ht.0);
                },
            }
        }
        i = i + 1;
    }
    if i < n && i + 1 < n {
        proof {
            let t = b@.skip(i as int);
            assert(t[0] == b@[i as int]);
            assert(t[1] == b@[i as int + 1]);
            assert(t.skip(2) =~= b@.skip(i as int + 2));
            assert(b@.subrange(0, i as int) + Seq::<u8>::empty() =~= b@.subrange(0, i as int));
        }
        Some(i)
    } else {
        proof {
            assert(b@.skip(i as int).len() < 2);
        }
        None
    }
}

/// Find the first occurrence of a single byte.
fn find_byte(b: &[u8], sep: u8) -> (r: Option<usize>)
    ensures
        (match r {
            Some(i) => i < b@.len() && spec_split_once_b(b@, sep) == Some(
                (b@.subrange(0, i as int), b@.skip(i as int + 1)),
            ),
            None => spec_split_once_b(b@, sep) is None,
        }),
{
    let n = b.len();
    let mut i: usize = 0;
    proof {
        assert(b@.skip(0) =~= b@);
    }
    while i < n && b[i] != sep
        invariant
            i <= n,
            n == b@.len(),
            (match spec_split_once_b(b@.skip(i as int), sep) {
                None => spec_split_once_b(b@, sep) is None,
                Some(ht) => spec_split_once_b(b@, sep) == Some(
                    (b@.subrange(0, i as int) + ht.0, ht.1),
                ),
            }),
        decreases n - i,
    {
        proof {
            let t = b@.skip(i as int);
            assert(t[0] == b@[i as int]);
            assert(t.skip(1) =~= b@.skip(i as int + 1));
            match spec_split_once_b(b@.skip(i as int + 1), sep) {
                None => {},
                Some(ht) => {
                    assert(seq![b@[i as int]] + ht.0 =~= b@.subrange(i as int, i as int + 1) + ht.0);
                    assert(b@.subrange(0, i as int) + (b@.subrange(i as int, i as int + 1) + ht.0)
                        =~= b@.subrange(0, i as int + 1) + ht.0);
                },
            }
        }
        i = i + 1;
    }
    if i < n {
        proof {
            let t = b@.skip(i as int);
            assert(t[0] == b@[i as int]);
            assert(t.skip(1) =~= b@.skip(i as int + 1));
            assert(b@.subrange(0, i as int) + Seq::<u8>::empty() =~= b@.subrange(0, i as int));
        }
        Some(i)
    } else {
        proof {
            assert(b@.skip(i as int).len() == 0);
        }
        None
    }
}

/// Find the last occurrence of a single byte.
fn rfind_byte(b: &[u8], sep: u8) -> (r: Option<usize>)
    ensures
        (match r {
            Some(i) => i < b@.len() && spec_rfind_b(b@, sep) == Some(i as int),
            None => spec_rfind_b(b@, sep) is None,
        }),
{
    let n = b.len();
    let mut j: usize = n;
    proof {
        assert(b@.take(n as int) =~= b@);
    }
    while j > 0
        invariant
            j <= n,
            n == b@.len(),
            spec_rfind_b(b@, sep) == spec_rfind_b(b@.take(j as int), sep),
        decreases j,
    {
        proof {
            let t = b@.take(j as int);
            assert(t[j - 1] == b@[j - 1]);
            assert(t.take(j - 1) =~= b@.take(j - 1));
        }
        if b[j - 1] == sep {
            return Some(j - 1);
        }
        j = j - 1;
    }
    proof {
        assert(b@.take(0).len() == 0);
    }
    None
}

/// Whether an octet text is valid: one to three digits, no leading zero
/// unless it is exactly "0", value at most 255.
pub open spec fn spec_valid_octet(b: Seq<u8>) -> bool {
    spec_all_digits(b) && b.len() <= 3 && (b.len() == 1 || b[0] != 48) && spec_dec_val(b) <= 255
}

/// What a dotted-quad text denotes, if it is exactly four valid octets.
pub open spec fn spec_parse_ipv4(b: Seq<u8>) -> Option<(u8, u8, u8, u8)> {
    let parts = spec_split_all_b(b, 46, Seq::empty());
    if parts.len() == 4 && spec_valid_octet(parts[0]) && spec_valid_octet(parts[1])
        && spec_valid_octet(parts[2]) && spec_valid_octet(parts[3]) {
        Some(
            (
                spec_dec_val(parts[0]) as u8,
                spec_dec_val(parts[1]) as u8,
                spec_dec_val(parts[2]) as u8,
                spec_dec_val(parts[3]) as u8,
            ),
        )
    } else {
        None
    }
}

/// What an endpoint text denotes: the text before its last `.` as a
/// dotted-quad address, the text after it as a decimal port.
pub open spec fn spec_parse_sockaddr(b: Seq<u8>) -> Option<((u8, u8, u8, u8), u16)> {
    match spec_rfind_b(b, 46) {
        None => None,
        Some(i) => {
            let ip = spec_parse_ipv4(b.take(i));
            let port = b.skip(i + 1);
            if ip is Some && spec_all_digits(port) && spec_dec_val(port) <= 65535 {
                Some((ip->Some_0, spec_dec_val(port) as u16))
            } else {
                None
            }
        },
    }
}

/// Check one octet text.
fn check_octet(b: &[u8]) -> (r: Option<u8>)
    ensures
        r is Some <==> spec_valid_octet(b@),
        r matches Some(v) ==> v == spec_dec_val(b@),
{
    if b.len() == 0 || b.len() > 3 {
        return None;
    }
    if b.len() > 1 && b[0] == 48 {
        return None;
    }
    match parse_dec_capped(b, 255) {
        Some(v) => Some(v as u8),
        None => None,
    }
}

/// Parse an endpoint text, as `spec_parse_sockaddr` says.
#[verifier::rlimit(30)]
pub fn parse_tcpdump_sockaddr(b: &[u8]) -> (r: Option<SockAddr>)
    ensures
        (match r {
            Some(sa) => spec_parse_sockaddr(b@) == Some(
                (sa.ip.spec_parts(), sa.port),
            ),
            None => spec_parse_sockaddr(b@) is None,
        }),
{
    let i = match rfind_byte(b, 46) {
        Some(i) => i,
        None => {
            return None;
        },
    };
    let n = b.len();
    let ip_part = slice_subrange(b, 0, i);
    let port_part = slice_subrange(b, i + 1, n);
    proof {
        assert(ip_part@ =~= b@.take(i as int));
        assert(port_part@ =~= b@.skip(i as int + 1));
    }
    let port = match parse_dec_capped(port_part, 65535) {
        Some(v) => v as u16,
        None => {
            return None;
        },
    };
    let ip = match parse_ipv4(ip_part) {
        Some(ip) => ip,
        None => {
            return None;
        },
    };
    Some(SockAddr { ip, port })
}

/// Parse a dotted-quad address text, as `spec_parse_ipv4` says.
#[verifier::rlimit(50)]
fn parse_ipv4(b: &[u8]) -> (r: Option<IpV4>)
    ensures
        (match r {
            Some(ip) => spec_parse_ipv4(b@) == Some(ip.spec_parts()),
            None => spec_parse_ipv4(b@) is None,
        }),
{
    let n = b.len();
    let mut parts: Vec<Vec<u8>> = Vec::new();
    let mut cur: Vec<u8> = Vec::new();
    let mut k: usize = 0;
    proof {
        assert(b@.skip(0) =~= b@);
    }
    while k < n
        invariant
            k <= n,
            n == b@.len(),
            spec_split_all_b(b@, 46, Seq::empty()) == parts@.map_values(|p: Vec<u8>| p@)
                + spec_split_all_b(b@.skip(k as int), 46, cur@),
        decreases n - k,
    {
        proof {
            let t = b@.skip(k as int);
            assert(t[0] == b@[k as int]);
            assert(t.skip(1) =~= b@.skip(k as int + 1));
        }
        let c = b[k];
        if c == 46 {
            let ghost parts0 = parts@;
            let ghost cur0 = cur@;
            parts.push(cur);
            cur = Vec::new();
            proof {
                assert(parts@.map_values(|p: Vec<u8>| p@) =~= parts0.map_values(|p: Vec<u8>| p@)
                    + seq![cur0]);
                assert((parts0.map_values(|p: Vec<u8>| p@) + seq![cur0]) + spec_split_all_b(
                    b@.skip(k as int + 1),
                    46,
                    Seq::empty(),
                ) =~= parts0.map_values(|p: Vec<u8>| p@) + (seq![cur0] + spec_split_all_b(
                    b@.skip(k as int + 1),
                    46,
                    Seq::empty(),
                )));
            }
        } else {
            cur.push(c);
        }
        k = k + 1;
    }
    let ghost parts0 = parts@;
    let ghost cur0 = cur@;
    parts.push(cur);
    proof {
        assert(b@.skip(n as int) =~= Seq::<u8>::empty());
        assert(parts@.map_values(|p: Vec<u8>| p@) =~= parts0.map_values(|p: Vec<u8>| p@)
            + seq![cur0]);
        assert(spec_split_all_b(b@, 46, Seq::empty()) == parts@.map_values(|p: Vec<u8>| p@));
    }
    if parts.len() != 4 {
        return None;
    }
    proof {
        assert(parts@.map_values(|p: Vec<u8>| p@)[0] == parts@[0]@);
        assert(parts@.map_values(|p: Vec<u8>| p@)[1] == parts@[1]@);
        assert(parts@.map_values(|p: Vec<u8>| p@)[2] == parts@[2]@);
        assert(parts@.map_values(|p: Vec<u8>| p@)[3] == parts@[3]@);
    }
    let a = match check_octet(parts[0].as_slice()) {
        Some(v) => v,
        None => {
            return None;
        },
    };
    let bb = match check_octet(parts[1].as_slice()) {
        Some(v) => v,
        None => {
            return None;
        },
    };
    let c = match check_octet(parts[2].as_slice()) {
        Some(v) => v,
        None => {
            return None;
        },
    };
    let d = match check_octet(parts[3].as_slice()) {
        Some(v) => v,
        None => {
            return None;
        },
    };
    Some(IpV4 { a, b: bb, c, d })
}

/// ASCII whitespace.
pub open spec fn spec_is_ws(b: u8) -> bool {
    b == 32 || (9 <= b && b <= 13)
}

/// Whitespace-separated tokens, accumulating the token under construction;
/// empty tokens are dropped.
pub open spec fn spec_ws_tokens_acc(b: Seq<u8>, cur: Seq<u8>) -> Seq<Seq<u8>>
    decreases b.len(),
{
    if b.len() == 0 {
        if cur.len() == 0 {
            Seq::empty()
        } else {
            seq![cur]
        }
    } else if spec_is_ws(b[0]) {
        if cur.len() == 0 {
            spec_ws_tokens_acc(b.skip(1), cur)
        } else {
            seq![cur] + spec_ws_tokens_acc(b.skip(1), Seq::empty())
        }
    } else {
        spec_ws_tokens_acc(b.skip(1), cur.push(b[0]))
    }
}

/// The whitespace-separated tokens of a text.
pub open spec fn spec_ws_tokens(b: Seq<u8>) -> Seq<Seq<u8>> {
    spec_ws_tokens_acc(b, Seq::empty())
}

/// The shape the head of a line must have: `<time> IP <src> > <dst>`, with
/// the literal `IP` and the literal `>` mandatory.  Tokens past the fifth
/// are ignored.
pub open spec fn spec_head_parts(toks: Seq<Seq<u8>>) -> Result<
    (Seq<u8>, Seq<u8>, Seq<u8>),
    HeaderError,
> {
    if toks.len() < 2 {
        Err(HeaderError::SyntaxError)
    } else if toks[1] != seq![73u8, 80u8] {
        Err(HeaderError::InvalidProtocol)
    } else if toks.len() < 4 {
        Err(HeaderError::SyntaxError)
    } else if toks[3] != seq![62u8] {
        Err(HeaderError::UnexpectedToken)
    } else if toks.len() < 5 {
        Err(HeaderError::SyntaxError)
    } else {
        Ok((toks[0], toks[2], toks[4]))
    }
}

/// The six values the key-value tail can carry, each possibly still absent.
pub ghost struct TailSpec {
    pub flags: Option<u8>,
    pub seq: Option<u32>,
    pub ack: Option<u32>,
    pub win: Option<u16>,
    pub options: Option<Seq<u8>>,
    pub length: Option<u128>,
}

/// The empty tail state.
pub open spec fn spec_empty_tail() -> TailSpec {
    TailSpec { flags: None, seq: None, ack: None, win: None, options: None, length: None }
}

/// What one `key value` entry does to the tail state.  A later entry for
/// the same key overwrites an earlier one.
pub open spec fn spec_tail_entry(e: Seq<u8>, st: TailSpec) -> Result<TailSpec, HeaderError> {
    match spec_split_once_b(e, 32) {
        None => Err(HeaderError::SyntaxError),
        Some(kv) => {
            let k = kv.0;
            let v = kv.1;
            if k == seq![70u8, 108u8, 97u8, 103u8, 115u8] {
                match spec_parse_flag_bytes(v) {
                    Ok(bits) => Ok(TailSpec { flags: Some(bits), ..st }),
                    Err(_) => Err(HeaderError::SyntaxError),
                }
            } else if k == seq![115u8, 101u8, 113u8] {
                let a = match spec_split_once_b(v, 58) {
                    Some(xy) => xy.0,
                    None => v,
                };
                if spec_all_digits(a) && spec_dec_val(a) <= 0xFFFF_FFFF {
                    Ok(TailSpec { seq: Some(spec_dec_val(a) as u32), ..st })
                } else {
                    Err(HeaderError::SyntaxError)
                }
            } else if k == seq![97u8, 99u8, 107u8] {
                if spec_all_digits(v) && spec_dec_val(v) <= 0xFFFF_FFFF {
                    Ok(TailSpec { ack: Some(spec_dec_val(v) as u32), ..st })
                } else {
                    Err(HeaderError::SyntaxError)
                }
            } else if k == seq![119u8, 105u8, 110u8] {
                if spec_all_digits(v) && spec_dec_val(v) <= 0xFFFF {
                    Ok(TailSpec { win: Some(spec_dec_val(v) as u16), ..st })
                } else {
                    Err(HeaderError::SyntaxError)
                }
            } else if k == seq![111u8, 112u8, 116u8, 105u8, 111u8, 110u8, 115u8] {
                Ok(TailSpec { options: Some(v), ..st })
            } else if k == seq![108u8, 101u8, 110u8, 103u8, 116u8, 104u8] {
                if spec_all_digits(v) && spec_dec_val(v) <= u128::MAX {
                    Ok(TailSpec { length: Some(spec_dec_val(v) as u128), ..st })
                } else {
                    Err(HeaderError::SyntaxError)
                }
            } else {
                Err(HeaderError::UnexpectedToken)
            }
        },
    }
}

/// Fold the comma-separated entries of a tail into the state, accumulating
/// the entry under construction.
pub open spec fn spec_tail_go(b: Seq<u8>, cur: Seq<u8>, st: TailSpec) -> Result<
    TailSpec,
    HeaderError,
>
    decreases b.len(),
{
    if b.len() == 0 {
        spec_tail_entry(cur, st)
    } else if b.len() >= 2 && b[0] == 44 && b[1] == 32 {
        match spec_tail_entry(cur, st) {
            Err(e) => Err(e),
            Ok(st2) => spec_tail_go(b.skip(2), Seq::empty(), st2),
        }
    } else {
        spec_tail_go(b.skip(1), cur.push(b[0]), st)
    }
}

/// What the whole key-value tail yields.
pub open spec fn spec_parse_tail(b: Seq<u8>) -> Result<TailSpec, HeaderError> {
    spec_tail_go(b, Seq::empty(), spec_empty_tail())
}

/// The mathematical content of a parsed capture record.
pub ghost struct HeaderV {
    pub time: (u32, u32, u32, u32),
    pub src: ((u8, u8, u8, u8), u16),
    pub dst: ((u8, u8, u8, u8), u16),
    pub seq: Option<u32>,
    pub ack: Option<u32>,
    pub win: u16,
    pub options: Option<Seq<u8>>,
    pub length: u128,
    pub flags: u8,
}

/// What parsing a whole header line yields: split once on `": "`, check the
/// head's shape, parse the timestamp, both endpoints and the tail, and
/// demand the mandatory `Flags`, `win` and `length` keys.
pub open spec fn spec_parse_header_line(b: Seq<u8>) -> Result<HeaderV, HeaderError> {
    match spec_split_once2(b, 58, 32) {
        None => Err(HeaderError::SyntaxError),
        Some(ht) => match spec_head_parts(spec_ws_tokens(ht.0)) {
            Err(e) => Err(e),
            Ok(tsd) => match chrono_time_of(tsd.0) {
                None => Err(HeaderError::InvalidTimeFmt),
                Some(t) => match spec_parse_sockaddr(tsd.1) {
                    None => Err(HeaderError::InvalidSocketAddr),
                    Some(sa) => match spec_parse_sockaddr(tsd.2) {
                        None => Err(HeaderError::InvalidSocketAddr),
                        Some(da) => match spec_parse_tail(ht.1) {
                            Err(e) => Err(e),
                            Ok(t6) => if t6.flags is Some && t6.win is Some && t6.length is Some {
                                Ok(
                                    HeaderV {
                                        time: t,
                                        src: sa,
                                        dst: da,
                                        seq: t6.seq,
                                        ack: t6.ack,
                                        win: t6.win->Some_0,
                                        options: t6.options,
                                        length: t6.length->Some_0,
                                        flags: t6.flags->Some_0,
                                    },
                                )
                            } else {
                                Err(HeaderError::MissingToken)
                            },
                        },
                    },
                },
            },
        },
    }
}

/// One parsed capture record: timestamp, endpoint pair, transport flags,
/// optional sequence and acknowledgement numbers, window size, optional
/// verbatim options text and declared payload length.
#[derive(Debug, Clone, PartialEq, Eq)]
pub struct Header {
    pub time: TimeOfDay,
    pub src: SockAddr,
    pub dst: SockAddr,
    pub seq: Option<u32>,
    pub ack: Option<u32>,
    pub win: u16,
    pub options: Option<Vec<u8>>,
    pub length: u128,
    pub flags: FlagCollection,
}

impl View for Header {
    type V = HeaderV;

    open spec fn view(&self) -> HeaderV {
        HeaderV {
            time: self.time.spec_parts(),
            src: (self.src.ip.spec_parts(), self.src.port),
            dst: (self.dst.ip.spec_parts(), self.dst.port),
            seq: self.seq,
            ack: self.ack,
            win: self.win,
            options: (match self.options {
                Some(ref v) => Some(v@),
                None => None,
            }),
            length: self.length,
            flags: self.flags.spec_bits(),
        }
    }
}

/// The tail state while entries are folded in.
struct TailState {
    flags: Option<FlagCollection>,
    seq: Option<u32>,
    ack: Option<u32>,
    win: Option<u16>,
    options: Option<Vec<u8>>,
    length: Option<u128>,
}

impl TailState {
    spec fn spec_v(&self) -> TailSpec {
        TailSpec {
            flags: (match self.flags {
                Some(f) => Some(f.spec_bits()),
                None => None,
            }),
            seq: self.seq,
            ack: self.ack,
            win: self.win,
            options: (match self.options {
                Some(ref v) => Some(v@),
                None => None,
            }),
            length: self.length,
        }
    }
}

fn is_key_flags(k: &[u8]) -> (r: bool)
    ensures
        r == (k@ == seq![70u8, 108u8, 97u8, 103u8, 115u8]),
{
    let r = k.len() == 5 && k[0] == 70 && k[1] == 108 && k[2] == 97 && k[3] == 103 && k[4] == 115;
    proof {
        if r {
            assert(k@ =~= seq![70u8, 108u8, 97u8, 103u8, 115u8]);
        }
    }
    r
}

fn is_key_seq(k: &[u8]) -> (r: bool)
    ensures
        r == (k@ == seq![115u8, 101u8, 113u8]),
{
    let r = k.len() == 3 && k[0] == 115 && k[1] == 101 && k[2] == 113;
    proof {
        if r {
            assert(k@ =~= seq![115u8, 101u8, 113u8]);
        }
    }
    r
}

fn is_key_ack(k: &[u8]) -> (r: bool)
    ensures
        r == (k@ == seq![97u8, 99u8, 107u8]),
{
    let r = k.len() == 3 && k[0] == 97 && k[1] == 99 && k[2] == 107;
    proof {
        if r {
            assert(k@ =~= seq![97u8, 99u8, 107u8]);
        }
    }
    r
}

fn is_key_win(k: &[u8]) -> (r: bool)
    ensures
        r == (k@ == seq![119u8, 105u8, 110u8]),
{
    let r = k.len() == 3 && k[0] == 119 && k[1] == 105 && k[2] == 110;
    proof {
        if r {
            assert(k@ =~= seq![119u8, 105u8, 110u8]);
        }
    }
    r
}

fn is_key_options(k: &[u8]) -> (r: bool)
    ensures
        r == (k@ == seq![111u8, 112u8, 116u8, 105u8, 111u8, 110u8, 115u8]),
{
    let r = k.len() == 7 && k[0] == 111 && k[1] == 112 && k[2] == 116 && k[3] == 105 && k[4] == 111
        && k[5] == 110 && k[6] == 115;
    proof {
        if r {
            assert(k@ =~= seq![111u8, 112u8, 116u8, 105u8, 111u8, 110u8, 115u8]);
        }
    }
    r
}

fn is_key_length(k: &[u8]) -> (r: bool)
    ensures
        r == (k@ == seq![108u8, 101u8, 110u8, 103u8, 116u8, 104u8]),
{
    let r = k.len() == 6 && k[0] == 108 && k[1] == 101 && k[2] == 110 && k[3] == 103 && k[4] == 116
        && k[5] == 104;
    proof {
        if r {
            assert(k@ =~= seq![108u8, 101u8, 110u8, 103u8, 116u8, 104u8]);
        }
    }
    r
}

/// Fold one `key value` entry into the state, as `spec_tail_entry` says.
fn process_entry(st: &mut TailState, e: &[u8]) -> (r: Result<(), HeaderError>)
    ensures
        (match spec_tail_entry(e@, old(st).spec_v()) {
            Ok(st2) => r is Ok && final(st).spec_v() == st2,
            Err(er) => r == Err::<(), HeaderError>(er),
        }),
{
    let n = e.len();
    let kvi = match find_byte(e, 32) {
        Some(i) => i,
        None => {
            return Err(HeaderError::SyntaxError);
        },
    };
    let k = slice_subrange(e, 0, kvi);
    let v = slice_subrange(e, kvi + 1, n);
    if is_key_flags(k) {
        match FlagCollection::try_parse_bytes(v) {
            Ok(fc) => {
                st.flags = Some(fc);
                Ok(())
            },
            Err(_) => Err(HeaderError::SyntaxError),
        }
    } else if is_key_seq(k) {
        let a = match find_byte(v, 58) {
            Some(i) => slice_subrange(v, 0, i),
            None => v,
        };
        match parse_dec_capped(a, 0xFFFF_FFFF) {
            Some(val) => {
                st.seq = Some(val as u32);
                Ok(())
            },
            None => Err(HeaderError::SyntaxError),
        }
    } else if is_key_ack(k) {
        match parse_dec_capped(v, 0xFFFF_FFFF) {
            Some(val) => {
                st.ack = Some(val as u32);
                Ok(())
            },
            None => Err(HeaderError::SyntaxError),
        }
    } else if is_key_win(k) {
        match parse_dec_capped(v, 0xFFFF) {
            Some(val) => {
                st.win = Some(val as u16);
                Ok(())
            },
            None => Err(HeaderError::SyntaxError),
        }
    } else if is_key_options(k) {
        st.options = Some(slice_to_vec(v));
        Ok(())
    } else if is_key_length(k) {
        match parse_dec_capped(v, u128::MAX) {
            Some(val) => {
                st.length = Some(val);
                Ok(())
            },
            None => Err(HeaderError::SyntaxError),
        }
    } else {
        Err(HeaderError::UnexpectedToken)
    }
}

/// Fold a whole key-value tail, as `spec_parse_tail` says, and demand the
/// mandatory `Flags`, `win` and `length` keys.
fn parse_tail(tail: &[u8]) -> (r: Result<
    (FlagCollection, Option<u32>, Option<u32>, u16, Option<Vec<u8>>, u128),
    HeaderError,
>)
    ensures
        (match r {
            Ok(t) => spec_parse_tail(tail@) matches Ok(st) && st.flags == Some(t.0.spec_bits())
                && st.seq == t.1 && st.ack == t.2 && st.win == Some(t.3) && st.options == (
            match t.4 {
                Some(v) => Some(v@),
                None => None::<Seq<u8>>,
            }) && st.length == Some(t.5),
            Err(e) => (match spec_parse_tail(tail@) {
                Err(e2) => e == e2,
                Ok(st) => e == HeaderError::MissingToken && !(st.flags is Some && st.win is Some
                    && st.length is Some),
            }),
        }),
{
    let n = tail.len();
    let mut st = TailState {
        flags: None,
        seq: None,
        ack: None,
        win: None,
        options: None,
        length: None,
    };
    let mut cur: Vec<u8> = Vec::new();
    let mut p: usize = 0;
    proof {
        assert(tail@.skip(0) =~= tail@);
    }
    while p < n
        invariant
            p <= n,
            n == tail@.len(),
            spec_parse_tail(tail@) == spec_tail_go(tail@.skip(p as int), cur@, st.spec_v()),
        decreases n - p,
    {
        proof {
            let t = tail@.skip(p as int);
            assert(t[0] == tail@[p as int]);
            if t.len() >= 2 {
                assert(t[1] == tail@[p as int + 1]);
            }
            assert(t.skip(1) =~= tail@.skip(p as int + 1));
            if p + 2 <= n {
                assert(t.skip(2) =~= tail@.skip(p as int + 2));
            }
        }
        if p + 1 < n && tail[p] == 44 && tail[p + 1] == 32 {
            match process_entry(&mut st, cur.as_slice()) {
                Ok(_) => (),
                Err(e) => {
                    return Err(e);
                },
            }
            cur = Vec::new();
            p = p + 2;
        } else {
            cur.push(tail[p]);
            p = p + 1;
        }
    }
    proof {
        assert(tail@.skip(n as int) =~= Seq::<u8>::empty());
    }
    match process_entry(&mut st, cur.as_slice()) {
        Ok(_) => (),
        Err(e) => {
            return Err(e);
        },
    }
    let TailState { flags, seq, ack, win, options, length } = st;
    match (flags, win, length) {
        (Some(f), Some(w), Some(l)) => Ok((f, seq, ack, w, options, l)),
        _ => Err(HeaderError::MissingToken),
    }
}

/// Split a text into whitespace-separated tokens, as `spec_ws_tokens` says.
fn ws_tokens(b: &[u8]) -> (r: Vec<Vec<u8>>)
    ensures
        r@.map_values(|t: Vec<u8>| t@) == spec_ws_tokens(b@),
{
    let n = b.len();
    let mut toks: Vec<Vec<u8>> = Vec::new();
    let mut cur: Vec<u8> = Vec::new();
    let mut k: usize = 0;
    proof {
        assert(b@.skip(0) =~= b@);
        assert(toks@.map_values(|t: Vec<u8>| t@) =~= Seq::<Seq<u8>>::empty());
    }
    while k < n
        invariant
            k <= n,
            n == b@.len(),
            spec_ws_tokens(b@) == toks@.map_values(|t: Vec<u8>| t@) + spec_ws_tokens_acc(
                b@.skip(k as int),
                cur@,
            ),
        decreases n - k,
    {
        proof {
            let t = b@.skip(k as int);
            assert(t[0] == b@[k as int]);
            assert(t.skip(1) =~= b@.skip(k as int + 1));
        }
        let c = b[k];
        if c == 32 || (9 <= c && c <= 13) {
            if cur.len() > 0 {
                let ghost toks0 = toks@;
                let ghost cur0 = cur@;
                toks.push(cur);
                cur = Vec::new();
                proof {
                    assert(toks@.map_values(|t: Vec<u8>| t@) =~= toks0.map_values(
                        |t: Vec<u8>| t@,
                    ) + seq![cur0]);
                    assert((toks0.map_values(|t: Vec<u8>| t@) + seq![cur0]) + spec_ws_tokens_acc(
                        b@.skip(k as int + 1),
                        Seq::empty(),
                    ) =~= toks0.map_values(|t: Vec<u8>| t@) + (seq![cur0] + spec_ws_tokens_acc(
                        b@.skip(k as int + 1),
                        Seq::empty(),
                    )));
                }
            }
        } else {
            cur.push(c);
        }
        k = k + 1;
    }
    proof {
        assert(b@.skip(n as int) =~= Seq::<u8>::empty());
    }
    if cur.len() > 0 {
        let ghost toks0 = toks@;
        let ghost cur0 = cur@;
        toks.push(cur);
        proof {
            assert(toks@.map_values(|t: Vec<u8>| t@) =~= toks0.map_values(|t: Vec<u8>| t@) + seq![
                cur0,
            ]);
        }
    } else {
        proof {
            assert(toks@.map_values(|t: Vec<u8>| t@) + Seq::<Seq<u8>>::empty() =~= toks@.map_values(
                |t: Vec<u8>| t@,
            ));
        }
    }
    toks
}

impl Header {
    /// Decode one capture header line, as `spec_parse_header_line` says.
    #[verifier::rlimit(50)]
    pub fn parse(raw: &str) -> (r: Result<Self, HeaderError>)
        ensures
            (match r {
                Ok(h) => spec_parse_header_line(raw.spec_bytes()) == Ok::<HeaderV, HeaderError>(h@),
                Err(e) => spec_parse_header_line(raw.spec_bytes()) == Err::<HeaderV, HeaderError>(
                    e,
                ),
            }),
            r matches Ok(h) ==> h.time.wf(),
    {
        let bytes = raw.as_bytes();
        let n = bytes.len();
        let sep = match find_sep2(bytes, 58, 32) {
            Some(i) => i,
            None => {
                return Err(HeaderError::SyntaxError);
            },
        };
        let head = slice_subrange(bytes, 0, sep);
        let tail = slice_subrange(bytes, sep + 2, n);
        proof {
            assert(tail@ =~= bytes@.skip(sep as int + 2));
        }
        let toks = ws_tokens(head);
        let ghost tseq = toks@.map_values(|t: Vec<u8>| t@);
        if toks.len() < 2 {
            return Err(HeaderError::SyntaxError);
        }
        proof {
            assert(tseq[0] == toks@[0]@);
            assert(tseq[1] == toks@[1]@);
        }
        if !{
            let t1 = &toks[1];
            t1.len() == 2 && t1[0] == 73 && t1[1] == 80
        } {
            proof {
                assert(!(tseq[1] =~= seq![73u8, 80u8]));
            }
            return Err(HeaderError::InvalidProtocol);
        }
        proof {
            assert(tseq[1] =~= seq![73u8, 80u8]);
        }
        if toks.len() < 4 {
            return Err(HeaderError::SyntaxError);
        }
        proof {
            assert(tseq[2] == toks@[2]@);
            assert(tseq[3] == toks@[3]@);
        }
        if !{
            let t3 = &toks[3];
            t3.len() == 1 && t3[0] == 62
        } {
            proof {
                assert(!(tseq[3] =~= seq![62u8]));
            }
            return Err(HeaderError::UnexpectedToken);
        }
        proof {
            assert(tseq[3] =~= seq![62u8]);
        }
        if toks.len() < 5 {
            return Err(HeaderError::SyntaxError);
        }
        proof {
            assert(tseq[4] == toks@[4]@);
        }
        let t = match parse_time_raw(toks[0].as_slice()) {
            Some(t) => t,
            None => {
                return Err(HeaderError::InvalidTimeFmt);
            },
        };
        let src = match parse_tcpdump_sockaddr(toks[2].as_slice()) {
            Some(s) => s,
            None => {
                return Err(HeaderError::InvalidSocketAddr);
            },
        };
        let dst = match parse_tcpdump_sockaddr(toks[4].as_slice()) {
            Some(s) => s,
            None => {
                return Err(HeaderError::InvalidSocketAddr);
            },
        };
        let (flags, seq, ack, win, options, length) = match parse_tail(tail) {
            Ok(x) => x,
            Err(e) => {
                return Err(e);
            },
        };
        Ok(
            Header {
                time: TimeOfDay { hour: t.0, min: t.1, sec: t.2, nanos: t.3 },
                src,
                dst,
                seq,
                ack,
                win,
                options,
                length,
                flags,
            },
        )
    }
}

} // verus!
