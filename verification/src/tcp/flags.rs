//! Fixed-width bitset over the eight transport control flags.
//!
//! Each flag occupies one bit of an 8-bit set and has a canonical
//! one-character textual form.  Parsing accepts the canonical characters in
//! any order (ignoring the `[` / `]` decoration) and rejects anything else;
//! rendering always emits set bits in the fixed enumeration order.

use vstd::prelude::*;
use vstd::string::StrSliceExecFns;
use vstd::string::StringExecFns;

verus! {

#[allow(non_camel_case_types)]
#[derive(Debug, Clone, Copy, PartialEq, Eq, Structural)]
pub enum FlagError {
    InvalidFlagChar(char),
}

#[allow(non_camel_case_types)]
#[derive(Debug, Clone, Copy, PartialEq, Eq, Structural)]
pub enum Flag {
    FIN,
    SYN,
    RST,
    PSH,
    ACK,
    URG,
    ECE,
    CWR,
}

/// The single bit a flag occupies in the 8-bit set.
pub open spec fn spec_flag_bits(f: Flag) -> u8 {
    match f {
        Flag::FIN => 1,
        Flag::SYN => 2,
        Flag::RST => 4,
        Flag::PSH => 8,
        Flag::ACK => 16,
        Flag::URG => 32,
        Flag::ECE => 64,
        Flag::CWR => 128,
    }
}

/// The canonical character of a flag.
pub open spec fn spec_flag_char(f: Flag) -> char {
    match f {
        Flag::FIN => 'F',
        Flag::SYN => 'S',
        Flag::RST => 'R',
        Flag::PSH => 'P',
        Flag::ACK => '.',
        Flag::URG => 'U',
        Flag::ECE => 'E',
        Flag::CWR => 'C',
    }
}

/// The flag a character denotes, if any.
pub open spec fn spec_char_flag(c: char) -> Option<Flag> {
    if c == 'F' {
        Some(Flag::FIN)
    } else if c == 'S' {
        Some(Flag::SYN)
    } else if c == 'R' {
        Some(Flag::RST)
    } else if c == 'P' {
        Some(Flag::PSH)
    } else if c == '.' {
        Some(Flag::ACK)
    } else if c == 'U' {
        Some(Flag::URG)
    } else if c == 'E' {
        Some(Flag::ECE)
    } else if c == 'C' {
        Some(Flag::CWR)
    } else {
        None
    }
}

/// Parse a flag text from the front, folding each recognized flag's bit into
/// the accumulator; `[` and `]` are ignored; the first other character is the
/// error.
pub open spec fn spec_parse_flags_acc(s: Seq<char>, acc: u8) -> Result<u8, char>
    decreases s.len(),
{
    if s.len() == 0 {
        Ok(acc)
    } else {
        match spec_char_flag(s[0]) {
            Some(f) => spec_parse_flags_acc(s.skip(1), acc | spec_flag_bits(f)),
            None => if s[0] == '[' || s[0] == ']' {
                spec_parse_flags_acc(s.skip(1), acc)
            } else {
                Err(s[0])
            },
        }
    }
}

/// What parsing a whole flag text yields: the union of the denoted bits, or
/// the first character that denotes nothing and is not a bracket.
pub open spec fn spec_parse_flags(s: Seq<char>) -> Result<u8, char> {
    spec_parse_flags_acc(s, 0)
}

/// The canonical character of `f`, if its bit is set in `b`; empty otherwise.
pub open spec fn spec_flag_char_seq(b: u8, f: Flag) -> Seq<char> {
    if b & spec_flag_bits(f) == spec_flag_bits(f) {
        seq![spec_flag_char(f)]
    } else {
        Seq::empty()
    }
}

/// The canonical text of a bitset: one character per set bit, in the fixed
/// enumeration order.
pub open spec fn spec_human_seq(b: u8) -> Seq<char> {
    spec_flag_char_seq(b, Flag::FIN) + spec_flag_char_seq(b, Flag::SYN) + spec_flag_char_seq(
        b,
        Flag::RST,
    ) + spec_flag_char_seq(b, Flag::PSH) + spec_flag_char_seq(b, Flag::ACK) + spec_flag_char_seq(
        b,
        Flag::URG,
    ) + spec_flag_char_seq(b, Flag::ECE) + spec_flag_char_seq(b, Flag::CWR)
}

/// The flag an ASCII byte denotes, if any.
pub open spec fn spec_byte_flag(b: u8) -> Option<Flag> {
    if b == 70 {
        Some(Flag::FIN)
    } else if b == 83 {
        Some(Flag::SYN)
    } else if b == 82 {
        Some(Flag::RST)
    } else if b == 80 {
        Some(Flag::PSH)
    } else if b == 46 {
        Some(Flag::ACK)
    } else if b == 85 {
        Some(Flag::URG)
    } else if b == 69 {
        Some(Flag::ECE)
    } else if b == 67 {
        Some(Flag::CWR)
    } else {
        None
    }
}

/// The byte-level counterpart of `spec_parse_flags_acc`: fold recognized
/// bytes into the accumulator, ignore `[` and `]`, reject the first other
/// byte.
pub open spec fn spec_parse_flag_bytes_acc(s: Seq<u8>, acc: u8) -> Result<u8, u8>
    decreases s.len(),
{
    if s.len() == 0 {
        Ok(acc)
    } else {
        match spec_byte_flag(s[0]) {
            Some(f) => spec_parse_flag_bytes_acc(s.skip(1), acc | spec_flag_bits(f)),
            None => if s[0] == 91 || s[0] == 93 {
                spec_parse_flag_bytes_acc(s.skip(1), acc)
            } else {
                Err(s[0])
            },
        }
    }
}

/// What parsing a flag text given as bytes yields.
pub open spec fn spec_parse_flag_bytes(s: Seq<u8>) -> Result<u8, u8> {
    spec_parse_flag_bytes_acc(s, 0)
}

/// Anything that can stand for a set of flag bits: a single flag or a whole
/// collection.
pub trait FlagMask: Sized {
    spec fn spec_mask_bits(self) -> u8;

    fn as_flag_bits(self) -> (r: u8)
        ensures
            r == self.spec_mask_bits(),
    ;

    fn as_flags(self) -> (r: FlagCollection)
        ensures
            r.spec_bits() == self.spec_mask_bits(),
    ;
}

impl Flag {
    pub fn to_char(&self) -> (r: char)
        ensures
            r == spec_flag_char(*self),
    {
        match self {
            Flag::FIN => 'F',
            Flag::SYN => 'S',
            Flag::RST => 'R',
            Flag::PSH => 'P',
            Flag::ACK => '.',
            Flag::URG => 'U',
            Flag::ECE => 'E',
            Flag::CWR => 'C',
        }
    }

    pub fn from_char(c: char) -> (r: Result<Self, FlagError>)
        ensures
            r == (match spec_char_flag(c) {
                Some(f) => Ok::<Flag, FlagError>(f),
                None => Err::<Flag, FlagError>(FlagError::InvalidFlagChar(c)),
            }),
    {
        match c {
            'F' => Ok(Flag::FIN),
            'S' => Ok(Flag::SYN),
            'R' => Ok(Flag::RST),
            'P' => Ok(Flag::PSH),
            '.' => Ok(Flag::ACK),
            'U' => Ok(Flag::URG),
            'E' => Ok(Flag::ECE),
            'C' => Ok(Flag::CWR),
            _ => Err(FlagError::InvalidFlagChar(c)),
        }
    }
}

impl FlagMask for Flag {
    open spec fn spec_mask_bits(self) -> u8 {
        spec_flag_bits(self)
    }

    fn as_flag_bits(self) -> u8 {
        match self {
            Flag::FIN => 1,
            Flag::SYN => 2,
            Flag::RST => 4,
            Flag::PSH => 8,
            Flag::ACK => 16,
            Flag::URG => 32,
            Flag::ECE => 64,
            Flag::CWR => 128,
        }
    }

    fn as_flags(self) -> FlagCollection {
        FlagCollection::from_bits(self.as_flag_bits())
    }
}

#[derive(Debug, Clone, Copy, PartialEq, Eq, Structural)]
pub struct FlagCollection(u8);

impl FlagCollection {
    /// The raw 8-bit value of the set.
    pub closed spec fn spec_bits(self) -> u8 {
        self.0
    }

    pub fn new() -> (r: Self)
        ensures
            r.spec_bits() == 0,
    {
        FlagCollection(0)
    }

    pub fn from_bits(raw: u8) -> (r: Self)
        ensures
            r.spec_bits() == raw,
    {
        FlagCollection(raw)
    }

    pub fn set<F: FlagMask>(&mut self, flag: F)
        ensures
            final(self).spec_bits() == old(self).spec_bits() | flag.spec_mask_bits(),
    {
        self.0 = self.0 | flag.as_flag_bits();
    }

    pub fn unset<F: FlagMask>(&mut self, flag: F)
        ensures
            final(self).spec_bits() == old(self).spec_bits() & !flag.spec_mask_bits(),
    {
        self.0 = self.0 & !flag.as_flag_bits();
    }

    /// True iff all bits of `flag` are set: tests a single flag or a whole
    /// sub-collection at once.
    pub fn is_set<F: FlagMask>(&self, flag: F) -> (r: bool)
        ensures
            r == (self.spec_bits() & flag.spec_mask_bits() == flag.spec_mask_bits()),
    {
        let flag_bits = flag.as_flag_bits();
        (self.0 & flag_bits) == flag_bits
    }

    pub fn is_empty(&self) -> (r: bool)
        ensures
            r == (self.spec_bits() == 0),
    {
        self.0 == 0
    }

    /// Parse a flag text: union of the denoted bits, `[` / `]` ignored, any
    /// other unknown character rejected as `InvalidFlagChar`.
    pub fn try_parse(s: &str) -> (r: Result<Self, FlagError>)
        ensures
            spec_parse_flags(s@) is Ok ==> r is Ok && r->Ok_0.spec_bits() == spec_parse_flags(
                s@,
            )->Ok_0,
            spec_parse_flags(s@) is Err ==> r == Err::<FlagCollection, FlagError>(
                FlagError::InvalidFlagChar(spec_parse_flags(s@)->Err_0),
            ),
    {
        let n = s.unicode_len();
        let mut flags = Self::new();
        let mut i: usize = 0;
        proof {
            assert(s@.skip(0) =~= s@);
        }
        while i < n
            invariant
                n == s@.len(),
                i <= n,
                spec_parse_flags(s@) == spec_parse_flags_acc(s@.skip(i as int), flags.spec_bits()),
            decreases n - i,
        {
            let c = s.get_char(i);
            proof {
                assert(s@.skip(i as int)[0] == s@[i as int]);
                assert(s@.skip(i as int).skip(1) =~= s@.skip(i as int + 1));
            }
            match Flag::from_char(c) {
                Ok(f) => flags.set(f),
                Err(_) => {
                    if c != '[' && c != ']' {
                        return Err(FlagError::InvalidFlagChar(c));
                    }
                },
            }
            i = i + 1;
        }
        Ok(flags)
    }

    /// Parse a flag text given as raw ASCII bytes, as
    /// `spec_parse_flag_bytes` says: the byte-level twin of `try_parse`.
    pub fn try_parse_bytes(s: &[u8]) -> (r: Result<Self, FlagError>)
        ensures
            spec_parse_flag_bytes(s@) is Ok ==> r is Ok && r->Ok_0.spec_bits()
                == spec_parse_flag_bytes(s@)->Ok_0,
            spec_parse_flag_bytes(s@) is Err ==> r == Err::<FlagCollection, FlagError>(
                FlagError::InvalidFlagChar(spec_parse_flag_bytes(s@)->Err_0 as char),
            ),
    {
        let n = s.len();
        let mut flags = Self::new();
        let mut i: usize = 0;
        proof {
            assert(s@.skip(0) =~= s@);
        }
        while i < n
            invariant
                n == s@.len(),
                i <= n,
                spec_parse_flag_bytes(s@) == spec_parse_flag_bytes_acc(
                    s@.skip(i as int),
                    flags.spec_bits(),
                ),
            decreases n - i,
        {
            let c = s[i];
            proof {
                assert(s@.skip(i as int)[0] == s@[i as int]);
                assert(s@.skip(i as int).skip(1) =~= s@.skip(i as int + 1));
            }
            if c == 70 {
                flags.set(Flag::FIN);
            } else if c == 83 {
                flags.set(Flag::SYN);
            } else if c == 82 {
                flags.set(Flag::RST);
            } else if c == 80 {
                flags.set(Flag::PSH);
            } else if c == 46 {
                flags.set(Flag::ACK);
            } else if c == 85 {
                flags.set(Flag::URG);
            } else if c == 69 {
                flags.set(Flag::ECE);
            } else if c == 67 {
                flags.set(Flag::CWR);
            } else if c != 91 && c != 93 {
                return Err(FlagError::InvalidFlagChar(c as char));
            }
            i = i + 1;
        }
        Ok(flags)
    }

    /// The canonical text: one character per set bit, in enumeration order,
    /// regardless of how the set was built.
    #[verifier::rlimit(50)]
    pub fn human_str(&self) -> (r: String)
        ensures
            r@ == spec_human_seq(self.spec_bits()),
    {
        proof {
            reveal_strlit("F");
            reveal_strlit("S");
            reveal_strlit("R");
            reveal_strlit("P");
            reveal_strlit(".");
            reveal_strlit("U");
            reveal_strlit("E");
            reveal_strlit("C");
        }
        let ghost b = self.spec_bits();
        let mut out = String::new();
        if self.is_set(Flag::FIN) {
            out.append("F");
        }
        proof {
            assert(out@ =~= spec_flag_char_seq(b, Flag::FIN));
        }
        if self.is_set(Flag::SYN) {
            out.append("S");
        }
        proof {
            assert(out@ =~= spec_flag_char_seq(b, Flag::FIN) + spec_flag_char_seq(b, Flag::SYN));
        }
        if self.is_set(Flag::RST) {
            out.append("R");
        }
        proof {
            assert(out@ =~= spec_flag_char_seq(b, Flag::FIN) + spec_flag_char_seq(b, Flag::SYN)
                + spec_flag_char_seq(b, Flag::RST));
        }
        if self.is_set(Flag::PSH) {
            out.append("P");
        }
        proof {
            assert(out@ =~= spec_flag_char_seq(b, Flag::FIN) + spec_flag_char_seq(b, Flag::SYN)
                + spec_flag_char_seq(b, Flag::RST) + spec_flag_char_seq(b, Flag::PSH));
        }
        if self.is_set(Flag::ACK) {
            out.append(".");
        }
        proof {
            assert(out@ =~= spec_flag_char_seq(b, Flag::FIN) + spec_flag_char_seq(b, Flag::SYN)
                + spec_flag_char_seq(b, Flag::RST) + spec_flag_char_seq(b, Flag::PSH)
                + spec_flag_char_seq(b, Flag::ACK));
        }
        if self.is_set(Flag::URG) {
            out.append("U");
        }
        proof {
            assert(out@ =~= spec_flag_char_seq(b, Flag::FIN) + spec_flag_char_seq(b, Flag::SYN)
                + spec_flag_char_seq(b, Flag::RST) + spec_flag_char_seq(b, Flag::PSH)
                + spec_flag_char_seq(b, Flag::ACK) + spec_flag_char_seq(b, Flag::URG));
        }
        if self.is_set(Flag::ECE) {
            out.append("E");
        }
        proof {
            assert(out@ =~= spec_flag_char_seq(b, Flag::FIN) + spec_flag_char_seq(b, Flag::SYN)
                + spec_flag_char_seq(b, Flag::RST) + spec_flag_char_seq(b, Flag::PSH)
                + spec_flag_char_seq(b, Flag::ACK) + spec_flag_char_seq(b, Flag::URG)
                + spec_flag_char_seq(b, Flag::ECE));
        }
        if self.is_set(Flag::CWR) {
            out.append("C");
        }
        proof {
            assert(out@ =~= spec_human_seq(b));
        }
        out
    }

    /// Intersection of two flag sets.
    pub fn bit_and(self, rhs: Self) -> (r: Self)
        ensures
            r.spec_bits() == self.spec_bits() & rhs.spec_bits(),
    {
        FlagCollection(self.0 & rhs.0)
    }

    /// Union of two flag sets.
    pub fn bit_or(self, rhs: Self) -> (r: Self)
        ensures
            r.spec_bits() == self.spec_bits() | rhs.spec_bits(),
    {
        FlagCollection(self.0 | rhs.0)
    }

    /// Symmetric difference of two flag sets.
    pub fn bit_xor(self, rhs: Self) -> (r: Self)
        ensures
            r.spec_bits() == self.spec_bits() ^ rhs.spec_bits(),
    {
        FlagCollection(self.0 ^ rhs.0)
    }

    /// Complement within the 8-bit domain.
    pub fn bit_not(self) -> (r: Self)
        ensures
            r.spec_bits() == !self.spec_bits(),
    {
        FlagCollection(!self.0)
    }
}

impl FlagMask for FlagCollection {
    open spec fn spec_mask_bits(self) -> u8 {
        self.spec_bits()
    }

    fn as_flag_bits(self) -> u8 {
        self.0
    }

    fn as_flags(self) -> FlagCollection {
        self
    }
}

/// Parsing a prefix with a known-good outcome continues through a suffix: the
/// accumulator threads left to right.
proof fn lemma_parse_acc_concat(s1: Seq<char>, s2: Seq<char>, acc: u8)
    requires
        spec_parse_flags_acc(s1, acc) is Ok,
    ensures
        spec_parse_flags_acc(s1 + s2, acc) == spec_parse_flags_acc(
            s2,
            spec_parse_flags_acc(s1, acc)->Ok_0,
        ),
    decreases s1.len(),
{
    if s1.len() == 0 {
        assert(s1 + s2 =~= s2);
    } else {
        assert((s1 + s2)[0] == s1[0]);
        assert((s1 + s2).skip(1) =~= s1.skip(1) + s2);
        match spec_char_flag(s1[0]) {
            Some(f) => {
                lemma_parse_acc_concat(s1.skip(1), s2, acc | spec_flag_bits(f));
            },
            None => {
                lemma_parse_acc_concat(s1.skip(1), s2, acc);
            },
        }
    }
}

/// Parsing the one-flag piece of a canonical text folds exactly that flag's
/// bit of `b` into the accumulator.
proof fn lemma_parse_flag_piece(b: u8, f: Flag, acc: u8)
    ensures
        spec_parse_flags_acc(spec_flag_char_seq(b, f), acc) == Ok::<u8, char>(
            acc | (b & spec_flag_bits(f)),
        ),
{
    match f {
        Flag::FIN => {
            assert(b & 1 == 1 || b & 1 == 0) by (bit_vector);
        },
        Flag::SYN => {
            assert(b & 2 == 2 || b & 2 == 0) by (bit_vector);
        },
        Flag::RST => {
            assert(b & 4 == 4 || b & 4 == 0) by (bit_vector);
        },
        Flag::PSH => {
            assert(b & 8 == 8 || b & 8 == 0) by (bit_vector);
        },
        Flag::ACK => {
            assert(b & 16 == 16 || b & 16 == 0) by (bit_vector);
        },
        Flag::URG => {
            assert(b & 32 == 32 || b & 32 == 0) by (bit_vector);
        },
        Flag::ECE => {
            assert(b & 64 == 64 || b & 64 == 0) by (bit_vector);
        },
        Flag::CWR => {
            assert(b & 128 == 128 || b & 128 == 0) by (bit_vector);
        },
    }
    let m = spec_flag_bits(f);
    let piece = spec_flag_char_seq(b, f);
    if b & m == m {
        let c = spec_flag_char(f);
        assert(spec_char_flag(c) == Some(f));
        assert(piece.skip(1) =~= Seq::<char>::empty());
        assert(spec_parse_flags_acc(piece.skip(1), acc | m) == Ok::<u8, char>(acc | m));
        assert(spec_parse_flags_acc(piece, acc) == Ok::<u8, char>(acc | m));
    } else {
        assert(b & m == 0);
        assert(acc | 0 == acc) by (bit_vector);
        assert(spec_parse_flags_acc(piece, acc) == Ok::<u8, char>(acc));
    }
}

/// Parsing the canonical text of any 8-bit value yields exactly that value
/// back: `to_text` then `parse` is the identity on bitsets, so the textual
/// form round-trips for every flag combination.
#[verifier::rlimit(100)]
pub proof fn lemma_human_round_trip(b: u8)
    ensures
        spec_parse_flags(spec_human_seq(b)) == Ok::<u8, char>(b),
{
    let p1 = spec_flag_char_seq(b, Flag::FIN);
    let p2 = spec_flag_char_seq(b, Flag::SYN);
    let p3 = spec_flag_char_seq(b, Flag::RST);
    let p4 = spec_flag_char_seq(b, Flag::PSH);
    let p5 = spec_flag_char_seq(b, Flag::ACK);
    let p6 = spec_flag_char_seq(b, Flag::URG);
    let p7 = spec_flag_char_seq(b, Flag::ECE);
    let p8 = spec_flag_char_seq(b, Flag::CWR);
    let a0: u8 = 0;
    let a1: u8 = a0 | (b & 1);
    let a2: u8 = a1 | (b & 2);
    let a3: u8 = a2 | (b & 4);
    let a4: u8 = a3 | (b & 8);
    let a5: u8 = a4 | (b & 16);
    let a6: u8 = a5 | (b & 32);
    let a7: u8 = a6 | (b & 64);
    let a8: u8 = a7 | (b & 128);
    lemma_parse_flag_piece(b, Flag::FIN, a0);
    assert(spec_parse_flags_acc(p1, a0) == Ok::<u8, char>(a1));
    let q2 = p1 + p2;
    lemma_parse_acc_concat(p1, p2, a0);
    lemma_parse_flag_piece(b, Flag::SYN, a1);
    assert(spec_parse_flags_acc(q2, a0) == Ok::<u8, char>(a2));
    let q3 = q2 + p3;
    lemma_parse_acc_concat(q2, p3, a0);
    lemma_parse_flag_piece(b, Flag::RST, a2);
    assert(spec_parse_flags_acc(q3, a0) == Ok::<u8, char>(a3));
    let q4 = q3 + p4;
    lemma_parse_acc_concat(q3, p4, a0);
    lemma_parse_flag_piece(b, Flag::PSH, a3);
    assert(spec_parse_flags_acc(q4, a0) == Ok::<u8, char>(a4));
    let q5 = q4 + p5;
    lemma_parse_acc_concat(q4, p5, a0);
    lemma_parse_flag_piece(b, Flag::ACK, a4);
    assert(spec_parse_flags_acc(q5, a0) == Ok::<u8, char>(a5));
    let q6 = q5 + p6;
    lemma_parse_acc_concat(q5, p6, a0);
    lemma_parse_flag_piece(b, Flag::URG, a5);
    assert(spec_parse_flags_acc(q6, a0) == Ok::<u8, char>(a6));
    let q7 = q6 + p7;
    lemma_parse_acc_concat(q6, p7, a0);
    lemma_parse_flag_piece(b, Flag::ECE, a6);
    assert(spec_parse_flags_acc(q7, a0) == Ok::<u8, char>(a7));
    let q8 = q7 + p8;
    lemma_parse_acc_concat(q7, p8, a0);
    lemma_parse_flag_piece(b, Flag::CWR, a7);
    assert(spec_parse_flags_acc(q8, a0) == Ok::<u8, char>(a8));
    assert(spec_human_seq(b) == q8);
    assert(((((((((0u8 | (b & 1)) | (b & 2)) | (b & 4)) | (b & 8)) | (b & 16)) | (b & 32)) | (b
        & 64)) | (b & 128)) == b) by (bit_vector);
}

/// The canonical text round-trips literally: rendering a bitset, parsing
/// that text and rendering again gives the same text, whatever order the
/// bits were set in.
pub proof fn lemma_to_text_round_trip(b: u8)
    ensures
        spec_parse_flags(spec_human_seq(b)) matches Ok(b2) && spec_human_seq(b2)
            == spec_human_seq(b),
{
    lemma_human_round_trip(b);
}

/// One flag's canonical character parses back to exactly that flag's bit, and
/// that bit renders back to exactly that character.
pub proof fn lemma_single_flag_round_trip(f: Flag)
    ensures
        spec_parse_flags(seq![spec_flag_char(f)]) == Ok::<u8, char>(spec_flag_bits(f)),
        spec_human_seq(spec_flag_bits(f)) == seq![spec_flag_char(f)],
{
    let b = spec_flag_bits(f);
    lemma_human_round_trip(b);
    assert(spec_human_seq(b) =~= seq![spec_flag_char(f)]) by {
        match f {
            Flag::FIN => {
                assert(1u8 & 1 == 1 && 1u8 & 2 == 0 && 1u8 & 4 == 0 && 1u8 & 8 == 0 && 1u8 & 16
                    == 0 && 1u8 & 32 == 0 && 1u8 & 64 == 0 && 1u8 & 128 == 0) by (bit_vector);
            },
            Flag::SYN => {
                assert(2u8 & 1 == 0 && 2u8 & 2 == 2 && 2u8 & 4 == 0 && 2u8 & 8 == 0 && 2u8 & 16
                    == 0 && 2u8 & 32 == 0 && 2u8 & 64 == 0 && 2u8 & 128 == 0) by (bit_vector);
            },
            Flag::RST => {
                assert(4u8 & 1 == 0 && 4u8 & 2 == 0 && 4u8 & 4 == 4 && 4u8 & 8 == 0 && 4u8 & 16
                    == 0 && 4u8 & 32 == 0 && 4u8 & 64 == 0 && 4u8 & 128 == 0) by (bit_vector);
            },
            Flag::PSH => {
                assert(8u8 & 1 == 0 && 8u8 & 2 == 0 && 8u8 & 4 == 0 && 8u8 & 8 == 8 && 8u8 & 16
                    == 0 && 8u8 & 32 == 0 && 8u8 & 64 == 0 && 8u8 & 128 == 0) by (bit_vector);
            },
            Flag::ACK => {
                assert(16u8 & 1 == 0 && 16u8 & 2 == 0 && 16u8 & 4 == 0 && 16u8 & 8 == 0 && 16u8
                    & 16 == 16 && 16u8 & 32 == 0 && 16u8 & 64 == 0 && 16u8 & 128 == 0)
                    by (bit_vector);
            },
            Flag::URG => {
                assert(32u8 & 1 == 0 && 32u8 & 2 == 0 && 32u8 & 4 == 0 && 32u8 & 8 == 0 && 32u8
                    & 16 == 0 && 32u8 & 32 == 32 && 32u8 & 64 == 0 && 32u8 & 128 == 0)
                    by (bit_vector);
            },
            Flag::ECE => {
                assert(64u8 & 1 == 0 && 64u8 & 2 == 0 && 64u8 & 4 == 0 && 64u8 & 8 == 0 && 64u8
                    & 16 == 0 && 64u8 & 32 == 0 && 64u8 & 64 == 64 && 64u8 & 128 == 0)
                    by (bit_vector);
            },
            Flag::CWR => {
                assert(128u8 & 1 == 0 && 128u8 & 2 == 0 && 128u8 & 4 == 0 && 128u8 & 8 == 0
                    && 128u8 & 16 == 0 && 128u8 & 32 == 0 && 128u8 & 64 == 0 && 128u8 & 128 == 128)
                    by (bit_vector);
            },
        }
    }
}

} // verus!
