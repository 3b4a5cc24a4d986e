//! Application-header decoding: a session-framing envelope (4-byte
//! big-endian length prefix) around a frame body that begins with a 4-byte
//! magic and, for the modern variant, a fixed-layout little-endian header.

pub mod flags;
pub mod opcodes;

use vstd::prelude::*;
use vstd::bytes::*;
use vstd::slice::slice_subrange;
use vstd::slice::slice_to_vec;
use crate::smb::flags::Flags;
use crate::smb::flags::FLAGS_MASK;
use crate::smb::opcodes::Opcodes;
use crate::smb::opcodes::spec_opcode_of;
use crate::smb::opcodes::spec_opcode_num;

verus! {

#[derive(Debug, Clone, Copy, PartialEq, Eq, Structural)]
pub enum Error {
    ExpectedByte,
    InvalidFlags,
    InvalidMagic,
    InvalidMessageLength,
    InvalidOpcode,
    NonZeroFirstByte,
    UnsupportedVersion,
    ZeroHeaderMsg,
}

/// A session-framed message whose envelope has been checked and stripped.
#[derive(Debug, Clone, PartialEq, Eq)]
pub struct RawSMBMsg(Vec<u8>);

/// The fixed-layout application header: eleven little-endian fields behind a
/// 4-byte magic and a 16-bit header-length field.
#[derive(Debug, Clone, PartialEq, Eq)]
pub struct SMBHeader {
    pub magic: [u8; 4],
    pub hlen: u16,
    pub cred_charge: u16,
    pub nt_status: u32,
    pub opcode: Opcodes,
    pub cred_req_res: u16,
    pub flags: Flags,
    pub chain_offset: u32,
    pub cmd_seq: u64,
    pub pid: u32,
    pub tid: u32,
    pub uid: u64,
    pub signature: u128,
}

/// The mathematical content of a header: the same fields with the magic as a
/// byte sequence and the flags as their raw 32-bit value.
pub ghost struct SMBHeaderV {
    pub magic: Seq<u8>,
    pub hlen: u16,
    pub cred_charge: u16,
    pub nt_status: u32,
    pub opcode: Opcodes,
    pub cred_req_res: u16,
    pub flags: u32,
    pub chain_offset: u32,
    pub cmd_seq: u64,
    pub pid: u32,
    pub tid: u32,
    pub uid: u64,
    pub signature: u128,
}

impl View for SMBHeader {
    type V = SMBHeaderV;

    open spec fn view(&self) -> SMBHeaderV {
        SMBHeaderV {
            magic: self.magic@,
            hlen: self.hlen,
            cred_charge: self.cred_charge,
            nt_status: self.nt_status,
            opcode: self.opcode,
            cred_req_res: self.cred_req_res,
            flags: self.flags.spec_bits(),
            chain_offset: self.chain_offset,
            cmd_seq: self.cmd_seq,
            pid: self.pid,
            tid: self.tid,
            uid: self.uid,
            signature: self.signature,
        }
    }
}

/// A decoded application message: the header and whatever bytes of the frame
/// body follow the fixed header.
#[derive(Debug, Clone, PartialEq, Eq)]
pub struct SMBMsg {
    pub header: SMBHeader,
    pub payload: Vec<u8>,
}

/// Big-endian 32-bit value of 4 bytes.
pub open spec fn spec_u32_from_be_bytes(s: Seq<u8>) -> u32
    recommends
        s.len() == 4,
{
    ((s[0] as u32) << 24) | ((s[1] as u32) << 16) | ((s[2] as u32) << 8) | (s[3] as u32)
}

/// The modern variant's magic.
pub open spec fn spec_is_fe_magic(bytes: Seq<u8>) -> bool {
    bytes.len() >= 4 && bytes[0] == 0xFE && bytes[1] == 0x53 && bytes[2] == 0x4D && bytes[3] == 0x42
}

/// The legacy variant's magic.
pub open spec fn spec_is_ff_magic(bytes: Seq<u8>) -> bool {
    bytes.len() >= 4 && bytes[0] == 0xFF && bytes[1] == 0x53 && bytes[2] == 0x4D && bytes[3] == 0x42
}

/// What stripping the session envelope yields: the frame body after the
/// 4-byte length prefix, whose first byte must be zero, whose value must be
/// non-zero and must equal the exact number of remaining bytes.
pub open spec fn spec_drain_head(raw: Seq<u8>) -> Result<Seq<u8>, Error> {
    if raw.len() < 4 {
        Err(Error::ExpectedByte)
    } else if raw[0] != 0 {
        Err(Error::NonZeroFirstByte)
    } else {
        let len = spec_u32_from_be_bytes(raw.subrange(0, 4));
        if len == 0 {
            Err(Error::ZeroHeaderMsg)
        } else if raw.len() - 4 != len {
            Err(Error::InvalidMessageLength)
        } else {
            Ok(raw.skip(4))
        }
    }
}

/// What decoding a frame body yields.  The body must open with a known
/// magic; the legacy variant is a recognized, unsupported dialect; for the
/// modern variant the declared header length must fit in the body and cover
/// the 58 bytes of fixed fields after the magic and length field, the opcode
/// must be a known operation, and the flags must stay inside the defined
/// bits.
pub open spec fn spec_parse_header(bytes: Seq<u8>) -> Result<SMBHeaderV, Error> {
    if bytes.len() < 4 {
        Err(Error::ExpectedByte)
    } else if spec_is_fe_magic(bytes) {
        if bytes.len() < 6 {
            Err(Error::ExpectedByte)
        } else {
            let hlen = spec_u16_from_le_bytes(bytes.subrange(4, 6));
            if bytes.len() < hlen {
                Err(Error::InvalidMessageLength)
            } else if hlen < 64 {
                Err(Error::ExpectedByte)
            } else {
                let opcode_v = spec_u16_from_le_bytes(bytes.subrange(12, 14));
                let flags_v = spec_u32_from_le_bytes(bytes.subrange(16, 20));
                if spec_opcode_of(opcode_v) is None {
                    Err(Error::InvalidOpcode)
                } else if flags_v & !FLAGS_MASK != 0 {
                    Err(Error::InvalidFlags)
                } else {
                    Ok(
                        SMBHeaderV {
                            magic: seq![0xFEu8, 0x53u8, 0x4Du8, 0x42u8],
                            hlen,
                            cred_charge: spec_u16_from_le_bytes(bytes.subrange(6, 8)),
                            nt_status: spec_u32_from_le_bytes(bytes.subrange(8, 12)),
                            opcode: spec_opcode_of(opcode_v)->Some_0,
                            cred_req_res: spec_u16_from_le_bytes(bytes.subrange(14, 16)),
                            flags: flags_v,
                            chain_offset: spec_u32_from_le_bytes(bytes.subrange(20, 24)),
                            cmd_seq: spec_u64_from_le_bytes(bytes.subrange(24, 32)),
                            pid: spec_u32_from_le_bytes(bytes.subrange(32, 36)),
                            tid: spec_u32_from_le_bytes(bytes.subrange(36, 40)),
                            uid: spec_u64_from_le_bytes(bytes.subrange(40, 48)),
                            signature: spec_u128_from_le_bytes(bytes.subrange(48, 64)),
                        },
                    )
                }
            }
        }
    } else if spec_is_ff_magic(bytes) {
        Err(Error::UnsupportedVersion)
    } else {
        Err(Error::InvalidMagic)
    }
}

/// The byte layout a header's fields stand for: magic, then every field in
/// order, each little-endian.
pub open spec fn spec_encode_header(h: SMBHeaderV) -> Seq<u8> {
    h.magic + spec_u16_to_le_bytes(h.hlen) + spec_u16_to_le_bytes(h.cred_charge)
        + spec_u32_to_le_bytes(h.nt_status) + spec_u16_to_le_bytes(spec_opcode_num(h.opcode))
        + spec_u16_to_le_bytes(h.cred_req_res) + spec_u32_to_le_bytes(h.flags)
        + spec_u32_to_le_bytes(h.chain_offset) + spec_u64_to_le_bytes(h.cmd_seq)
        + spec_u32_to_le_bytes(h.pid) + spec_u32_to_le_bytes(h.tid) + spec_u64_to_le_bytes(h.uid)
        + spec_u128_to_le_bytes(h.signature)
}

/// What decoding a whole session-framed message yields: the header parsed
/// from the frame body, and the body bytes past the 64-byte fixed header as
/// the payload.
pub open spec fn spec_parse_msg(raw: Seq<u8>) -> Result<(SMBHeaderV, Seq<u8>), Error> {
    match spec_drain_head(raw) {
        Err(e) => Err(e),
        Ok(body) => match spec_parse_header(body) {
            Err(e) => Err(e),
            Ok(hv) => Ok((hv, body.skip(64))),
        },
    }
}

/// A header result seen through the header's mathematical view.
pub open spec fn spec_header_result(r: Result<SMBHeader, Error>) -> Result<SMBHeaderV, Error> {
    match r {
        Ok(h) => Ok(h@),
        Err(e) => Err(e),
    }
}

/// Copy `len` elements starting at `start` out of a slice, refusing a range
/// that runs past the end.
pub fn take_slice<T: Copy>(v: &[T], start: usize, len: usize) -> (r: Option<Vec<T>>)
    ensures
        r is Some <==> start + len <= v@.len(),
        r matches Some(w) ==> w@ == v@.subrange(start as int, start as int + len as int),
{
    if len <= v.len() && start <= v.len() - len {
        Some(slice_to_vec(slice_subrange(v, start, start + len)))
    } else {
        None
    }
}

/// Strip the 4-byte session length prefix off the front of `raw`, checking
/// it as `spec_drain_head` says.  The 4 bytes are consumed whenever they are
/// present, also on a failed check.
pub fn drain_packet_head(raw: &mut Vec<u8>) -> (r: Result<(), Error>)
    ensures
        (match spec_drain_head(old(raw)@) {
            Ok(body) => r is Ok && final(raw)@ == body,
            Err(e) => r == Err::<(), Error>(e) && (if old(raw)@.len() >= 4 {
                final(raw)@ == old(raw)@.skip(4)
            } else {
                final(raw)@ == old(raw)@
            }),
        }),
{
    if raw.len() < 4 {
        return Err(Error::ExpectedByte);
    }
    let b0 = raw[0];
    let b1 = raw[1];
    let b2 = raw[2];
    let b3 = raw[3];
    let rest = raw.split_off(4);
    *raw = rest;
    proof {
        assert(old(raw)@.subrange(0, 4)[0] == b0);
        assert(old(raw)@.subrange(0, 4)[1] == b1);
        assert(old(raw)@.subrange(0, 4)[2] == b2);
        assert(old(raw)@.subrange(0, 4)[3] == b3);
    }
    if b0 != 0 {
        return Err(Error::NonZeroFirstByte);
    }
    let len = ((b0 as u32) << 24) | ((b1 as u32) << 16) | ((b2 as u32) << 8) | (b3 as u32);
    if len == 0 {
        return Err(Error::ZeroHeaderMsg);
    }
    if raw.len() != len as usize {
        return Err(Error::InvalidMessageLength);
    }
    Ok(())
}

impl RawSMBMsg {
    /// The framed bytes behind the envelope.
    pub closed spec fn spec_bytes(self) -> Seq<u8> {
        self.0@
    }

    pub fn new(from: Vec<u8>) -> (r: Self)
        ensures
            r.spec_bytes() == from@,
    {
        RawSMBMsg(from)
    }

    /// The framed bytes, for inspection.
    pub fn bytes(&self) -> (r: &Vec<u8>)
        ensures
            r@ == self.spec_bytes(),
    {
        &self.0
    }

    /// Check a session envelope as `spec_drain_head` says and keep the
    /// body: the leading byte must be zero, and the big-endian length must
    /// be non-zero and equal the byte count that follows the prefix.
    pub fn parse_from_raw(raw: Vec<u8>) -> (r: Result<Self, Error>)
        ensures
            (match spec_drain_head(raw@) {
                Ok(body) => r matches Ok(m) && m.spec_bytes() == body,
                Err(e) => r == Err::<RawSMBMsg, Error>(e),
            }),
    {
        let mut raw = raw;
        if raw.len() < 4 {
            return Err(Error::ExpectedByte);
        }
        let b0 = raw[0];
        let b1 = raw[1];
        let b2 = raw[2];
        let b3 = raw[3];
        proof {
            assert(raw@.subrange(0, 4)[0] == b0);
            assert(raw@.subrange(0, 4)[1] == b1);
            assert(raw@.subrange(0, 4)[2] == b2);
            assert(raw@.subrange(0, 4)[3] == b3);
        }
        if b0 != 0 {
            return Err(Error::NonZeroFirstByte);
        }
        let expected_len = ((b0 as u32) << 24) | ((b1 as u32) << 16) | ((b2 as u32) << 8) | (
        b3 as u32);
        if expected_len == 0 {
            return Err(Error::ZeroHeaderMsg);
        }
        let rest = raw.split_off(4);
        raw = rest;
        if raw.len() != expected_len as usize {
            return Err(Error::InvalidMessageLength);
        }
        Ok(RawSMBMsg(raw))
    }
}

impl SMBHeader {
    /// Decode the fixed header at the front of a frame body, as
    /// `spec_parse_header` says.
    pub fn parse_from_raw(raw: &[u8]) -> (r: Result<Self, Error>)
        ensures
            spec_header_result(r) == spec_parse_header(raw@),
    {
        if raw.len() < 4 {
            return Err(Error::ExpectedByte);
        }
        let m0 = raw[0];
        let m1 = raw[1];
        let m2 = raw[2];
        let m3 = raw[3];
        if m0 == 0xFE && m1 == 0x53 && m2 == 0x4D && m3 == 0x42 {
            Self::parse_fe_smb(raw)
        } else if m0 == 0xFF && m1 == 0x53 && m2 == 0x4D && m3 == 0x42 {
            Self::parse_ff_smb(raw)
        } else {
            Err(Error::InvalidMagic)
        }
    }

    fn parse_fe_smb(raw: &[u8]) -> (r: Result<Self, Error>)
        requires
            spec_is_fe_magic(raw@),
        ensures
            spec_header_result(r) == spec_parse_header(raw@),
    {
        if raw.len() < 6 {
            return Err(Error::ExpectedByte);
        }
        let hlen = u16_from_le_bytes(slice_subrange(raw, 4, 6));
        if raw.len() < hlen as usize {
            return Err(Error::InvalidMessageLength);
        }
        if hlen < 64 {
            return Err(Error::ExpectedByte);
        }
        let cred_charge = u16_from_le_bytes(slice_subrange(raw, 6, 8));
        let nt_status = u32_from_le_bytes(slice_subrange(raw, 8, 12));
        let opcode_v = u16_from_le_bytes(slice_subrange(raw, 12, 14));
        let cred_req_res = u16_from_le_bytes(slice_subrange(raw, 14, 16));
        let flags_v = u32_from_le_bytes(slice_subrange(raw, 16, 20));
        let chain_offset = u32_from_le_bytes(slice_subrange(raw, 20, 24));
        let cmd_seq = u64_from_le_bytes(slice_subrange(raw, 24, 32));
        let pid = u32_from_le_bytes(slice_subrange(raw, 32, 36));
        let tid = u32_from_le_bytes(slice_subrange(raw, 36, 40));
        let uid = u64_from_le_bytes(slice_subrange(raw, 40, 48));
        let signature = u128_from_le_bytes(slice_subrange(raw, 48, 64));
        let opcode = match Opcodes::try_from(opcode_v) {
            Ok(op) => op,
            Err(_) => {
                return Err(Error::InvalidOpcode);
            },
        };
        let flags = match Flags::from_bits(flags_v) {
            Some(f) => f,
            None => {
                return Err(Error::InvalidFlags);
            },
        };
        let magic: [u8; 4] = [0xFE, 0x53, 0x4D, 0x42];
        let h = SMBHeader {
            magic,
            hlen,
            cred_charge,
            nt_status,
            opcode,
            cred_req_res,
            flags,
            chain_offset,
            cmd_seq,
            pid,
            tid,
            uid,
            signature,
        };
        proof {
            assert(magic@ =~= seq![0xFEu8, 0x53u8, 0x4Du8, 0x42u8]);
        }
        Ok(h)
    }

    fn parse_ff_smb(raw: &[u8]) -> (r: Result<Self, Error>)
        requires
            spec_is_ff_magic(raw@),
        ensures
            spec_header_result(r) == spec_parse_header(raw@),
    {
        Err(Error::UnsupportedVersion)
    }

    /// Re-encode the fixed fields into their 64-byte layout, as
    /// `spec_encode_header` says.
    pub fn encode(&self) -> (r: Vec<u8>)
        ensures
            r@ == spec_encode_header(self@),
    {
        let mut out: Vec<u8> = Vec::new();
        out.push(self.magic[0]);
        out.push(self.magic[1]);
        out.push(self.magic[2]);
        out.push(self.magic[3]);
        proof {
            assert(out@ =~= self.magic@);
        }
        let mut piece = u16_to_le_bytes(self.hlen);
        out.append(&mut piece);
        let mut piece = u16_to_le_bytes(self.cred_charge);
        out.append(&mut piece);
        let mut piece = u32_to_le_bytes(self.nt_status);
        out.append(&mut piece);
        let mut piece = u16_to_le_bytes(self.opcode.as_u16());
        out.append(&mut piece);
        let mut piece = u16_to_le_bytes(self.cred_req_res);
        out.append(&mut piece);
        let mut piece = u32_to_le_bytes(self.flags.bits());
        out.append(&mut piece);
        let mut piece = u32_to_le_bytes(self.chain_offset);
        out.append(&mut piece);
        let mut piece = u64_to_le_bytes(self.cmd_seq);
        out.append(&mut piece);
        let mut piece = u32_to_le_bytes(self.pid);
        out.append(&mut piece);
        let mut piece = u32_to_le_bytes(self.tid);
        out.append(&mut piece);
        let mut piece = u64_to_le_bytes(self.uid);
        out.append(&mut piece);
        let mut piece = u128_to_le_bytes(self.signature);
        out.append(&mut piece);
        out
    }
}

impl SMBMsg {
    /// Decode a whole session-framed message, as `spec_parse_msg` says: strip
    /// and check the envelope, decode the fixed header, and keep the body
    /// bytes past the 64-byte fixed header as the payload.
    pub fn parse_from_raw(raw: Vec<u8>) -> (r: Result<Self, Error>)
        ensures
            (match spec_parse_msg(raw@) {
                Ok(hp) => r matches Ok(m) && m.header@ == hp.0 && m.payload@ == hp.1,
                Err(e) => r == Err::<SMBMsg, Error>(e),
            }),
    {
        let mut body = raw;
        match drain_packet_head(&mut body) {
            Ok(_) => (),
            Err(e) => {
                return Err(e);
            },
        }
        let header = match SMBHeader::parse_from_raw(body.as_slice()) {
            Ok(h) => h,
            Err(e) => {
                return Err(e);
            },
        };
        proof {
            assert(body@.len() >= 64);
        }
        let n = body.len();
        let payload = match take_slice(body.as_slice(), 64, n - 64) {
            Some(p) => p,
            None => {
                return Err(Error::ExpectedByte);
            },
        };
        proof {
            assert(payload@ =~= body@.skip(64));
        }
        Ok(SMBMsg { header, payload })
    }
}

/// Decoding then re-encoding is the identity on any complete 64-byte fixed
/// header: the eleven fixed fields, the magic and the length field come back
/// byte-identical.
pub proof fn lemma_header_round_trip(bytes: Seq<u8>)
    requires
        bytes.len() == 64,
        spec_parse_header(bytes) is Ok,
    ensures
        spec_encode_header(spec_parse_header(bytes)->Ok_0) == bytes,
{
    lemma_auto_spec_u16_to_from_le_bytes();
    lemma_auto_spec_u32_to_from_le_bytes();
    lemma_auto_spec_u64_to_from_le_bytes();
    lemma_auto_spec_u128_to_from_le_bytes();
    let h = spec_parse_header(bytes)->Ok_0;
    let opcode_v = spec_u16_from_le_bytes(bytes.subrange(12, 14));
    crate::smb::opcodes::lemma_opcode_of_num(opcode_v);
    assert(h.magic =~= bytes.subrange(0, 4));
    assert(spec_encode_header(h) =~= bytes);
}

} // verus!
