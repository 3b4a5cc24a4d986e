//! The byte-block decoder: indented hex-dump lines become a flat byte
//! buffer, and the buffer is split into network header, transport header and
//! application payload at offsets its own first bytes declare.

use vstd::prelude::*;
use vstd::string::StringSliceAdditionalSpecFns;
use vstd::slice::slice_subrange;
use vstd::slice::slice_to_vec;
use super::DataError;

verus! {

/// One captured frame's bytes, split at the embedded length fields: the
/// network-layer header, the transport-layer header, and what remains as
/// application payload.
#[derive(Debug, Clone, PartialEq, Eq)]
pub struct Data {
    pub ip_header: Vec<u8>,
    pub tcp_header: Vec<u8>,
    pub data: Vec<u8>,
}

/// Whether a byte is an ASCII hexadecimal digit.
pub open spec fn spec_is_hex_digit(b: u8) -> bool {
    (48 <= b && b <= 57) || (97 <= b && b <= 102) || (65 <= b && b <= 70)
}

/// The value of an ASCII hexadecimal digit.
pub open spec fn spec_hex_val(b: u8) -> u8
    recommends
        spec_is_hex_digit(b),
{
    if 48 <= b && b <= 57 {
        (b - 48) as u8
    } else if 97 <= b && b <= 102 {
        (b - 87) as u8
    } else {
        (b - 55) as u8
    }
}

/// The byte values a hex group denotes: one byte for 2 digits, two bytes for
/// 4 digits, nothing for any other shape.
pub open spec fn spec_group_bytes(g: Seq<u8>) -> Option<Seq<u8>> {
    if g.len() == 2 && spec_is_hex_digit(g[0]) && spec_is_hex_digit(g[1]) {
        Some(seq![(16 * spec_hex_val(g[0]) + spec_hex_val(g[1])) as u8])
    } else if g.len() == 4 && spec_is_hex_digit(g[0]) && spec_is_hex_digit(g[1])
        && spec_is_hex_digit(g[2]) && spec_is_hex_digit(g[3]) {
        Some(
            seq![
                (16 * spec_hex_val(g[0]) + spec_hex_val(g[1])) as u8,
                (16 * spec_hex_val(g[2]) + spec_hex_val(g[3])) as u8,
            ],
        )
    } else {
        None
    }
}

/// Split on single spaces, accumulating the group under construction.
pub open spec fn spec_split_space_acc(t: Seq<u8>, cur: Seq<u8>) -> Seq<Seq<u8>>
    decreases t.len(),
{
    if t.len() == 0 {
        seq![cur]
    } else if t[0] == 32 {
        seq![cur] + spec_split_space_acc(t.skip(1), Seq::empty())
    } else {
        spec_split_space_acc(t.skip(1), cur.push(t[0]))
    }
}

/// The bytes all groups denote, concatenated; nothing if any group is
/// malformed.
pub open spec fn spec_groups_bytes(gs: Seq<Seq<u8>>) -> Option<Seq<u8>>
    decreases gs.len(),
{
    if gs.len() == 0 {
        Some(Seq::empty())
    } else {
        match spec_group_bytes(gs[0]) {
            None => None,
            Some(bs) => match spec_groups_bytes(gs.skip(1)) {
                None => None,
                Some(rest) => Some(bs + rest),
            },
        }
    }
}

/// What follows the first double-space, if the line has one.
pub open spec fn spec_after_first_dsep(b: Seq<u8>) -> Option<Seq<u8>>
    decreases b.len(),
{
    if b.len() < 2 {
        None
    } else if b[0] == 32 && b[1] == 32 {
        Some(b.skip(2))
    } else {
        spec_after_first_dsep(b.skip(1))
    }
}

/// The prefix up to the next double-space (or all of it).
pub open spec fn spec_until_dsep(b: Seq<u8>) -> Seq<u8>
    decreases b.len(),
{
    if b.len() < 2 {
        b
    } else if b[0] == 32 && b[1] == 32 {
        Seq::empty()
    } else {
        seq![b[0]] + spec_until_dsep(b.skip(1))
    }
}

/// What one hex-dump line contributes: the token between the first
/// double-space and the next one (or the end), read as space-separated hex
/// groups.  A line without a double-space is malformed; so is any group that
/// is not 2 or 4 hex digits.
pub open spec fn spec_parse_data_line(b: Seq<u8>) -> Result<Seq<u8>, DataError> {
    match spec_after_first_dsep(b) {
        None => Err(DataError::UnexpectedToken),
        Some(rest) => {
            match spec_groups_bytes(spec_split_space_acc(spec_until_dsep(rest), Seq::empty())) {
                None => Err(DataError::InvalidByteRepr),
                Some(bytes) => Ok(bytes),
            }
        },
    }
}

/// How a flat frame buffer splits: byte 0's high nibble must be 4; its low
/// nibble times 4 is the network-header length; byte 12 of the remainder's
/// high nibble times 4 is the transport-header length; the rest is payload.
/// Any split past the end of the buffer is refused.
pub open spec fn spec_parse_data_parts(d: Seq<u8>) -> Result<
    (Seq<u8>, Seq<u8>, Seq<u8>),
    DataError,
> {
    if d.len() == 0 {
        Err(DataError::ExpectedByte)
    } else if d[0] >> 4 != 4 {
        Err(DataError::UnsupportedIPVersion)
    } else {
        let ihl = ((d[0] & 15) as int) * 4;
        if d.len() < ihl {
            Err(DataError::ExpectedByte)
        } else {
            let rest = d.skip(ihl);
            if rest.len() <= 12 {
                Err(DataError::ExpectedByte)
            } else {
                let tlen = ((rest[12] >> 4) as int) * 4;
                if rest.len() < tlen {
                    Err(DataError::ExpectedByte)
                } else {
                    Ok((d.take(ihl), rest.take(tlen), rest.skip(tlen)))
                }
            }
        }
    }
}

/// The value of an ASCII hexadecimal digit, or nothing.
fn hex_val(b: u8) -> (r: Option<u8>)
    ensures
        r is Some <==> spec_is_hex_digit(b),
        r matches Some(v) ==> v == spec_hex_val(b),
{
    if 48 <= b && b <= 57 {
        Some(b - 48)
    } else if 97 <= b && b <= 102 {
        Some(b - 87)
    } else if 65 <= b && b <= 70 {
        Some(b - 55)
    } else {
        None
    }
}

/// Append the bytes a finished hex group denotes, or report it malformed and
/// leave the output alone.
fn push_group(out: &mut Vec<u8>, g: &Vec<u8>) -> (r: bool)
    ensures
        (match spec_group_bytes(g@) {
            Some(bs) => r && final(out)@ == old(out)@ + bs,
            None => !r && final(out)@ == old(out)@,
        }),
{
    if g.len() == 2 {
        let (Some(v0), Some(v1)) = (hex_val(g[0]), hex_val(g[1])) else { return false };
        out.push(16 * v0 + v1);
        proof {
            assert(out@ =~= old(out)@ + spec_group_bytes(g@)->Some_0);
        }
        true
    } else if g.len() == 4 {
        let (Some(v0), Some(v1)) = (hex_val(g[0]), hex_val(g[1])) else { return false };
        let (Some(v2), Some(v3)) = (hex_val(g[2]), hex_val(g[3])) else { return false };
        out.push(16 * v0 + v1);
        out.push(16 * v2 + v3);
        proof {
            assert(out@ =~= old(out)@ + spec_group_bytes(g@)->Some_0);
        }
        true
    } else {
        false
    }
}

/// Decode one indented hex-dump line into the bytes it carries, as
/// `spec_parse_data_line` says.
#[verifier::rlimit(50)]
pub fn parse_data_line(line: &str) -> (r: Result<Vec<u8>, DataError>)
    ensures
        (match r {
            Ok(v) => spec_parse_data_line(line.spec_bytes()) == Ok::<Seq<u8>, DataError>(v@),
            Err(e) => spec_parse_data_line(line.spec_bytes()) == Err::<Seq<u8>, DataError>(e),
        }),
{
    let bytes = line.as_bytes();
    let ghost b = bytes@;
    let n = bytes.len();
    // find the first double-space
    let mut i: usize = 0;
    proof {
        assert(b.skip(0) =~= b);
    }
    while i < n && i + 1 < n && !(bytes[i] == 32 && bytes[i + 1] == 32)
        invariant
            n == b.len(),
            i <= n,
            bytes@ == b,
            spec_after_first_dsep(b) == spec_after_first_dsep(b.skip(i as int)),
        decreases n - i,
    {
        proof {
            assert(b.skip(i as int)[0] == b[i as int]);
            assert(b.skip(i as int).len() >= 2);
            assert(b.skip(i as int)[1] == b[i as int + 1]);
            assert(b.skip(i as int).skip(1) =~= b.skip(i as int + 1));
        }
        i = i + 1;
    }
    let sep_found = i < n && i + 1 < n;
    if !sep_found {
        proof {
            assert(b.skip(i as int).len() < 2);
        }
        return Err(DataError::UnexpectedToken);
    }
    proof {
        assert(b.skip(i as int)[0] == b[i as int]);
        assert(b.skip(i as int)[1] == b[i as int + 1]);
        assert(b.skip(i as int).skip(2) =~= b.skip(i as int + 2));
    }
    let start = i + 2;
    let ghost rest = b.skip(start as int);
    // find the end of the token: the next double-space, or the end of line
    let mut j: usize = start;
    proof {
        assert(rest =~= b.subrange(start as int, n as int));
        assert(spec_until_dsep(rest) =~= b.subrange(start as int, start as int) + spec_until_dsep(
            b.skip(start as int),
        ));
    }
    while j < n && j + 1 < n && !(bytes[j] == 32 && bytes[j + 1] == 32)
        invariant
            n == b.len(),
            start <= j <= n,
            bytes@ == b,
            spec_until_dsep(rest) == b.subrange(start as int, j as int) + spec_until_dsep(
                b.skip(j as int),
            ),
        decreases n - j,
    {
        proof {
            assert(b.skip(j as int)[0] == b[j as int]);
            assert(b.skip(j as int).len() >= 2);
            assert(b.skip(j as int)[1] == b[j as int + 1]);
            assert(b.skip(j as int).skip(1) =~= b.skip(j as int + 1));
            assert(seq![b[j as int]] + spec_until_dsep(b.skip(j as int + 1)) == spec_until_dsep(
                b.skip(j as int),
            ));
            assert(b.subrange(start as int, j as int + 1) =~= b.subrange(start as int, j as int)
                + seq![b[j as int]]);
        }
        j = j + 1;
    }
    let tok_end = if j < n && j + 1 < n {
        proof {
            assert(b.skip(j as int)[0] == b[j as int]);
            assert(b.skip(j as int)[1] == b[j as int + 1]);
            assert(spec_until_dsep(b.skip(j as int)) =~= Seq::<u8>::empty());
        }
        j
    } else {
        proof {
            assert(b.skip(j as int).len() < 2);
            assert(b.skip(j as int) =~= b.subrange(j as int, n as int));
        }
        n
    };
    let ghost token = spec_until_dsep(rest);
    proof {
        assert(token =~= b.subrange(start as int, tok_end as int));
    }
    // read the token as space-separated hex groups
    let mut out: Vec<u8> = Vec::new();
    let mut cur: Vec<u8> = Vec::new();
    let mut k = start;
    proof {
        assert(token.skip(0) =~= token);
        assert(spec_after_first_dsep(b) == Some(rest));
    }
    while k < tok_end
        invariant
            start <= k <= tok_end <= n,
            n == b.len(),
            bytes@ == b,
            b == line.spec_bytes(),
            rest == b.skip(start as int),
            spec_after_first_dsep(b) == Some(rest),
            token == spec_until_dsep(rest),
            token == b.subrange(start as int, tok_end as int),
            token.skip((k - start) as int) =~= b.subrange(k as int, tok_end as int),
            (match spec_groups_bytes(spec_split_space_acc(token, Seq::empty())) {
                Some(all) => spec_groups_bytes(
                    spec_split_space_acc(token.skip((k - start) as int), cur@),
                ) matches Some(remaining) && all == out@ + remaining,
                None => spec_groups_bytes(
                    spec_split_space_acc(token.skip((k - start) as int), cur@),
                ) is None,
            }),
        decreases tok_end - k,
    {
        let ghost t = token.skip((k - start) as int);
        proof {
            assert(t[0] == b[k as int]);
            assert(t.skip(1) =~= token.skip((k - start) as int + 1));
        }
        let c = bytes[k];
        if c == 32 {
            let ghost cur0 = cur@;
            let ghost out0 = out@;
            let ghost gs = spec_split_space_acc(t.skip(1), Seq::empty());
            proof {
                assert(spec_split_space_acc(t, cur0) == seq![cur0] + gs);
                assert((seq![cur0] + gs)[0] == cur0);
                assert((seq![cur0] + gs).skip(1) =~= gs);
            }
            if !push_group(&mut out, &cur) {
                return Err(DataError::InvalidByteRepr);
            }
            cur = Vec::new();
            proof {
                match spec_group_bytes(cur0) {
                    Some(bs) => match spec_groups_bytes(gs) {
                        Some(rest2) => {
                            assert((out0 + bs) + rest2 =~= out0 + (bs + rest2));
                        },
                        None => {},
                    },
                    None => {},
                }
            }
        } else {
            cur.push(c);
        }
        k = k + 1;
    }
    let ghost cur0 = cur@;
    let ghost out0 = out@;
    proof {
        let t = token.skip((k - start) as int);
        assert(t =~= Seq::<u8>::empty());
        assert(spec_split_space_acc(t, cur0) == seq![cur0]);
        assert(seq![cur0].skip(1) =~= Seq::<Seq<u8>>::empty());
    }
    if !push_group(&mut out, &cur) {
        return Err(DataError::InvalidByteRepr);
    }
    proof {
        let bs = spec_group_bytes(cur0)->Some_0;
        assert(spec_groups_bytes(seq![cur0].skip(1)) == Some(Seq::<u8>::empty()));
        assert(bs + Seq::<u8>::empty() =~= bs);
        assert(spec_groups_bytes(spec_split_space_acc(token, Seq::empty()))
            matches Some(all) && all == out@);
    }
    Ok(out)
}

impl Data {
    /// Split one frame's flat byte buffer at its embedded length fields, as
    /// `spec_parse_data_parts` says.
    pub fn parse_data_parts(data: Vec<u8>) -> (r: Result<Self, DataError>)
        ensures
            (match r {
                Ok(d) => spec_parse_data_parts(data@) == Ok::<(Seq<u8>, Seq<u8>, Seq<u8>),
                    DataError,
                >((d.ip_header@, d.tcp_header@, d.data@)),
                Err(e) => spec_parse_data_parts(data@) == Err::<(Seq<u8>, Seq<u8>, Seq<u8>),
                    DataError,
                >(e),
            }),
    {
        if data.len() == 0 {
            return Err(DataError::ExpectedByte);
        }
        let ipv_and_ihl = data[0];
        if ipv_and_ihl >> 4 != 4 {
            return Err(DataError::UnsupportedIPVersion);
        }
        let ihl: usize = ((ipv_and_ihl & 15) as usize) * 4;
        if data.len() < ihl {
            return Err(DataError::ExpectedByte);
        }
        let ip_header = slice_to_vec(slice_subrange(data.as_slice(), 0, ihl));
        let rest = slice_subrange(data.as_slice(), ihl, data.len());
        proof {
            assert(rest@ =~= data@.skip(ihl as int));
            assert(ip_header@ =~= data@.take(ihl as int));
        }
        if rest.len() <= 12 {
            return Err(DataError::ExpectedByte);
        }
        let tlen: usize = ((rest[12] >> 4) as usize) * 4;
        if rest.len() < tlen {
            return Err(DataError::ExpectedByte);
        }
        let tcp_header = slice_to_vec(slice_subrange(rest, 0, tlen));
        let payload = slice_to_vec(slice_subrange(rest, tlen, rest.len()));
        proof {
            assert(tcp_header@ =~= data@.skip(ihl as int).take(tlen as int));
            assert(payload@ =~= data@.skip(ihl as int).skip(tlen as int));
        }
        Ok(Data { ip_header, tcp_header, data: payload })
    }
}

/// The standard split: a 20-byte IPv4 header (IHL of 5) and a 20-byte
/// transport header (data offset of 5) ahead of any number of payload bytes
/// always split 20 / 20 / the rest.
pub proof fn lemma_standard_split(d: Seq<u8>)
    requires
        d.len() >= 40,
        d[0] == 0x45,
        d[32] >> 4 == 5,
    ensures
        spec_parse_data_parts(d) matches Ok(parts) && parts.0.len() == 20 && parts.1.len() == 20
            && parts.2 == d.skip(40),
{
    assert(0x45u8 >> 4 == 4 && 0x45u8 & 15 == 5) by (bit_vector);
    let rest = d.skip(20);
    assert(rest[12] == d[32]);
    assert(rest.len() == d.len() - 20);
    assert(((rest[12] >> 4) as int) * 4 == 20);
    assert(rest.skip(20) =~= d.skip(40));
}

} // verus!
