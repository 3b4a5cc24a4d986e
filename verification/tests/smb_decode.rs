use smb_dissect::smb::drain_packet_head;
use smb_dissect::smb::take_slice;
use smb_dissect::smb::Error;
use smb_dissect::smb::RawSMBMsg;
use smb_dissect::smb::SMBHeader;
use smb_dissect::smb::SMBMsg;
use smb_dissect::smb::opcodes::Opcodes;

/// A complete, well-formed 64-byte fixed header (frame body, no envelope).
fn sample_body() -> Vec<u8> {
    let mut body = vec![0xFE, 0x53, 0x4D, 0x42]; // magic
    body.extend_from_slice(&[64, 0]); // hlen = 64
    body.extend_from_slice(&[1, 0]); // cred_charge = 1
    body.extend_from_slice(&[0x44, 0x33, 0x22, 0x11]); // nt_status
    body.extend_from_slice(&[5, 0]); // opcode = Create
    body.extend_from_slice(&[1, 0]); // cred_req_res = 1
    body.extend_from_slice(&[0x09, 0, 0, 0]); // flags: response | signed
    body.extend_from_slice(&[0, 0, 0, 0]); // chain_offset
    body.extend_from_slice(&[7, 0, 0, 0, 0, 0, 0, 0]); // cmd_seq = 7
    body.extend_from_slice(&[2, 0, 0, 0]); // pid
    body.extend_from_slice(&[3, 0, 0, 0]); // tid
    body.extend_from_slice(&[4, 0, 0, 0, 0, 0, 0, 0]); // uid
    body.extend_from_slice(&[0; 16]); // signature
    assert_eq!(body.len(), 64);
    body
}

fn with_envelope(mut body: Vec<u8>) -> Vec<u8> {
    let len = body.len() as u32;
    let mut raw = len.to_be_bytes().to_vec();
    raw.append(&mut body);
    raw
}

#[test]
fn drain_head_ok() {
    let mut raw = vec![0, 0, 0, 2, 0xAA, 0xBB];
    assert_eq!(drain_packet_head(&mut raw), Ok(()));
    assert_eq!(raw, vec![0xAA, 0xBB]);
}

#[test]
fn drain_head_short_input() {
    let mut raw = vec![0, 0, 0];
    assert_eq!(drain_packet_head(&mut raw), Err(Error::ExpectedByte));
    assert_eq!(raw, vec![0, 0, 0]);
}

#[test]
fn drain_head_nonzero_first_byte() {
    let mut raw = vec![1, 0, 0, 1, 0xAA];
    assert_eq!(drain_packet_head(&mut raw), Err(Error::NonZeroFirstByte));
}

#[test]
fn drain_head_zero_length() {
    let mut raw = vec![0, 0, 0, 0];
    assert_eq!(drain_packet_head(&mut raw), Err(Error::ZeroHeaderMsg));
}

#[test]
fn drain_head_length_mismatch() {
    let mut raw = vec![0, 0, 0, 3, 0xAA, 0xBB];
    assert_eq!(drain_packet_head(&mut raw), Err(Error::InvalidMessageLength));
}

#[test]
fn envelope_high_bit_fails() {
    let raw = vec![0x80, 0, 0, 1, 0xAA];
    assert_eq!(RawSMBMsg::parse_from_raw(raw), Err(Error::NonZeroFirstByte));
}

#[test]
fn envelope_nonzero_leading_byte_fails() {
    // a huge declared length that matches the remaining count is still
    // refused: the leading byte must be zero
    let mut raw = vec![0x01, 0, 0, 1];
    raw.resize(4 + 0x0100_0001, 0u8);
    assert_eq!(RawSMBMsg::parse_from_raw(raw), Err(Error::NonZeroFirstByte));
}

#[test]
fn envelope_zero_length_fails() {
    assert_eq!(
        RawSMBMsg::parse_from_raw(vec![0, 0, 0, 0]),
        Err(Error::ZeroHeaderMsg)
    );
}

#[test]
fn envelope_ok_and_mismatch() {
    let ok = RawSMBMsg::parse_from_raw(vec![0, 0, 0, 2, 0xAA, 0xBB]).unwrap();
    assert_eq!(ok.bytes(), &vec![0xAA, 0xBB]);
    assert_eq!(
        RawSMBMsg::parse_from_raw(vec![0, 0, 0, 9, 0xAA]),
        Err(Error::InvalidMessageLength)
    );
}

#[test]
fn header_fields_decoded() {
    let body = sample_body();
    let h = SMBHeader::parse_from_raw(&body).unwrap();
    assert!(h.flags.contains(0x01));
    assert!(h.flags.contains(0x09));
    assert!(!h.flags.contains(0x02));
    assert_eq!(h.magic, [0xFE, 0x53, 0x4D, 0x42]);
    assert_eq!(h.hlen, 64);
    assert_eq!(h.cred_charge, 1);
    assert_eq!(h.nt_status, 0x11223344);
    assert_eq!(h.opcode, Opcodes::Create);
    assert_eq!(h.cred_req_res, 1);
    assert_eq!(h.flags.bits(), 0x09);
    assert_eq!(h.chain_offset, 0);
    assert_eq!(h.cmd_seq, 7);
    assert_eq!(h.pid, 2);
    assert_eq!(h.tid, 3);
    assert_eq!(h.uid, 4);
    assert_eq!(h.signature, 0);
}

#[test]
fn header_round_trips_to_bytes() {
    let body = sample_body();
    let h = SMBHeader::parse_from_raw(&body).unwrap();
    assert_eq!(h.encode(), body);
}

#[test]
fn header_unknown_opcode() {
    let mut body = sample_body();
    body[12] = 0x13; // opcode 0x13 is past the table
    assert_eq!(SMBHeader::parse_from_raw(&body), Err(Error::InvalidOpcode));
}

#[test]
fn header_undefined_flag_bit() {
    let mut body = sample_body();
    body[17] = 0x01; // flags bit 8 is outside the defined set
    assert_eq!(SMBHeader::parse_from_raw(&body), Err(Error::InvalidFlags));
}

#[test]
fn header_legacy_magic_unsupported() {
    let mut body = sample_body();
    body[0] = 0xFF;
    assert_eq!(
        SMBHeader::parse_from_raw(&body),
        Err(Error::UnsupportedVersion)
    );
}

#[test]
fn header_unknown_magic() {
    let mut body = sample_body();
    body[0] = 0x7E;
    assert_eq!(SMBHeader::parse_from_raw(&body), Err(Error::InvalidMagic));
}

#[test]
fn header_declared_length_too_large() {
    let mut body = sample_body();
    body[4] = 65; // hlen = 65 > 64 bytes available
    assert_eq!(
        SMBHeader::parse_from_raw(&body),
        Err(Error::InvalidMessageLength)
    );
}

#[test]
fn header_declared_length_too_small() {
    let mut body = sample_body();
    body[4] = 63; // hlen = 63 cannot cover the fixed fields
    assert_eq!(SMBHeader::parse_from_raw(&body), Err(Error::ExpectedByte));
}

#[test]
fn header_truncated_input() {
    assert_eq!(
        SMBHeader::parse_from_raw(&[0xFE, 0x53]),
        Err(Error::ExpectedByte)
    );
    assert_eq!(
        SMBHeader::parse_from_raw(&[0xFE, 0x53, 0x4D, 0x42, 64]),
        Err(Error::ExpectedByte)
    );
}

#[test]
fn message_with_payload() {
    let mut body = sample_body();
    body.extend_from_slice(&[0xAA, 0xBB]);
    let raw = with_envelope(body);
    let msg = SMBMsg::parse_from_raw(raw).unwrap();
    assert_eq!(msg.header.opcode, Opcodes::Create);
    assert_eq!(msg.payload, vec![0xAA, 0xBB]);
}

#[test]
fn message_bad_envelope() {
    let mut raw = with_envelope(sample_body());
    raw[0] = 9;
    assert_eq!(SMBMsg::parse_from_raw(raw), Err(Error::NonZeroFirstByte));
}

#[test]
fn opcode_table_is_exact() {
    for v in 0u16..0x13 {
        let op = Opcodes::try_from(v).unwrap();
        assert_eq!(op.as_u16(), v);
    }
    assert!(Opcodes::try_from(0x13).is_err());
    assert!(Opcodes::try_from(0xFFFF).is_err());
}

#[test]
fn take_slice_bounds() {
    let v = [1u8, 2, 3, 4, 5];
    assert_eq!(take_slice(&v, 1, 3), Some(vec![2, 3, 4]));
    assert_eq!(take_slice(&v, 0, 5), Some(vec![1, 2, 3, 4, 5]));
    assert_eq!(take_slice(&v, 3, 3), None);
    assert_eq!(take_slice(&v, 5, 0), Some(vec![]));
}
