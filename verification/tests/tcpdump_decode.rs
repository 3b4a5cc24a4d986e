use smb_dissect::prettify::byte::byte_iter_as_str;
use smb_dissect::prettify::conn::Direction;
use smb_dissect::prettify::conn::Dynamic;
use smb_dissect::tcpdump::data::parse_data_line;
use smb_dissect::tcpdump::data::Data;
use smb_dissect::tcpdump::header::Header;
use smb_dissect::tcpdump::header::IpV4;
use smb_dissect::tcpdump::header::TimeOfDay;
use smb_dissect::tcpdump::DataError;
use smb_dissect::tcpdump::Error;
use smb_dissect::tcpdump::HeaderError;
use smb_dissect::tcpdump::TcpdumpIter;

const HEADER_LINE: &str =
    "12:00:00.123456 IP 10.0.0.1.445 > 10.0.0.2.50000: Flags [S], seq 100, win 64240, length 0";

#[test]
fn header_line_decodes_exactly() {
    let h = Header::parse(HEADER_LINE).unwrap();
    assert_eq!(
        h.time,
        TimeOfDay { hour: 12, min: 0, sec: 0, nanos: 123_456_000 }
    );
    assert_eq!(h.src.ip, IpV4 { a: 10, b: 0, c: 0, d: 1 });
    assert_eq!(h.src.port, 445);
    assert_eq!(h.dst.ip, IpV4 { a: 10, b: 0, c: 0, d: 2 });
    assert_eq!(h.dst.port, 50000);
    assert_eq!(h.flags.human_str(), "S");
    assert_eq!(h.seq, Some(100));
    assert_eq!(h.ack, None);
    assert_eq!(h.win, 64240);
    assert_eq!(h.options, None);
    assert_eq!(h.length, 0);
}

#[test]
fn header_line_missing_win_key() {
    let line = "12:00:00 IP 10.0.0.1.445 > 10.0.0.2.50000: Flags [S], length 0";
    assert_eq!(Header::parse(line), Err(HeaderError::MissingToken));
}

#[test]
fn header_line_bogus_key() {
    let line = "12:00:00 IP 10.0.0.1.445 > 10.0.0.2.50000: Flags [S], bogus 1, win 1, length 0";
    assert_eq!(Header::parse(line), Err(HeaderError::UnexpectedToken));
}

#[test]
fn header_line_without_separator() {
    assert_eq!(Header::parse("no separator here"), Err(HeaderError::SyntaxError));
}

#[test]
fn header_line_wrong_protocol() {
    let line = "12:00:00 IP6 10.0.0.1.445 > 10.0.0.2.50000: Flags [S], win 1, length 0";
    assert_eq!(Header::parse(line), Err(HeaderError::InvalidProtocol));
}

#[test]
fn header_line_wrong_direction_token() {
    let line = "12:00:00 IP 10.0.0.1.445 < 10.0.0.2.50000: Flags [S], win 1, length 0";
    assert_eq!(Header::parse(line), Err(HeaderError::UnexpectedToken));
}

#[test]
fn header_line_short_head() {
    let line = "12:00:00 IP: Flags [S], win 1, length 0";
    assert_eq!(Header::parse(line), Err(HeaderError::SyntaxError));
}

#[test]
fn header_line_bad_time() {
    let line = "12:xx:00 IP 10.0.0.1.445 > 10.0.0.2.50000: Flags [S], win 1, length 0";
    assert_eq!(Header::parse(line), Err(HeaderError::InvalidTimeFmt));
}

#[test]
fn header_line_bad_address() {
    let line = "12:00:00 IP 10.0.0.445 > 10.0.0.2.50000: Flags [S], win 1, length 0";
    assert_eq!(Header::parse(line), Err(HeaderError::InvalidSocketAddr));
    let no_dot = "12:00:00 IP 10001 > 10.0.0.2.50000: Flags [S], win 1, length 0";
    assert_eq!(Header::parse(no_dot), Err(HeaderError::InvalidSocketAddr));
    let big_port = "12:00:00 IP 10.0.0.1.70000 > 10.0.0.2.50000: Flags [S], win 1, length 0";
    assert_eq!(Header::parse(big_port), Err(HeaderError::InvalidSocketAddr));
}

#[test]
fn header_line_optional_keys() {
    let line = "09:08:07.5 IP 1.2.3.4.80 > 5.6.7.8.81: Flags [.], seq 1:2, ack 3, win 4, options [mss 1460], length 5";
    let h = Header::parse(line).unwrap();
    assert_eq!(h.time, TimeOfDay { hour: 9, min: 8, sec: 7, nanos: 500_000_000 });
    assert_eq!(h.seq, Some(1));
    assert_eq!(h.ack, Some(3));
    assert_eq!(h.win, 4);
    assert_eq!(h.options, Some(b"[mss 1460]".to_vec()));
    assert_eq!(h.length, 5);
    assert_eq!(h.flags.human_str(), ".");
}

#[test]
fn data_line_two_and_four_digit_groups() {
    assert_eq!(
        parse_data_line("\t0x0000:  4500 0028 aa 0b"),
        Ok(vec![0x45, 0x00, 0x00, 0x28, 0xAA, 0x0B])
    );
}

#[test]
fn data_line_stops_at_second_double_space() {
    assert_eq!(
        parse_data_line("\t0x0000:  4500  E...."),
        Ok(vec![0x45, 0x00])
    );
}

#[test]
fn data_line_without_double_space() {
    assert_eq!(
        parse_data_line("\t0x0000: 4500"),
        Err(DataError::UnexpectedToken)
    );
}

#[test]
fn data_line_bad_hex() {
    assert_eq!(
        parse_data_line("\t0x0000:  45zz"),
        Err(DataError::InvalidByteRepr)
    );
    assert_eq!(
        parse_data_line("\t0x0000:  450"),
        Err(DataError::InvalidByteRepr)
    );
}

fn standard_frame(payload_len: usize) -> Vec<u8> {
    let mut d = vec![0u8; 40 + payload_len];
    d[0] = 0x45;
    d[32] = 0x50;
    for (i, b) in d.iter_mut().enumerate().skip(40) {
        *b = i as u8;
    }
    d
}

#[test]
fn data_parts_standard_split() {
    for n in [0usize, 1, 7, 100] {
        let d = standard_frame(n);
        let parts = Data::parse_data_parts(d.clone()).unwrap();
        assert_eq!(parts.ip_header, d[..20].to_vec());
        assert_eq!(parts.tcp_header, d[20..40].to_vec());
        assert_eq!(parts.data, d[40..].to_vec());
        assert_eq!(parts.data.len(), n);
    }
}

#[test]
fn data_parts_rejects_other_ip_version() {
    let mut d = standard_frame(0);
    d[0] = 0x65;
    assert_eq!(
        Data::parse_data_parts(d),
        Err(DataError::UnsupportedIPVersion)
    );
}

#[test]
fn data_parts_rejects_truncation() {
    assert_eq!(Data::parse_data_parts(vec![]), Err(DataError::ExpectedByte));
    // IHL promises 24 bytes of network header, only 20 present
    let mut d = vec![0u8; 20];
    d[0] = 0x46;
    assert_eq!(Data::parse_data_parts(d), Err(DataError::ExpectedByte));
    // nothing after the network header to read byte 12 from
    let mut d = vec![0u8; 25];
    d[0] = 0x45;
    assert_eq!(Data::parse_data_parts(d), Err(DataError::ExpectedByte));
    // transport length runs past the end
    let mut d = vec![0u8; 40];
    d[0] = 0x45;
    d[32] = 0x60; // 24 bytes promised, 20 present
    assert_eq!(Data::parse_data_parts(d), Err(DataError::ExpectedByte));
}

fn hex_dump_lines(bytes: &[u8]) -> Vec<String> {
    bytes
        .chunks(16)
        .enumerate()
        .map(|(i, chunk)| {
            let groups: Vec<String> = chunk
                .chunks(2)
                .map(|p| p.iter().map(|b| format!("{b:02x}")).collect())
                .collect();
            format!("\t0x{:04x}:  {}", i * 16, groups.join(" "))
        })
        .collect()
}

#[test]
fn two_frame_transcript_yields_two_segments() {
    let frame = standard_frame(0);
    let dump = hex_dump_lines(&frame);
    let mut it = TcpdumpIter::new();

    assert_eq!(it.push_line(HEADER_LINE), Ok(None));
    for l in &dump {
        assert_eq!(it.push_line(l), Ok(None));
    }
    let first = it.push_line(HEADER_LINE).unwrap().unwrap();
    assert_eq!(first.header, Header::parse(HEADER_LINE).unwrap());
    assert_eq!(first.data.ip_header, frame[..20].to_vec());
    assert_eq!(first.data.tcp_header, frame[20..40].to_vec());
    assert_eq!(first.data.data, Vec::<u8>::new());
    for l in &dump {
        assert_eq!(it.push_line(l), Ok(None));
    }
    let second = it.finish().unwrap().unwrap();
    assert_eq!(second.header, Header::parse(HEADER_LINE).unwrap());
    assert_eq!(second.data.tcp_header, frame[20..40].to_vec());
    assert_eq!(it.finish(), Ok(None));
}

#[test]
fn stream_surfaces_header_error() {
    let mut it = TcpdumpIter::new();
    assert_eq!(
        it.push_line("garbage"),
        Err(Error::HeaderError(HeaderError::SyntaxError))
    );
}

#[test]
fn stream_surfaces_data_error() {
    let mut it = TcpdumpIter::new();
    assert_eq!(it.push_line(HEADER_LINE), Ok(None));
    assert_eq!(
        it.push_line("\tbroken line"),
        Err(Error::DataError(DataError::UnexpectedToken))
    );
}

#[test]
fn stream_finish_with_bad_block() {
    let mut it = TcpdumpIter::new();
    assert_eq!(it.push_line(HEADER_LINE), Ok(None));
    assert_eq!(it.push_line("\t0x0000:  60"), Ok(None));
    assert_eq!(
        it.finish(),
        Err(Error::DataError(DataError::UnsupportedIPVersion))
    );
}

#[test]
fn direction_classification() {
    let client = IpV4 { a: 10, b: 0, c: 0, d: 1 };
    let server = IpV4 { a: 10, b: 0, c: 0, d: 2 };
    let other = IpV4 { a: 192, b: 168, c: 0, d: 9 };
    let conn = Dynamic::new(client, server);
    assert_eq!(conn.direction(client, server), Direction::REQUEST);
    assert_eq!(conn.direction(server, client), Direction::RESPONSE);
    assert_eq!(conn.direction(other, server), Direction::EXTERNAL);
    assert_eq!(Direction::REQUEST.name(), "REQUEST");
}

#[test]
fn byte_rendering() {
    assert_eq!(byte_iter_as_str(&[0x41, 0x00, 0x1B], 16), "\n  A\\0\\x1B");
    assert_eq!(byte_iter_as_str(&[0x41, 0x42, 0x43], 2), "\n  AB\n  C");
    assert_eq!(byte_iter_as_str(&[], 4), "");
}
