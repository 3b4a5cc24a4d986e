//! Capture-transcript decoding: one header line per captured frame, followed
//! by indented hex-dump lines, paired into captured segments by a two-state
//! stream machine.

pub mod data;
pub mod header;

use vstd::prelude::*;
use vstd::string::StringSliceAdditionalSpecFns;

verus! {

#[derive(Debug, Clone, Copy, PartialEq, Eq, Structural)]
pub enum HeaderError {
    SyntaxError,
    InvalidProtocol,
    InvalidSocketAddr,
    InvalidTimeFmt,
    MissingToken,
    UnexpectedToken,
}

#[derive(Debug, Clone, Copy, PartialEq, Eq, Structural)]
pub enum DataError {
    ExpectedByte,
    SyntaxError,
    InvalidByteRepr,
    UnexpectedToken,
    UnsupportedIPVersion,
}

/// Any failure of the capture-stream layer: reading a line, decoding a
/// header line, or decoding the byte block.
#[derive(Debug, Clone, Copy, PartialEq, Eq, Structural)]
pub enum Error {
    ReadLine,
    HeaderError(HeaderError),
    DataError(DataError),
}

/// One captured segment: the parsed header line paired with the byte block
/// that followed it.
#[derive(Debug, Clone, PartialEq, Eq)]
pub struct TcpdumpMsg {
    pub header: header::Header,
    pub data: data::Data,
}

/// The stream machine's state: the header of the segment being accumulated,
/// if any, and the payload bytes gathered for it so far.
pub ghost struct StreamStateV {
    pub pending: Option<header::HeaderV>,
    pub buf: Seq<u8>,
}

/// The mathematical content of an emitted segment.
pub ghost struct SegmentV {
    pub header: header::HeaderV,
    pub data: (Seq<u8>, Seq<u8>, Seq<u8>),
}

/// The idle state: no segment under way.
pub open spec fn spec_stream_start() -> StreamStateV {
    StreamStateV { pending: None, buf: Seq::empty() }
}

/// One line drives the machine.  Awaiting a header, the line must parse as
/// one.  Accumulating a payload, a line opening with a tab contributes
/// bytes; any other line finalizes the pending segment and is itself parsed
/// as the next segment's header — the new header's error takes precedence
/// over a malformed byte block.
pub open spec fn spec_push_line(st: StreamStateV, line: Seq<u8>) -> Result<
    (StreamStateV, Option<SegmentV>),
    Error,
> {
    match st.pending {
        None => match header::spec_parse_header_line(line) {
            Err(e) => Err(Error::HeaderError(e)),
            Ok(h) => Ok((StreamStateV { pending: Some(h), buf: Seq::empty() }, None)),
        },
        Some(h) => if line.len() > 0 && line[0] == 9 {
            match data::spec_parse_data_line(line) {
                Err(e) => Err(Error::DataError(e)),
                Ok(bs) => Ok((StreamStateV { pending: Some(h), buf: st.buf + bs }, None)),
            }
        } else {
            match header::spec_parse_header_line(line) {
                Err(e) => Err(Error::HeaderError(e)),
                Ok(h2) => match data::spec_parse_data_parts(st.buf) {
                    Err(e) => Err(Error::DataError(e)),
                    Ok(parts) => Ok(
                        (
                            StreamStateV { pending: Some(h2), buf: Seq::empty() },
                            Some(SegmentV { header: h, data: parts }),
                        ),
                    ),
                },
            }
        },
    }
}

/// End of input: a pending segment is finalized; an idle machine ends
/// cleanly with nothing.
pub open spec fn spec_finish(st: StreamStateV) -> Result<
    (StreamStateV, Option<SegmentV>),
    Error,
> {
    match st.pending {
        None => Ok((st, None)),
        Some(h) => match data::spec_parse_data_parts(st.buf) {
            Err(e) => Err(Error::DataError(e)),
            Ok(parts) => Ok(
                (
                    StreamStateV { pending: None, buf: Seq::empty() },
                    Some(SegmentV { header: h, data: parts }),
                ),
            ),
        },
    }
}

/// The machine's two states: waiting for a header line, or gathering the
/// hex-dump lines that follow one.
enum StreamState {
    AwaitingHeader,
    AccumulatingPayload(header::Header, Vec<u8>),
}

/// Run the machine over a sequence of lines from a given state, collecting
/// every emitted segment in order.
pub open spec fn spec_run(st: StreamStateV, lines: Seq<Seq<u8>>) -> Result<
    (StreamStateV, Seq<SegmentV>),
    Error,
>
    decreases lines.len(),
{
    if lines.len() == 0 {
        Ok((st, Seq::empty()))
    } else {
        match spec_push_line(st, lines[0]) {
            Err(e) => Err(e),
            Ok(so) => match spec_run(so.0, lines.skip(1)) {
                Err(e) => Err(e),
                Ok(rest) => Ok(
                    (
                        rest.0,
                        (match so.1 {
                            Some(s) => seq![s],
                            None => Seq::empty(),
                        }) + rest.1,
                    ),
                ),
            },
        }
    }
}

/// Well-formed dump lines: each opens with a tab and decodes.
pub open spec fn spec_dump_lines_ok(lines: Seq<Seq<u8>>) -> bool {
    forall|i: int|
        0 <= i < lines.len() ==> (#[trigger] lines[i]).len() > 0 && lines[i][0] == 9
            && data::spec_parse_data_line(lines[i]) is Ok
}

/// The bytes a run of dump lines contributes, concatenated in order.
pub open spec fn spec_dump_bytes(lines: Seq<Seq<u8>>) -> Seq<u8>
    decreases lines.len(),
{
    if lines.len() == 0 {
        Seq::empty()
    } else {
        data::spec_parse_data_line(lines[0])->Ok_0 + spec_dump_bytes(lines.skip(1))
    }
}

/// Feeding only well-formed dump lines accumulates their bytes and emits
/// nothing.
proof fn lemma_run_dump_lines(h: header::HeaderV, buf: Seq<u8>, lines: Seq<Seq<u8>>)
    requires
        spec_dump_lines_ok(lines),
    ensures
        spec_run(StreamStateV { pending: Some(h), buf }, lines) == Ok::<
            (StreamStateV, Seq<SegmentV>),
            Error,
        >((StreamStateV { pending: Some(h), buf: buf + spec_dump_bytes(lines) }, Seq::empty())),
    decreases lines.len(),
{
    if lines.len() == 0 {
        assert(buf + spec_dump_bytes(lines) =~= buf);
    } else {
        let b0 = data::spec_parse_data_line(lines[0])->Ok_0;
        assert(spec_dump_lines_ok(lines.skip(1))) by {
            assert(forall|i: int|
                0 <= i < lines.skip(1).len() ==> lines.skip(1)[i] == lines[i + 1]);
        }
        lemma_run_dump_lines(h, buf + b0, lines.skip(1));
        assert((buf + b0) + spec_dump_bytes(lines.skip(1)) =~= buf + (b0 + spec_dump_bytes(
            lines.skip(1),
        )));
        assert(Seq::<SegmentV>::empty() + Seq::<SegmentV>::empty() =~= Seq::<SegmentV>::empty());
    }
}

/// A run splits at any point: running the whole is running the first part
/// and then the second from where the first left off, the emissions
/// concatenated.
proof fn lemma_run_concat(st: StreamStateV, l1: Seq<Seq<u8>>, l2: Seq<Seq<u8>>)
    requires
        spec_run(st, l1) is Ok,
    ensures
        (match spec_run(spec_run(st, l1)->Ok_0.0, l2) {
            Err(e) => spec_run(st, l1 + l2) == Err::<(StreamStateV, Seq<SegmentV>), Error>(e),
            Ok(r2) => spec_run(st, l1 + l2) == Ok::<(StreamStateV, Seq<SegmentV>), Error>(
                (r2.0, spec_run(st, l1)->Ok_0.1 + r2.1),
            ),
        }),
    decreases l1.len(),
{
    if l1.len() == 0 {
        assert(l1 + l2 =~= l2);
        match spec_run(st, l2) {
            Ok(r2) => {
                assert(Seq::<SegmentV>::empty() + r2.1 =~= r2.1);
            },
            Err(_) => {},
        }
    } else {
        assert((l1 + l2)[0] == l1[0]);
        assert((l1 + l2).skip(1) =~= l1.skip(1) + l2);
        let so = spec_push_line(st, l1[0])->Ok_0;
        let e0 = (match so.1 {
            Some(s) => seq![s],
            None => Seq::<SegmentV>::empty(),
        });
        lemma_run_concat(so.0, l1.skip(1), l2);
        let r1t = spec_run(so.0, l1.skip(1))->Ok_0;
        match spec_run(spec_run(st, l1)->Ok_0.0, l2) {
            Ok(r2) => {
                assert((e0 + r1t.1) + r2.1 =~= e0 + (r1t.1 + r2.1));
            },
            Err(_) => {},
        }
    }
}

/// A run of one line is one push.
proof fn lemma_run_one(st: StreamStateV, line: Seq<u8>)
    requires
        spec_push_line(st, line) is Ok,
    ensures
        spec_run(st, seq![line]) == Ok::<(StreamStateV, Seq<SegmentV>), Error>(
            (
                spec_push_line(st, line)->Ok_0.0,
                (match spec_push_line(st, line)->Ok_0.1 {
                    Some(s) => seq![s],
                    None => Seq::empty(),
                }),
            ),
        ),
{
    assert(seq![line].skip(1) =~= Seq::<Seq<u8>>::empty());
    let so = spec_push_line(st, line)->Ok_0;
    assert(spec_run(so.0, Seq::<Seq<u8>>::empty()) == Ok::<(StreamStateV, Seq<SegmentV>), Error>(
        (so.0, Seq::empty()),
    ));
    match so.1 {
        Some(s) => {
            assert(seq![s] + Seq::<SegmentV>::empty() =~= seq![s]);
        },
        None => {
            assert(Seq::<SegmentV>::empty() + Seq::<SegmentV>::empty()
                =~= Seq::<SegmentV>::empty());
        },
    }
}

/// An idle machine takes a parseable line as the first segment's header.
proof fn lemma_push_first(line: Seq<u8>)
    requires
        header::spec_parse_header_line(line) is Ok,
    ensures
        spec_push_line(spec_stream_start(), line) == Ok::<
            (StreamStateV, Option<SegmentV>),
            Error,
        >(
            (
                StreamStateV {
                    pending: Some(header::spec_parse_header_line(line)->Ok_0),
                    buf: Seq::empty(),
                },
                None,
            ),
        ),
{
}

/// An accumulating machine takes a parseable non-tab line as the next
/// segment's header and emits the finished one.
proof fn lemma_push_lookahead(h: header::HeaderV, buf: Seq<u8>, line: Seq<u8>)
    requires
        header::spec_parse_header_line(line) is Ok,
        line.len() == 0 || line[0] != 9,
        data::spec_parse_data_parts(buf) is Ok,
    ensures
        spec_push_line(StreamStateV { pending: Some(h), buf }, line) == Ok::<
            (StreamStateV, Option<SegmentV>),
            Error,
        >(
            (
                StreamStateV {
                    pending: Some(header::spec_parse_header_line(line)->Ok_0),
                    buf: Seq::empty(),
                },
                Some(SegmentV { header: h, data: data::spec_parse_data_parts(buf)->Ok_0 }),
            ),
        ),
{
}

/// A two-frame transcript — a header line, any number of well-formed dump
/// lines whose bytes split, a second header line, its dump lines, back to
/// back with no trailing blank — runs to exactly one emitted segment, and
/// closing the machine emits exactly the second; a further close ends
/// cleanly with nothing.
#[verifier::spinoff_prover]
#[verifier::rlimit(100)]
pub proof fn lemma_two_frame_transcript(
    h1: Seq<u8>,
    d1: Seq<Seq<u8>>,
    h2: Seq<u8>,
    d2: Seq<Seq<u8>>,
)
    requires
        header::spec_parse_header_line(h1) is Ok,
        header::spec_parse_header_line(h2) is Ok,
        h2.len() == 0 || h2[0] != 9,
        spec_dump_lines_ok(d1),
        spec_dump_lines_ok(d2),
        data::spec_parse_data_parts(spec_dump_bytes(d1)) is Ok,
        data::spec_parse_data_parts(spec_dump_bytes(d2)) is Ok,
    ensures
        ({
            let hv1 = header::spec_parse_header_line(h1)->Ok_0;
            let hv2 = header::spec_parse_header_line(h2)->Ok_0;
            let p1 = data::spec_parse_data_parts(spec_dump_bytes(d1))->Ok_0;
            let p2 = data::spec_parse_data_parts(spec_dump_bytes(d2))->Ok_0;
            let end = StreamStateV { pending: Some(hv2), buf: spec_dump_bytes(d2) };
            spec_run(spec_stream_start(), seq![h1] + d1 + seq![h2] + d2) == Ok::<
                (StreamStateV, Seq<SegmentV>),
                Error,
            >((end, seq![SegmentV { header: hv1, data: p1 }])) && spec_finish(end) == Ok::<
                (StreamStateV, Option<SegmentV>),
                Error,
            >((spec_stream_start(), Some(SegmentV { header: hv2, data: p2 }))) && spec_finish(
                spec_stream_start(),
            ) == Ok::<(StreamStateV, Option<SegmentV>), Error>((spec_stream_start(), None))
        }),
{
    let s0 = spec_stream_start();
    let hv1 = header::spec_parse_header_line(h1)->Ok_0;
    let hv2 = header::spec_parse_header_line(h2)->Ok_0;
    let b1 = spec_dump_bytes(d1);
    let b2 = spec_dump_bytes(d2);
    let p1 = data::spec_parse_data_parts(b1)->Ok_0;
    let seg1 = SegmentV { header: hv1, data: p1 };
    let st1 = StreamStateV { pending: Some(hv1), buf: Seq::empty() };
    let st2 = StreamStateV { pending: Some(hv1), buf: b1 };
    let st3 = StreamStateV { pending: Some(hv2), buf: Seq::empty() };
    let none_emitted = Seq::<SegmentV>::empty();

    // the opening header line
    lemma_push_first(h1);
    lemma_run_one(s0, h1);
    assert(spec_run(s0, seq![h1]) == Ok::<(StreamStateV, Seq<SegmentV>), Error>(
        (st1, none_emitted),
    ));

    // the first frame's dump lines
    lemma_run_dump_lines(hv1, Seq::empty(), d1);
    assert(Seq::<u8>::empty() + b1 =~= b1);
    lemma_run_concat(s0, seq![h1], d1);
    let q1 = seq![h1] + d1;
    assert(none_emitted + none_emitted =~= none_emitted);
    assert(spec_run(s0, q1) == Ok::<(StreamStateV, Seq<SegmentV>), Error>((st2, none_emitted)));

    // the second header line finalizes the first segment
    lemma_push_lookahead(hv1, b1, h2);
    lemma_run_one(st2, h2);
    assert(spec_run(st2, seq![h2]) == Ok::<(StreamStateV, Seq<SegmentV>), Error>(
        (st3, seq![seg1]),
    ));
    lemma_run_concat(s0, q1, seq![h2]);
    let q2 = q1 + seq![h2];
    assert(none_emitted + seq![seg1] =~= seq![seg1]);
    assert(spec_run(s0, q2) == Ok::<(StreamStateV, Seq<SegmentV>), Error>((st3, seq![seg1])));

    // the second frame's dump lines
    lemma_run_dump_lines(hv2, Seq::empty(), d2);
    assert(Seq::<u8>::empty() + b2 =~= b2);
    lemma_run_concat(s0, q2, d2);
    assert(seq![seg1] + none_emitted =~= seq![seg1]);
    assert(seq![h1] + d1 + seq![h2] + d2 == q2 + d2);
}

/// The capture-stream machine: a one-item-lookahead pairing device.  Feed
/// it the transcript's lines in order with `push_line` and close it with
/// `finish`; each call may emit one finished segment.  A returned error is
/// terminal: the caller stops feeding lines.
///
/// Transitions:
///
/// | state                 | input          | next state            | emits     |
/// |-----------------------|----------------|-----------------------|-----------|
/// | `AwaitingHeader`      | line           | `AccumulatingPayload` | nothing   |
/// | `AccumulatingPayload` | tab-indented   | `AccumulatingPayload` | nothing   |
/// | `AccumulatingPayload` | other line     | `AccumulatingPayload` | a segment |
/// | `AccumulatingPayload` | end of input   | `AwaitingHeader`      | a segment |
/// | `AwaitingHeader`      | end of input   | `AwaitingHeader`      | clean end |
///
/// A line that is neither tab-indented nor end of input both terminates
/// segment N and, parsed as a header, begins segment N+1.
pub struct TcpdumpIter {
    state: StreamState,
}

impl TcpdumpIter {
    /// The machine's current state.
    pub closed spec fn spec_state(&self) -> StreamStateV {
        match self.state {
            StreamState::AwaitingHeader => spec_stream_start(),
            StreamState::AccumulatingPayload(h, ref buf) => StreamStateV {
                pending: Some(h@),
                buf: buf@,
            },
        }
    }

    pub fn new() -> (r: Self)
        ensures
            r.spec_state() == spec_stream_start(),
    {
        TcpdumpIter { state: StreamState::AwaitingHeader }
    }

    /// Drive the machine with the next input line (without its trailing
    /// newline), as `spec_push_line` says.  When a line that terminates a
    /// segment parses as the next segment's header, that header is held even
    /// if the finished segment's byte block then fails to decode: the stream
    /// can resume at the next segment after such an error.
    pub fn push_line(&mut self, line: &str) -> (r: Result<Option<TcpdumpMsg>, Error>)
        ensures
            (match spec_push_line(old(self).spec_state(), line.spec_bytes()) {
                Ok(so) => r matches Ok(out) && final(self).spec_state() == so.0 && (match (
                    out,
                    so.1,
                ) {
                    (Some(m), Some(sv)) => m.header@ == sv.header && (
                        m.data.ip_header@,
                        m.data.tcp_header@,
                        m.data.data@,
                    ) == sv.data,
                    (None, None) => true,
                    _ => false,
                }),
                Err(e) => r == Err::<Option<TcpdumpMsg>, Error>(e),
            }),
            (header::spec_parse_header_line(line.spec_bytes()) is Ok && old(
                self,
            ).spec_state().pending is Some && !(line.spec_bytes().len() > 0 && line.spec_bytes()[0]
                == 9)) ==> final(self).spec_state() == (StreamStateV {
                pending: Some(header::spec_parse_header_line(line.spec_bytes())->Ok_0),
                buf: Seq::empty(),
            }),
    {
        let line_bytes = line.as_bytes();
        let is_tab = line_bytes.len() > 0 && line_bytes[0] == 9;
        let mut st = StreamState::AwaitingHeader;
        core::mem::swap(&mut st, &mut self.state);
        match st {
            StreamState::AwaitingHeader => {
                let h = match header::Header::parse(line) {
                    Ok(h) => h,
                    Err(e) => {
                        return Err(Error::HeaderError(e));
                    },
                };
                self.state = StreamState::AccumulatingPayload(h, Vec::new());
                proof {
                    assert(self.spec_state().buf =~= Seq::<u8>::empty());
                }
                Ok(None)
            },
            StreamState::AccumulatingPayload(h, mut buf) => {
                if is_tab {
                    let mut bs = match data::parse_data_line(line) {
                        Ok(bs) => bs,
                        Err(e) => {
                            return Err(Error::DataError(e));
                        },
                    };
                    buf.append(&mut bs);
                    self.state = StreamState::AccumulatingPayload(h, buf);
                    Ok(None)
                } else {
                    let h2 = match header::Header::parse(line) {
                        Ok(h2) => h2,
                        Err(e) => {
                            return Err(Error::HeaderError(e));
                        },
                    };
                    self.state = StreamState::AccumulatingPayload(h2, Vec::new());
                    let d = match data::Data::parse_data_parts(buf) {
                        Ok(d) => d,
                        Err(e) => {
                            return Err(Error::DataError(e));
                        },
                    };
                    proof {
                        assert(self.spec_state().buf =~= Seq::<u8>::empty());
                    }
                    Ok(Some(TcpdumpMsg { header: h, data: d }))
                }
            },
        }
    }

    /// Close the machine at end of input, as `spec_finish` says.
    pub fn finish(&mut self) -> (r: Result<Option<TcpdumpMsg>, Error>)
        ensures
            (match spec_finish(old(self).spec_state()) {
                Ok(so) => r matches Ok(out) && final(self).spec_state() == so.0 && (match (
                    out,
                    so.1,
                ) {
                    (Some(m), Some(sv)) => m.header@ == sv.header && (
                        m.data.ip_header@,
                        m.data.tcp_header@,
                        m.data.data@,
                    ) == sv.data,
                    (None, None) => true,
                    _ => false,
                }),
                Err(e) => r == Err::<Option<TcpdumpMsg>, Error>(e),
            }),
    {
        let mut st = StreamState::AwaitingHeader;
        core::mem::swap(&mut st, &mut self.state);
        match st {
            StreamState::AwaitingHeader => Ok(None),
            StreamState::AccumulatingPayload(h, buf) => {
                let d = match data::Data::parse_data_parts(buf) {
                    Ok(d) => d,
                    Err(e) => {
                        return Err(Error::DataError(e));
                    },
                };
                Ok(Some(TcpdumpMsg { header: h, data: d }))
            },
        }
    }
}

} // verus!
