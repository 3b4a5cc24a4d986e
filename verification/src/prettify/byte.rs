//! Escaped rendering of raw bytes: printable characters stand for
//! themselves, a zero byte becomes `\0`, anything else a `\xHH` escape, with
//! a line break and two-space indent every `wrap` bytes.

use vstd::prelude::*;
use vstd::utf8::encode_utf8;

verus! {

/// The uppercase hexadecimal digit of a value below 16, as an ASCII byte.
pub open spec fn spec_hex_u(v: u8) -> u8
    recommends
        v < 16,
{
    if v < 10 {
        (48 + v) as u8
    } else {
        (55 + v) as u8
    }
}

/// How one byte renders: itself if printable, `\0` for zero, `\xHH`
/// otherwise.
pub open spec fn spec_escape_byte(c: u8) -> Seq<u8> {
    if 33 <= c && c <= 126 {
        seq![c]
    } else if c == 0 {
        seq![92u8, 48u8]
    } else {
        seq![92u8, 120u8, spec_hex_u(c / 16), spec_hex_u(c % 16)]
    }
}

/// The rendering of a byte sequence from index `i` on: a newline and two
/// spaces ahead of every index divisible by `wrap`, then each byte's
/// escape.
pub open spec fn spec_render_from(bytes: Seq<u8>, wrap: int, i: int) -> Seq<u8>
    decreases bytes.len() - i,
        when 0 <= i <= bytes.len()
{
    if i < 0 || i >= bytes.len() {
        Seq::empty()
    } else {
        (if i % wrap == 0 {
            seq![10u8, 32u8, 32u8]
        } else {
            Seq::empty()
        }) + spec_escape_byte(bytes[i]) + spec_render_from(bytes, wrap, i + 1)
    }
}

/// Render into raw ASCII bytes.
fn render_bytes(bytes: &[u8], wrap: usize) -> (r: Vec<u8>)
    requires
        wrap > 0,
    ensures
        r@ == spec_render_from(bytes@, wrap as int, 0),
        forall|k: int| 0 <= k < r@.len() ==> #[trigger] r@[k] < 128,
{
    let n = bytes.len();
    let mut out: Vec<u8> = Vec::new();
    let mut i: usize = 0;
    while i < n
        invariant
            i <= n,
            n == bytes@.len(),
            wrap > 0,
            spec_render_from(bytes@, wrap as int, 0) == out@ + spec_render_from(
                bytes@,
                wrap as int,
                i as int,
            ),
            forall|k: int| 0 <= k < out@.len() ==> #[trigger] out@[k] < 128,
        decreases n - i,
    {
        let ghost out0 = out@;
        let ghost pre = (if i as int % (wrap as int) == 0 {
            seq![10u8, 32u8, 32u8]
        } else {
            Seq::<u8>::empty()
        });
        let c = bytes[i];
        if i % wrap == 0 {
            out.push(10);
            out.push(32);
            out.push(32);
        }
        proof {
            assert(out@ =~= out0 + pre);
        }
        let ghost out1 = out@;
        if 33 <= c && c <= 126 {
            out.push(c);
        } else if c == 0 {
            out.push(92);
            out.push(48);
        } else {
            out.push(92);
            out.push(120);
            let hi = c / 16;
            let lo = c % 16;
            out.push(if hi < 10 { 48 + hi } else { 55 + hi });
            out.push(if lo < 10 { 48 + lo } else { 55 + lo });
        }
        proof {
            assert(out@ =~= out1 + spec_escape_byte(bytes@[i as int]));
            assert(out@ =~= out0 + (pre + spec_escape_byte(bytes@[i as int])));
            assert(spec_render_from(bytes@, wrap as int, i as int) == (pre + spec_escape_byte(
                bytes@[i as int],
            )) + spec_render_from(bytes@, wrap as int, i as int + 1));
            assert(out0 + ((pre + spec_escape_byte(bytes@[i as int])) + spec_render_from(
                bytes@,
                wrap as int,
                i as int + 1,
            )) =~= (out0 + (pre + spec_escape_byte(bytes@[i as int]))) + spec_render_from(
                bytes@,
                wrap as int,
                i as int + 1,
            ));
        }
        i = i + 1;
    }
    out
}

/// Relies on `String::from_utf8`: it succeeds on any ASCII input, since
/// UTF-8 is a superset of ASCII, and the returned string's bytes are
/// exactly the input.
#[verifier::external_body]
fn string_from_ascii(v: Vec<u8>) -> (r: Option<String>)
    ensures
        (forall|k: int| 0 <= k < v@.len() ==> #[trigger] v@[k] < 128) ==> r is Some,
        r matches Some(s) ==> encode_utf8(s@) == v@,
{
    String::from_utf8(v).ok()
}

/// Render a byte sequence as escaped text wrapped every `wrap` bytes, as
/// `spec_render_from` says.
pub fn byte_iter_as_str(bytes: &[u8], wrap: usize) -> (r: String)
    requires
        wrap > 0,
    ensures
        encode_utf8(r@) == spec_render_from(bytes@, wrap as int, 0),
{
    let v = render_bytes(bytes, wrap);
    match string_from_ascii(v) {
        Some(s) => s,
        None => {
            proof {
                assert(false);
            }
            String::new()
        },
    }
}

} // verus!
