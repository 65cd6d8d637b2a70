//! The byte-level wire codec: variable-length unsigned integers and
//! length-prefixed buffers.
//!
//! Integers are little-endian LEB128: seven payload bits per byte, most
//! significant bit as continuation flag, at most ten bytes for a 64-bit
//! value.

use crate::ProtocolError;
use vstd::prelude::*;

verus! {

/// Longest accepted LEB128 encoding of a 64-bit value.
pub const LEB_MAX_BYTES: u64 = 10;

/// The LEB128 encoding of `v`: low seven bits first, continuation bit on
/// every byte but the last.
pub open spec fn leb_encode(v: nat) -> Seq<u8>
    decreases v,
{
    if v < 128 {
        seq![v as u8]
    } else {
        seq![(128 + v % 128) as u8] + leb_encode(v / 128)
    }
}

/// Parses a LEB128 integer of at most `max` bytes from the front of `s`:
/// the value and the number of bytes consumed.
pub open spec fn leb_parse(s: Seq<u8>, max: nat) -> Option<(nat, nat)>
    decreases max,
{
    if max == 0 || s.len() == 0 {
        None
    } else if s[0] < 128 {
        Some((s[0] as nat, 1))
    } else {
        match leb_parse(s.skip(1), (max - 1) as nat) {
            Some(p) => Some(((s[0] - 128) as nat + 128 * p.0, p.1 + 1)),
            None => None,
        }
    }
}

/// Parses a `var_u64` from the front of `s`: a LEB128 integer of at most
/// ten bytes whose value fits in 64 bits.
pub open spec fn parse_u64(s: Seq<u8>) -> Option<(u64, nat)> {
    match leb_parse(s, LEB_MAX_BYTES as nat) {
        Some(p) => if p.0 <= u64::MAX {
            Some((p.0 as u64, p.1))
        } else {
            None
        },
        None => None,
    }
}

/// 128 raised to `k`.
pub open spec fn pow128(k: nat) -> nat
    decreases k,
{
    if k == 0 {
        1
    } else {
        128 * pow128((k - 1) as nat)
    }
}

/// The encoding of a value below `128^b` takes at most `b` bytes.
pub proof fn lemma_leb_encode_len(v: nat, b: nat)
    requires
        b >= 1,
        v < pow128(b),
    ensures
        leb_encode(v).len() <= b,
    decreases b,
{
    if v >= 128 {
        assert(pow128(b) == 128 * pow128((b - 1) as nat));
        assert(v / 128 < pow128((b - 1) as nat)) by (nonlinear_arith)
            requires
                v < 128 * pow128((b - 1) as nat),
        ;
        assert(b >= 2) by {
            if b == 1 {
                assert(pow128(1nat) == 128);
            }
        }
        lemma_leb_encode_len(v / 128, (b - 1) as nat);
    }
}

/// Every 64-bit value encodes in at most ten bytes.
pub proof fn lemma_leb_encode_len_u64(v: u64)
    ensures
        leb_encode(v as nat).len() <= 10,
{
    assert(pow128(10nat) > u64::MAX) by {
        reveal_with_fuel(pow128, 11);
    }
    lemma_leb_encode_len(v as nat, 10nat);
}

/// Parsing recovers exactly what was encoded, whatever follows it.
pub proof fn lemma_leb_roundtrip_bounded(v: nat, rest: Seq<u8>, max: nat)
    requires
        leb_encode(v).len() <= max,
    ensures
        leb_parse(leb_encode(v) + rest, max) == Some((v, leb_encode(v).len())),
    decreases v,
{
    let s = leb_encode(v) + rest;
    if v < 128 {
        assert(s[0] == v as u8);
    } else {
        assert(s[0] == (128 + v % 128) as u8);
        assert(s[0] >= 128);
        assert(s.skip(1) =~= leb_encode(v / 128) + rest);
        assert(v / 128 < v) by (nonlinear_arith)
            requires
                v >= 128,
        ;
        lemma_leb_roundtrip_bounded(v / 128, rest, (max - 1) as nat);
        let p = leb_parse(s.skip(1), (max - 1) as nat);
        assert(p == Some((v / 128, leb_encode(v / 128).len())));
        assert((s[0] - 128) as nat + 128 * (v / 128) == v) by (nonlinear_arith)
            requires
                s[0] == (128 + v % 128) as u8,
                v >= 128,
        ;
    }
}

/// Round trip for 64-bit values under the ten-byte cap.
pub proof fn lemma_leb_roundtrip(v: u64, rest: Seq<u8>)
    ensures
        parse_u64(leb_encode(v as nat) + rest) == Some((v, leb_encode(v as nat).len())),
{
    lemma_leb_encode_len_u64(v);
    lemma_leb_roundtrip_bounded(v as nat, rest, LEB_MAX_BYTES as nat);
}

/// Every byte of an encoding but the last carries the continuation bit,
/// and the last does not.
pub proof fn lemma_leb_encode_shape(v: nat)
    ensures
        leb_encode(v).len() >= 1,
        forall|i: int|
            0 <= i < leb_encode(v).len() - 1 ==> #[trigger] leb_encode(v)[i] >= 128,
        leb_encode(v)[leb_encode(v).len() - 1] < 128,
    decreases v,
{
    if v >= 128 {
        lemma_leb_encode_shape(v / 128);
        let tail = leb_encode(v / 128);
        let whole = leb_encode(v);
        assert forall|i: int| 0 <= i < whole.len() - 1 implies #[trigger] whole[i] >= 128 by {
            if i > 0 {
                assert(whole[i] == tail[i - 1]);
            }
        }
    }
}

/// A sequence of continuation bytes alone never parses.
pub proof fn lemma_leb_parse_all_continuation(s: Seq<u8>, max: nat)
    requires
        forall|i: int| 0 <= i < s.len() ==> #[trigger] s[i] >= 128,
    ensures
        leb_parse(s, max) is None,
    decreases max,
{
    if max != 0 && s.len() != 0 {
        assert(forall|i: int| 0 <= i < s.skip(1).len() ==> #[trigger] s.skip(1)[i] >= 128);
        lemma_leb_parse_all_continuation(s.skip(1), (max - 1) as nat);
    }
}

/// A proper prefix of an encoding never parses.
pub proof fn lemma_leb_truncated(v: nat, max: nat)
    ensures
        leb_parse(leb_encode(v).drop_last(), max) is None,
{
    lemma_leb_encode_shape(v);
    let t = leb_encode(v).drop_last();
    assert(forall|i: int| 0 <= i < t.len() ==> #[trigger] t[i] >= 128);
    lemma_leb_parse_all_continuation(t, max);
}

/// The `var_buffer` encoding of `b`: its length as a `var_u64`, then its
/// bytes.
pub open spec fn buf_encode(b: Seq<u8>) -> Seq<u8> {
    leb_encode(b.len()) + b
}

/// Parses a `var_buffer` from the front of `s`: the payload and the number
/// of bytes consumed.
pub open spec fn parse_buf(s: Seq<u8>) -> Option<(Seq<u8>, nat)> {
    match parse_u64(s) {
        Some((len, n)) => if n + len <= s.len() {
            Some((s.subrange(n as int, n as int + len as int), n + len as nat))
        } else {
            None
        },
        None => None,
    }
}

/// Parsing recovers exactly the buffer that was encoded, whatever follows
/// it.
pub proof fn lemma_buf_roundtrip(b: Seq<u8>, rest: Seq<u8>)
    requires
        b.len() <= u64::MAX,
    ensures
        parse_buf(buf_encode(b) + rest) == Some((b, buf_encode(b).len())),
{
    let len = b.len() as u64;
    let s = buf_encode(b) + rest;
    assert(s =~= leb_encode(len as nat) + (b + rest));
    lemma_leb_roundtrip(len, b + rest);
    let n = leb_encode(len as nat).len();
    assert(s.subrange(n as int, n as int + len as int) =~= b);
}

/// An encoded buffer with its last byte cut off no longer parses.
pub proof fn lemma_buf_truncated(b: Seq<u8>)
    requires
        b.len() <= u64::MAX,
    ensures
        parse_buf(buf_encode(b).drop_last()) is None,
{
    let len = b.len() as u64;
    if b.len() > 0 {
        assert(buf_encode(b).drop_last() =~= leb_encode(len as nat) + b.drop_last());
        lemma_leb_roundtrip(len, b.drop_last());
    } else {
        assert(leb_encode(0) =~= seq![0u8]);
        assert(buf_encode(b).drop_last() =~= Seq::<u8>::empty());
    }
}

/// Reads a LEB128 integer of at most `max` bytes starting at `pos`.
fn read_leb(buf: &[u8], pos: usize, max: u64) -> (r: Option<(u64, usize)>)
    requires
        pos <= buf@.len(),
    ensures
        ({
            let p = leb_parse(buf@.skip(pos as int), max as nat);
            match r {
                Some((v, end)) => pos < end <= buf@.len() && p == Some(
                    (v as nat, (end - pos) as nat),
                ),
                None => p is None || p.unwrap().0 > u64::MAX,
            }
        }),
    decreases max,
{
    if max == 0 || pos >= buf.len() {
        return None;
    }
    let b = buf[pos];
    if b < 128 {
        return Some((b as u64, pos + 1));
    }
    proof {
        assert(buf@.skip(pos as int).skip(1) =~= buf@.skip(pos as int + 1));
    }
    match read_leb(buf, pos + 1, max - 1) {
        None => None,
        Some((v, end)) => {
            let payload = (b - 128) as u64;
            if v < 0x200_0000_0000_0000 {
                Some((payload + 128 * v, end))
            } else {
                None
            }
        },
    }
}

/// Reads a `var_u64` starting at `pos`: the value and the position just
/// past it. Fails with `MalformedFrame` when the buffer ends inside the
/// integer or the value does not fit in 64 bits.
pub fn read_var_u64(buf: &[u8], pos: usize) -> (r: Result<(u64, usize), ProtocolError>)
    requires
        pos <= buf@.len(),
    ensures
        match r {
            Ok((v, end)) => pos < end <= buf@.len() && parse_u64(buf@.skip(pos as int)) == Some(
                (v, (end - pos) as nat),
            ),
            Err(e) => e == ProtocolError::MalformedFrame && parse_u64(buf@.skip(pos as int))
                is None,
        },
{
    match read_leb(buf, pos, LEB_MAX_BYTES) {
        Some((v, end)) => Ok((v, end)),
        None => Err(ProtocolError::MalformedFrame),
    }
}

/// Appends the LEB128 encoding of `num` to `buffer`.
pub fn write_var_u64(buffer: &mut Vec<u8>, num: u64)
    ensures
        final(buffer)@ == old(buffer)@ + leb_encode(num as nat),
    decreases num,
{
    if num < 128 {
        buffer.push(num as u8);
        assert(buffer@ =~= old(buffer)@ + leb_encode(num as nat));
    } else {
        let ghost mid = buffer@ + seq![(128 + num % 128) as u8];
        buffer.push((128 + (num % 128) as u8) as u8);
        assert(buffer@ =~= mid);
        proof {
            assert(num / 128 < num) by (nonlinear_arith)
                requires
                    num >= 128,
            ;
        }
        write_var_u64(buffer, num / 128);
        assert(buffer@ =~= old(buffer)@ + leb_encode(num as nat));
    }
}

/// Whether two byte strings hold the same bytes.
pub fn bytes_eq(a: &[u8], b: &[u8]) -> (r: bool)
    ensures
        r == (a@ == b@),
{
    if a.len() != b.len() {
        return false;
    }
    let mut i: usize = 0;
    while i < a.len()
        invariant
            i <= a@.len(),
            a@.len() == b@.len(),
            forall|j: int| 0 <= j < i ==> a@[j] == b@[j],
        decreases a@.len() - i,
    {
        if a[i] != b[i] {
            return false;
        }
        i = i + 1;
    }
    assert(a@ =~= b@);
    true
}

/// Whether `s` is a valid UTF-8 byte sequence: exactly the inputs
/// `std::str::from_utf8` accepts.
pub uninterp spec fn is_utf8(s: Seq<u8>) -> bool;

/// Relies on `std::str::from_utf8`: succeeds exactly on valid UTF-8, which
/// `is_utf8` names.
#[verifier::external_body]
pub(crate) fn check_utf8(bytes: &[u8]) -> (r: bool)
    ensures
        r == is_utf8(bytes@),
{
    std::str::from_utf8(bytes).is_ok()
}

/// Copies `buf[from..to]` into a fresh vector.
pub fn copy_range(buf: &[u8], from: usize, to: usize) -> (r: Vec<u8>)
    requires
        from <= to <= buf@.len(),
    ensures
        r@ == buf@.subrange(from as int, to as int),
{
    let mut out: Vec<u8> = Vec::new();
    let mut i: usize = from;
    while i < to
        invariant
            from <= i <= to <= buf@.len(),
            out@ == buf@.subrange(from as int, i as int),
        decreases to - i,
    {
        out.push(buf[i]);
        i = i + 1;
        assert(out@ =~= buf@.subrange(from as int, i as int));
    }
    out
}

/// Reads a `var_buffer` starting at `pos`: the payload and the position
/// just past it. Fails with `MalformedFrame` when the length runs past the
/// end of the buffer.
pub fn read_var_buffer(buf: &[u8], pos: usize) -> (r: Result<(Vec<u8>, usize), ProtocolError>)
    requires
        pos <= buf@.len(),
    ensures
        match r {
            Ok((data, end)) => pos < end <= buf@.len() && parse_buf(buf@.skip(pos as int)) == Some(
                (data@, (end - pos) as nat),
            ),
            Err(e) => e == ProtocolError::MalformedFrame && parse_buf(buf@.skip(pos as int))
                is None,
        },
{
    let (len, p) = match read_var_u64(buf, pos) {
        Ok(x) => x,
        Err(e) => {
            return Err(e);
        },
    };
    if len > (buf.len() - p) as u64 {
        return Err(ProtocolError::MalformedFrame);
    }
    let end = p + (len as usize);
    let data = copy_range(buf, p, end);
    proof {
        let s = buf@.skip(pos as int);
        let n = (p - pos) as nat;
        assert(s.subrange(n as int, n as int + len as int) =~= buf@.subrange(
            p as int,
            end as int,
        ));
    }
    Ok((data, end))
}

/// Appends the `var_buffer` encoding of `data` to `buffer`.
pub fn write_var_buffer(buffer: &mut Vec<u8>, data: &[u8])
    ensures
        final(buffer)@ == old(buffer)@ + buf_encode(data@),
{
    write_var_u64(buffer, data.len() as u64);
    let ghost mid = buffer@;
    let mut i: usize = 0;
    while i < data.len()
        invariant
            i <= data@.len(),
            buffer@ == mid + data@.subrange(0, i as int),
        decreases data@.len() - i,
    {
        buffer.push(data[i]);
        i = i + 1;
        assert(buffer@ =~= mid + data@.subrange(0, i as int));
    }
    assert(buffer@ =~= old(buffer)@ + buf_encode(data@));
}

} // verus!
