//! Wire-level utilities: big-endian integers and length-prefixed framing.
//!
//! All multi-byte integers on the wire are big-endian.

use vstd::prelude::*;

verus! {

/// The two big-endian bytes of a `u16`.
pub open spec fn spec_u16_be(x: u16) -> Seq<u8> {
    seq![((x >> 8) & 0xff) as u8, (x & 0xff) as u8]
}

/// The four big-endian bytes of a `u32`.
pub open spec fn spec_u32_be(x: u32) -> Seq<u8> {
    seq![
        ((x >> 24) & 0xff) as u8,
        ((x >> 16) & 0xff) as u8,
        ((x >> 8) & 0xff) as u8,
        (x & 0xff) as u8,
    ]
}

/// The `u16` read from two big-endian bytes.
pub open spec fn spec_u16_from_be(b: Seq<u8>) -> u16
    recommends
        b.len() == 2,
{
    (((b[0] as u16) << 8) | (b[1] as u16)) as u16
}

/// The `u32` read from four big-endian bytes.
pub open spec fn spec_u32_from_be(b: Seq<u8>) -> u32
    recommends
        b.len() == 4,
{
    (((b[0] as u32) << 24) | ((b[1] as u32) << 16) | ((b[2] as u32) << 8) | (b[3] as u32)) as u32
}

/// Reading back the bytes of a `u16` yields the `u16`.
pub proof fn lemma_u16_be_round_trip(x: u16)
    ensures
        spec_u16_from_be(spec_u16_be(x)) == x,
{
    assert((((((x >> 8) & 0xff) as u8) as u16) << 8) | (((x & 0xff) as u8) as u16) == x)
        by (bit_vector);
}

/// Reading back the bytes of a `u32` yields the `u32`.
pub proof fn lemma_u32_be_round_trip(x: u32)
    ensures
        spec_u32_from_be(spec_u32_be(x)) == x,
{
    assert(((((((x >> 24) & 0xff) as u8) as u32) << 24) | (((((x >> 16) & 0xff) as u8) as u32)
        << 16) | (((((x >> 8) & 0xff) as u8) as u32) << 8) | (((x & 0xff) as u8) as u32)) == x)
        by (bit_vector);
}

/// Writing the `u16` read from two bytes yields the bytes.
pub proof fn lemma_u16_be_bytes_round_trip(b0: u8, b1: u8)
    ensures
        spec_u16_be(spec_u16_from_be(seq![b0, b1])) == seq![b0, b1],
{
    let x = (((b0 as u16) << 8) | (b1 as u16)) as u16;
    assert(((x >> 8) & 0xff) as u8 == b0 && (x & 0xff) as u8 == b1) by (bit_vector)
        requires
            x == (((b0 as u16) << 8) | (b1 as u16)) as u16,
    ;
    assert(spec_u16_be(x) =~= seq![b0, b1]);
}

/// Writing the `u32` read from four bytes yields the bytes.
pub proof fn lemma_u32_be_bytes_round_trip(b0: u8, b1: u8, b2: u8, b3: u8)
    ensures
        spec_u32_be(spec_u32_from_be(seq![b0, b1, b2, b3])) == seq![b0, b1, b2, b3],
{
    let x = (((b0 as u32) << 24) | ((b1 as u32) << 16) | ((b2 as u32) << 8) | (b3 as u32)) as u32;
    assert(((x >> 24) & 0xff) as u8 == b0 && ((x >> 16) & 0xff) as u8 == b1 && ((x >> 8)
        & 0xff) as u8 == b2 && (x & 0xff) as u8 == b3) by (bit_vector)
        requires
            x == (((b0 as u32) << 24) | ((b1 as u32) << 16) | ((b2 as u32) << 8) | (
            b3 as u32)) as u32,
    ;
    assert(spec_u32_be(x) =~= seq![b0, b1, b2, b3]);
}

/// Appends the two big-endian bytes of `x` to `out`.
pub fn push_u16_be(out: &mut Vec<u8>, x: u16)
    ensures
        final(out)@ == old(out)@ + spec_u16_be(x),
{
    out.push(((x >> 8) & 0xff) as u8);
    out.push((x & 0xff) as u8);
    assert(out@ =~= old(out)@ + spec_u16_be(x));
}

/// Appends the four big-endian bytes of `x` to `out`.
pub fn push_u32_be(out: &mut Vec<u8>, x: u32)
    ensures
        final(out)@ == old(out)@ + spec_u32_be(x),
{
    out.push(((x >> 24) & 0xff) as u8);
    out.push(((x >> 16) & 0xff) as u8);
    out.push(((x >> 8) & 0xff) as u8);
    out.push((x & 0xff) as u8);
    assert(out@ =~= old(out)@ + spec_u32_be(x));
}

/// Reads the big-endian `u16` at offset `i` of `data`.
pub fn read_u16_be(data: &[u8], i: usize) -> (r: u16)
    requires
        i + 2 <= data@.len(),
    ensures
        r == spec_u16_from_be(data@.subrange(i as int, i + 2)),
{
    let r = ((data[i] as u16) << 8) | (data[i + 1] as u16);
    proof {
        let b = data@.subrange(i as int, i + 2);
        assert(b[0] == data@[i as int] && b[1] == data@[i + 1]);
    }
    r
}

/// Reads the big-endian `u32` at offset `i` of `data`.
pub fn read_u32_be(data: &[u8], i: usize) -> (r: u32)
    requires
        i + 4 <= data@.len(),
    ensures
        r == spec_u32_from_be(data@.subrange(i as int, i + 4)),
{
    let r = ((data[i] as u32) << 24) | ((data[i + 1] as u32) << 16) | ((data[i + 2] as u32) << 8)
        | (data[i + 3] as u32);
    proof {
        let b = data@.subrange(i as int, i + 4);
        assert(b[0] == data@[i as int] && b[1] == data@[i + 1] && b[2] == data@[i + 2] && b[3]
            == data@[i + 3]);
    }
    r
}

/// Copies `data[from..to)` into a fresh vector.
pub fn copy_range(data: &[u8], from: usize, to: usize) -> (r: Vec<u8>)
    requires
        from <= to <= data@.len(),
    ensures
        r@ == data@.subrange(from as int, to as int),
{
    let mut out: Vec<u8> = Vec::new();
    let mut k: usize = from;
    while k < to
        invariant
            from <= k <= to <= data@.len(),
            out@ == data@.subrange(from as int, k as int),
        decreases to - k,
    {
        out.push(data[k]);
        k = k + 1;
        assert(data@.subrange(from as int, k as int) =~= data@.subrange(from as int, k - 1) + seq![
            data@[k - 1],
        ]);
    }
    out
}

/// True exactly when the two byte strings are equal.
pub fn bytes_eq(a: &[u8], b: &[u8]) -> (r: bool)
    ensures
        r == (a@ == b@),
{
    if a.len() != b.len() {
        proof {
            assert(a@.len() != b@.len());
        }
        return false;
    }
    let mut k: usize = 0;
    while k < a.len()
        invariant
            k <= a@.len(),
            a@.len() == b@.len(),
            forall|j: int| 0 <= j < k ==> a@[j] == b@[j],
        decreases a@.len() - k,
    {
        if a[k] != b[k] {
            return false;
        }
        k = k + 1;
    }
    proof {
        assert(a@ =~= b@);
    }
    true
}

/// Removes a complete length-prefixed message from the front of `buf`.
///
/// Returns `None`, leaving `buf` unchanged, while `buf` holds less than the
/// four-byte prefix plus the announced payload; otherwise returns the payload
/// and drops the consumed bytes from the front of `buf`.
pub fn read_message(buf: &mut Vec<u8>) -> (r: Option<Vec<u8>>)
    ensures
        match r {
            None => final(buf)@ == old(buf)@ && (old(buf)@.len() < 4 || old(buf)@.len() < 4
                + spec_u32_from_be(old(buf)@.subrange(0, 4))),
            Some(m) => {
                let n = spec_u32_from_be(old(buf)@.subrange(0, 4)) as int;
                old(buf)@.len() >= 4 + n && m@ == old(buf)@.subrange(4, 4 + n) && final(buf)@
                    == old(buf)@.subrange(4 + n, old(buf)@.len() as int)
            },
        },
{
    if buf.len() < 4 {
        return None;
    }
    let length = read_u32_be(buf.as_slice(), 0) as usize;
    if buf.len() - 4 < length {
        return None;
    }
    let message = copy_range(buf.as_slice(), 4, 4 + length);
    let rest = copy_range(buf.as_slice(), 4 + length, buf.len());
    *buf = rest;
    Some(message)
}

/// Appends `message` to `buf` with its four-byte big-endian length prefix.
pub fn write_message(buf: &mut Vec<u8>, message: &[u8])
    requires
        message@.len() <= u32::MAX,
    ensures
        final(buf)@ == old(buf)@ + spec_u32_be(message@.len() as u32) + message@,
{
    push_u32_be(buf, message.len() as u32);
    let mut k: usize = 0;
    while k < message.len()
        invariant
            k <= message@.len(),
            buf@ == old(buf)@ + spec_u32_be(message@.len() as u32) + message@.subrange(
                0,
                k as int,
            ),
        decreases message@.len() - k,
    {
        buf.push(message[k]);
        k = k + 1;
        assert(message@.subrange(0, k as int) =~= message@.subrange(0, k - 1) + seq![
            message@[k - 1],
        ]);
        assert(buf@ =~= old(buf)@ + spec_u32_be(message@.len() as u32) + message@.subrange(
            0,
            k as int,
        ));
    }
    assert(message@.subrange(0, message@.len() as int) == message@);
}

} // verus!
