//! Big-endian integer layouts: the mathematical description of how the
//! multi-octet AMQP integers sit on the wire, executable helpers that write
//! and read them, and the round-trip lemmas connecting the two directions.

use vstd::prelude::*;

verus! {

/// The two big-endian octets of a 16-bit integer.
pub open spec fn u16_be(v: u16) -> Seq<u8> {
    seq![(v / 0x100) as u8, (v % 0x100) as u8]
}

/// The four big-endian octets of a 32-bit integer.
pub open spec fn u32_be(v: u32) -> Seq<u8> {
    seq![
        (v / 0x1000000) as u8,
        ((v / 0x10000) % 0x100) as u8,
        ((v / 0x100) % 0x100) as u8,
        (v % 0x100) as u8,
    ]
}

/// The eight big-endian octets of a 64-bit integer.
pub open spec fn u64_be(v: u64) -> Seq<u8> {
    seq![
        (v / 0x100000000000000) as u8,
        ((v / 0x1000000000000) % 0x100) as u8,
        ((v / 0x10000000000) % 0x100) as u8,
        ((v / 0x100000000) % 0x100) as u8,
        ((v / 0x1000000) % 0x100) as u8,
        ((v / 0x10000) % 0x100) as u8,
        ((v / 0x100) % 0x100) as u8,
        (v % 0x100) as u8,
    ]
}

/// The 16-bit integer denoted by two big-endian octets.
pub open spec fn u16_of_be(b0: u8, b1: u8) -> u16 {
    (b0 * 0x100 + b1) as u16
}

/// The 32-bit integer denoted by four big-endian octets.
pub open spec fn u32_of_be(b0: u8, b1: u8, b2: u8, b3: u8) -> u32 {
    (b0 * 0x1000000 + b1 * 0x10000 + b2 * 0x100 + b3) as u32
}

/// The 64-bit integer denoted by eight big-endian octets.
pub open spec fn u64_of_be(b0: u8, b1: u8, b2: u8, b3: u8, b4: u8, b5: u8, b6: u8, b7: u8) -> u64 {
    (b0 * 0x100000000000000 + b1 * 0x1000000000000 + b2 * 0x10000000000 + b3 * 0x100000000
        + b4 * 0x1000000 + b5 * 0x10000 + b6 * 0x100 + b7) as u64
}

/// The octets of a short string: a one-octet length, then the bytes.
/// Meaningful only for strings of at most 255 bytes.
pub open spec fn shortstr_bytes(s: Seq<u8>) -> Seq<u8> {
    seq![s.len() as u8] + s
}

/// The octets of a long string: a four-octet big-endian length, then the
/// bytes. Meaningful only for strings of fewer than 2^32 bytes.
pub open spec fn longstr_bytes(s: Seq<u8>) -> Seq<u8> {
    u32_be(s.len() as u32) + s
}

/// The octet at `i`, and the position after it.
pub open spec fn parse_u8(d: Seq<u8>, i: int) -> Option<(u8, int)> {
    if 0 <= i && i + 1 <= d.len() {
        Some((d[i], i + 1))
    } else {
        None
    }
}

/// The big-endian 16-bit integer at `i`, and the position after it.
pub open spec fn parse_u16(d: Seq<u8>, i: int) -> Option<(u16, int)> {
    if 0 <= i && i + 2 <= d.len() {
        Some((u16_of_be(d[i], d[i + 1]), i + 2))
    } else {
        None
    }
}

/// The big-endian 32-bit integer at `i`, and the position after it.
pub open spec fn parse_u32(d: Seq<u8>, i: int) -> Option<(u32, int)> {
    if 0 <= i && i + 4 <= d.len() {
        Some((u32_of_be(d[i], d[i + 1], d[i + 2], d[i + 3]), i + 4))
    } else {
        None
    }
}

/// The big-endian 64-bit integer at `i`, and the position after it.
pub open spec fn parse_u64(d: Seq<u8>, i: int) -> Option<(u64, int)> {
    if 0 <= i && i + 8 <= d.len() {
        Some(
            (
                u64_of_be(d[i], d[i + 1], d[i + 2], d[i + 3], d[i + 4], d[i + 5], d[i + 6], d[i + 7]),
                i + 8,
            ),
        )
    } else {
        None
    }
}

/// The short string at `i`: its bytes, and the position after them.
pub open spec fn parse_shortstr(d: Seq<u8>, i: int) -> Option<(Seq<u8>, int)> {
    if 0 <= i && i + 1 <= d.len() && i + 1 + d[i] <= d.len() {
        Some((d.subrange(i + 1, i + 1 + d[i]), i + 1 + d[i]))
    } else {
        None
    }
}

/// The long string at `i`: its bytes, and the position after them.
pub open spec fn parse_longstr(d: Seq<u8>, i: int) -> Option<(Seq<u8>, int)> {
    if 0 <= i && i + 4 <= d.len() && i + 4 + u32_of_be(d[i], d[i + 1], d[i + 2], d[i + 3])
        <= d.len() {
        Some(
            (
                d.subrange(i + 4, i + 4 + u32_of_be(d[i], d[i + 1], d[i + 2], d[i + 3])),
                i + 4 + u32_of_be(d[i], d[i + 1], d[i + 2], d[i + 3]),
            ),
        )
    } else {
        None
    }
}

/// Reading back the two octets of a 16-bit integer yields the integer.
pub proof fn lemma_u16_be_round(v: u16)
    ensures
        u16_of_be(u16_be(v)[0], u16_be(v)[1]) == v,
{
    assert(((v / 0x100) as u8 as u16) * 0x100 + ((v % 0x100) as u8 as u16) == v) by (bit_vector);
}


/// Reading back the four octets of a 32-bit integer yields the integer.
pub proof fn lemma_u32_be_round(v: u32)
    ensures
        u32_of_be(u32_be(v)[0], u32_be(v)[1], u32_be(v)[2], u32_be(v)[3]) == v,
{
    assert(((v / 0x1000000) as u8 as u32) * 0x1000000 + (((v / 0x10000) % 0x100) as u8 as u32)
        * 0x10000 + (((v / 0x100) % 0x100) as u8 as u32) * 0x100 + ((v % 0x100) as u8 as u32)
        == v) by (bit_vector);
}


/// Reading back the eight octets of a 64-bit integer yields the integer.
pub proof fn lemma_u64_be_round(v: u64)
    ensures
        u64_of_be(
            u64_be(v)[0],
            u64_be(v)[1],
            u64_be(v)[2],
            u64_be(v)[3],
            u64_be(v)[4],
            u64_be(v)[5],
            u64_be(v)[6],
            u64_be(v)[7],
        ) == v,
{
    assert(((v / 0x100000000000000) as u8 as u64) * 0x100000000000000 + (((v / 0x1000000000000)
        % 0x100) as u8 as u64) * 0x1000000000000 + (((v / 0x10000000000) % 0x100) as u8 as u64)
        * 0x10000000000 + (((v / 0x100000000) % 0x100) as u8 as u64) * 0x100000000 + (((v
        / 0x1000000) % 0x100) as u8 as u64) * 0x1000000 + (((v / 0x10000) % 0x100) as u8 as u64)
        * 0x10000 + (((v / 0x100) % 0x100) as u8 as u64) * 0x100 + ((v % 0x100) as u8 as u64)
        == v) by (bit_vector);
}

/// Writes a 16-bit integer in big-endian order.
pub fn push_u16_be(out: &mut Vec<u8>, v: u16)
    ensures
        final(out)@ == old(out)@ + u16_be(v),
{
    out.push((v / 0x100) as u8);
    out.push((v % 0x100) as u8);
    proof {
        assert(out@ =~= old(out)@ + u16_be(v));
    }
}

/// Writes a 32-bit integer in big-endian order.
pub fn push_u32_be(out: &mut Vec<u8>, v: u32)
    ensures
        final(out)@ == old(out)@ + u32_be(v),
{
    out.push((v / 0x1000000) as u8);
    out.push(((v / 0x10000) % 0x100) as u8);
    out.push(((v / 0x100) % 0x100) as u8);
    out.push((v % 0x100) as u8);
    proof {
        assert(out@ =~= old(out)@ + u32_be(v));
    }
}

/// Writes a 64-bit integer in big-endian order.
pub fn push_u64_be(out: &mut Vec<u8>, v: u64)
    ensures
        final(out)@ == old(out)@ + u64_be(v),
{
    out.push((v / 0x100000000000000) as u8);
    out.push(((v / 0x1000000000000) % 0x100) as u8);
    out.push(((v / 0x10000000000) % 0x100) as u8);
    out.push(((v / 0x100000000) % 0x100) as u8);
    out.push(((v / 0x1000000) % 0x100) as u8);
    out.push(((v / 0x10000) % 0x100) as u8);
    out.push(((v / 0x100) % 0x100) as u8);
    out.push((v % 0x100) as u8);
    proof {
        assert(out@ =~= old(out)@ + u64_be(v));
    }
}

/// An octet embedded in a larger buffer parses to itself.
pub proof fn lemma_parse_u8_at(d: Seq<u8>, pre: Seq<u8>, b: u8, rest: Seq<u8>)
    requires
        d == pre + seq![b] + rest,
    ensures
        parse_u8(d, pre.len() as int) == Some((b, pre.len() + 1 as int)),
{
    assert(d[pre.len() as int] == b);
}

/// A big-endian 16-bit integer embedded in a larger buffer parses back to
/// the integer.
pub proof fn lemma_parse_u16_at(d: Seq<u8>, pre: Seq<u8>, v: u16, rest: Seq<u8>)
    requires
        d == pre + u16_be(v) + rest,
    ensures
        parse_u16(d, pre.len() as int) == Some((v, pre.len() + 2 as int)),
{
    let i = pre.len() as int;
    assert(d[i] == u16_be(v)[0]);
    assert(d[i + 1] == u16_be(v)[1]);
    lemma_u16_be_round(v);
}

/// A big-endian 32-bit integer embedded in a larger buffer parses back to
/// the integer.
pub proof fn lemma_parse_u32_at(d: Seq<u8>, pre: Seq<u8>, v: u32, rest: Seq<u8>)
    requires
        d == pre + u32_be(v) + rest,
    ensures
        parse_u32(d, pre.len() as int) == Some((v, pre.len() + 4 as int)),
{
    let i = pre.len() as int;
    assert(d[i] == u32_be(v)[0]);
    assert(d[i + 1] == u32_be(v)[1]);
    assert(d[i + 2] == u32_be(v)[2]);
    assert(d[i + 3] == u32_be(v)[3]);
    lemma_u32_be_round(v);
}

/// A big-endian 64-bit integer embedded in a larger buffer parses back to
/// the integer.
pub proof fn lemma_parse_u64_at(d: Seq<u8>, pre: Seq<u8>, v: u64, rest: Seq<u8>)
    requires
        d == pre + u64_be(v) + rest,
    ensures
        parse_u64(d, pre.len() as int) == Some((v, pre.len() + 8 as int)),
{
    let i = pre.len() as int;
    assert(d[i] == u64_be(v)[0]);
    assert(d[i + 1] == u64_be(v)[1]);
    assert(d[i + 2] == u64_be(v)[2]);
    assert(d[i + 3] == u64_be(v)[3]);
    assert(d[i + 4] == u64_be(v)[4]);
    assert(d[i + 5] == u64_be(v)[5]);
    assert(d[i + 6] == u64_be(v)[6]);
    assert(d[i + 7] == u64_be(v)[7]);
    lemma_u64_be_round(v);
}

/// A short string embedded in a larger buffer parses back to its bytes.
pub proof fn lemma_parse_shortstr_at(d: Seq<u8>, pre: Seq<u8>, s: Seq<u8>, rest: Seq<u8>)
    requires
        d == pre + shortstr_bytes(s) + rest,
        s.len() <= 255,
    ensures
        parse_shortstr(d, pre.len() as int) == Some((s, pre.len() + 1 + s.len() as int)),
{
    let i = pre.len() as int;
    assert(d[i] == s.len() as u8);
    assert(d.subrange(i + 1, i + 1 + s.len()) =~= s);
}

/// A long string embedded in a larger buffer parses back to its bytes.
pub proof fn lemma_parse_longstr_at(d: Seq<u8>, pre: Seq<u8>, s: Seq<u8>, rest: Seq<u8>)
    requires
        d == pre + longstr_bytes(s) + rest,
        s.len() <= 0xFFFFFFFF,
    ensures
        parse_longstr(d, pre.len() as int) == Some((s, pre.len() + 4 + s.len() as int)),
{
    let i = pre.len() as int;
    let lv: u32 = s.len() as u32;
    assert(d[i] == u32_be(lv)[0]);
    assert(d[i + 1] == u32_be(lv)[1]);
    assert(d[i + 2] == u32_be(lv)[2]);
    assert(d[i + 3] == u32_be(lv)[3]);
    lemma_u32_be_round(lv);
    assert(u32_of_be(d[i], d[i + 1], d[i + 2], d[i + 3]) == s.len());
    assert(d.subrange(i + 4, i + 4 + s.len()) =~= s);
}

/// Appends every byte of `data`.
pub fn push_bytes(out: &mut Vec<u8>, data: &Vec<u8>)
    ensures
        final(out)@ == old(out)@ + data@,
{
    let mut i: usize = 0;
    while i < data.len()
        invariant
            i <= data@.len(),
            out@ == old(out)@ + data@.take(i as int),
        decreases data@.len() - i,
    {
        out.push(data[i]);
        proof {
            assert(out@ =~= old(out)@ + data@.take(i + 1));
        }
        i = i + 1;
    }
    proof {
        assert(data@.take(data@.len() as int) =~= data@);
    }
}

/// Copies the `count` bytes at `start`.
pub fn copy_range(data: &Vec<u8>, start: usize, count: usize) -> (r: Vec<u8>)
    requires
        start + count <= data@.len(),
    ensures
        r@ == data@.subrange(start as int, start + count),
{
    let _n: usize = data.len();
    let mut out: Vec<u8> = Vec::new();
    let mut i: usize = 0;
    while i < count
        invariant
            i <= count,
            data@.len() <= usize::MAX,
            start + count <= data@.len(),
            out@ == data@.subrange(start as int, start + i),
        decreases count - i,
    {
        out.push(data[start + i]);
        proof {
            assert(out@ =~= data@.subrange(start as int, start + i + 1));
        }
        i = i + 1;
    }
    out
}

/// Reads the 16-bit integer at `pos`.
pub fn read_u16_be(data: &Vec<u8>, pos: usize) -> (r: u16)
    requires
        pos + 2 <= data@.len(),
    ensures
        r == u16_of_be(data@[pos as int], data@[pos + 1]),
{
    let _n: usize = data.len();
    (data[pos] as u16) * 0x100 + (data[pos + 1] as u16)
}

/// Reads the 32-bit integer at `pos`.
pub fn read_u32_be(data: &Vec<u8>, pos: usize) -> (r: u32)
    requires
        pos + 4 <= data@.len(),
    ensures
        r == u32_of_be(data@[pos as int], data@[pos + 1], data@[pos + 2], data@[pos + 3]),
{
    let _n: usize = data.len();
    (data[pos] as u32) * 0x1000000 + (data[pos + 1] as u32) * 0x10000 + (data[pos + 2] as u32)
        * 0x100 + (data[pos + 3] as u32)
}

/// Reads the 64-bit integer at `pos`.
pub fn read_u64_be(data: &Vec<u8>, pos: usize) -> (r: u64)
    requires
        pos + 8 <= data@.len(),
    ensures
        r == u64_of_be(
            data@[pos as int],
            data@[pos + 1],
            data@[pos + 2],
            data@[pos + 3],
            data@[pos + 4],
            data@[pos + 5],
            data@[pos + 6],
            data@[pos + 7],
        ),
{
    let _n: usize = data.len();
    (data[pos] as u64) * 0x100000000000000 + (data[pos + 1] as u64) * 0x1000000000000 + (data[pos
        + 2] as u64) * 0x10000000000 + (data[pos + 3] as u64) * 0x100000000 + (data[pos + 4] as u64)
        * 0x1000000 + (data[pos + 5] as u64) * 0x10000 + (data[pos + 6] as u64) * 0x100 + (data[pos
        + 7] as u64)
}

} // verus!
