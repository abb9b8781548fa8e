//! Bit-packing semantics: how a run of consecutive `bit` fields coalesces
//! into octets, each octet filled from its least significant bit upward.
//! `pack_octet` describes one packed octet; `pack_bits` a run of any length.

use vstd::prelude::*;

verus! {

/// Whether the bit holding the `i`-th field of a packed run is set in
/// `octet`: runs fill an octet from its least significant bit upward.
pub open spec fn bit_at(octet: u8, i: u8) -> bool {
    octet & (1u8 << i) != 0
}

/// The octet carrying the bits of `s` (at most 8), the first bit of `s` at
/// the least significant position, unused positions clear.
pub open spec fn pack_octet(s: Seq<bool>) -> u8
    decreases s.len(),
{
    if s.len() == 0 {
        0u8
    } else {
        pack_octet(s.drop_last()) | (if s.last() {
            1u8 << ((s.len() - 1) as u8)
        } else {
            0u8
        })
    }
}

/// The octets appended when a pending bit run is flushed: none when the run
/// is empty, else the single packed octet.
pub open spec fn flushed(s: Seq<bool>) -> Seq<u8> {
    if s.len() == 0 {
        Seq::empty()
    } else {
        seq![pack_octet(s)]
    }
}

/// The on-wire octets of a run of consecutive `bit` fields of any length:
/// eight bits to an octet, each octet filled from its least significant
/// bit upward.
pub open spec fn pack_bits(s: Seq<bool>) -> Seq<u8>
    decreases s.len(),
{
    if s.len() <= 8 {
        flushed(s)
    } else {
        seq![pack_octet(s.take(8))] + pack_bits(s.skip(8))
    }
}

/// Setting one bit of an octet leaves every other bit as it was.
proof fn lemma_or_mask_bit(x: u8, k: u8, i: u8)
    by (bit_vector)
    requires
        i < 8,
        k < 8,
    ensures
        ((x | (1u8 << k)) & (1u8 << i) != 0) == (i == k || x & (1u8 << i) != 0),
        (x | 0u8) == x,
{
}

/// No bit of the zero octet is set.
proof fn lemma_zero_bit(i: u8)
    by (bit_vector)
    ensures
        0u8 & (1u8 << i) == 0,
{
}

/// Bit `i` of a packed octet is exactly the `i`-th bit of the run, and the
/// positions past the run are clear.
pub proof fn lemma_pack_octet_bit(s: Seq<bool>, i: u8)
    requires
        s.len() <= 8,
        i < 8,
    ensures
        bit_at(pack_octet(s), i) == (i < s.len() && s[i as int]),
    decreases s.len(),
{
    if s.len() == 0 {
        lemma_zero_bit(i);
    } else {
        let k: u8 = (s.len() - 1) as u8;
        lemma_pack_octet_bit(s.drop_last(), i);
        if s.last() {
            lemma_or_mask_bit(pack_octet(s.drop_last()), k, i);
        } else {
            lemma_or_mask_bit(pack_octet(s.drop_last()), k, i);
            assert(pack_octet(s) == pack_octet(s.drop_last()));
        }
    }
}

/// A run of `n` bits occupies exactly `⌈n/8⌉` octets on the wire, and the
/// `i`-th bit of the run sits at bit position `i % 8` (counting from the
/// least significant bit) of octet `i / 8`.
pub proof fn lemma_pack_bits(s: Seq<bool>, i: int)
    requires
        0 <= i < s.len(),
    ensures
        pack_bits(s).len() == (s.len() + 7) / 8,
        bit_at(pack_bits(s)[i / 8], (i % 8) as u8) == s[i],
    decreases s.len(),
{
    lemma_pack_bits_len(s);
    if s.len() <= 8 {
        assert(i / 8 == 0 && i % 8 == i) by (nonlinear_arith)
            requires
                0 <= i < 8,
        ;
        lemma_pack_octet_bit(s, i as u8);
        assert(bit_at(pack_bits(s)[i / 8], (i % 8) as u8) == s[i]);
    } else {
        if i < 8 {
            assert(i / 8 == 0 && i % 8 == i) by (nonlinear_arith)
                requires
                    0 <= i < 8,
            ;
            lemma_pack_octet_bit(s.take(8), i as u8);
            assert(bit_at(pack_bits(s)[i / 8], (i % 8) as u8) == s[i]);
        } else {
            lemma_pack_bits(s.skip(8), i - 8);
            assert((i - 8) / 8 == i / 8 - 1 && (i - 8) % 8 == i % 8) by (nonlinear_arith)
                requires
                    i >= 8,
            ;
            assert(s.skip(8)[i - 8] == s[i]);
            assert(pack_bits(s)[i / 8] == pack_bits(s.skip(8))[(i - 8) / 8]);
        }
    }
}

/// The exact octet count of a packed run.
pub proof fn lemma_pack_bits_len(s: Seq<bool>)
    ensures
        pack_bits(s).len() == (s.len() + 7) / 8,
    decreases s.len(),
{
    if s.len() <= 8 {
    } else {
        lemma_pack_bits_len(s.skip(8));
        assert((s.len() + 7) / 8 == 1 + (s.len() - 8 + 7) / 8) by (nonlinear_arith)
            requires
                s.len() > 8,
        ;
    }
}

} // verus!
