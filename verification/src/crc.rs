//! CRC-16/CCITT-FALSE: polynomial 0x1021, initial value 0xFFFF, no reflection and no
//! final inversion.
//!
//! Besides computing the checksum, this module proves how strong it is: no error of up
//! to three bits in a message and its checksum of up to 32767 bits goes unnoticed, nor does
//! any error in one byte or in two neighbouring bytes of a message of any length.
use vstd::prelude::*;

verus! {

/// The generator polynomial, without its leading term.
pub const POLY: u16 = 0x1021;

/// The register before the first byte.
pub const INIT: u16 = 0xFFFF;

/// The register after one shift: multiplication by `x` modulo the generator.
pub open spec fn crc_step(c: u16) -> u16 {
    if c & 0x8000 != 0 { (c << 1) ^ 0x1021 } else { c << 1 }
}

/// The register after `n` shifts.
pub open spec fn crc_steps(c: u16, n: nat) -> u16
    decreases n,
{
    if n == 0 { c } else { crc_step(crc_steps(c, (n - 1) as nat)) }
}

/// The register after the byte `b`, which enters at the high end.
pub open spec fn crc_byte(c: u16, b: u8) -> u16 {
    crc_steps(c ^ ((b as u16) << 8), 8)
}

/// The register after the bytes `data`, from the register `c`.
pub open spec fn crc_from(c: u16, data: Seq<u8>) -> u16
    decreases data.len(),
{
    if data.len() == 0 { c } else { crc_byte(crc_from(c, data.drop_last()), data.last()) }
}

/// The checksum of `data`.
pub open spec fn crc16(data: Seq<u8>) -> u16 {
    crc_from(INIT, data)
}

/// Continues a checksum computation from the register `crc` over `data`.
pub fn crc16_ccitt_false_cont(crc: u16, data: &[u8]) -> (r: u16)
    ensures
        r == crc_from(crc, data@),
{
    let mut c: u16 = crc;
    let mut i: usize = 0;
    while i < data.len()
        invariant
            i <= data@.len(),
            c == crc_from(crc, data@.take(i as int)),
        decreases data@.len() - i,
    {
        let ghost before = c;
        c = c ^ ((data[i] as u16) << 8);
        let ghost start = c;
        let mut k: u8 = 0;
        while k < 8
            invariant
                k <= 8,
                c == crc_steps(start, k as nat),
            decreases 8 - k,
        {
            if c & 0x8000 != 0 {
                c = (c << 1) ^ POLY;
            } else {
                c = c << 1;
            }
            k += 1;
        }
        proof {
            assert(c == crc_byte(before, data@[i as int]));
            assert(data@.take(i + 1).drop_last() =~= data@.take(i as int));
        }
        i += 1;
    }
    assert(data@.take(i as int) =~= data@);
    c
}

/// Computes CRC-16/CCITT-FALSE over `data`.
pub fn crc16_ccitt_false(data: &[u8]) -> (r: u16)
    ensures
        r == crc16(data@),
{
    crc16_ccitt_false_cont(INIT, data)
}

/// A checksum can be computed in pieces: the register after `a` carries over to `b`.
pub proof fn crc_of_concatenation(c: u16, a: Seq<u8>, b: Seq<u8>)
    ensures
        crc_from(c, a + b) == crc_from(crc_from(c, a), b),
    decreases b.len(),
{
    if b.len() == 0 {
        assert(a + b =~= a);
    } else {
        assert((a + b).drop_last() =~= a + b.drop_last());
        crc_of_concatenation(c, a, b.drop_last());
    }
}

// ---------------------------------------------------------------------------
// Bits
// ---------------------------------------------------------------------------

/// The bits of a byte, the most significant first.
pub open spec fn byte_bits(b: u8) -> Seq<bool> {
    seq![
        b & 0x80 != 0,
        b & 0x40 != 0,
        b & 0x20 != 0,
        b & 0x10 != 0,
        b & 0x08 != 0,
        b & 0x04 != 0,
        b & 0x02 != 0,
        b & 0x01 != 0,
    ]
}

/// The bits of a byte sequence, in the order in which they are sent.
pub open spec fn bits_of(s: Seq<u8>) -> Seq<bool>
    decreases s.len(),
{
    if s.len() == 0 { Seq::empty() } else { bits_of(s.drop_last()) + byte_bits(s.last()) }
}

/// Number of set bits.
pub open spec fn weight(bits: Seq<bool>) -> nat
    decreases bits.len(),
{
    if bits.len() == 0 {
        0
    } else {
        weight(bits.drop_last()) + (if bits.last() { 1nat } else { 0nat })
    }
}

/// Where two bit sequences of one length differ.
pub open spec fn differences(a: Seq<bool>, b: Seq<bool>) -> Seq<bool> {
    Seq::new(a.len(), |i: int| a[i] != b[i])
}

/// Number of bits in which two byte sequences of one length differ.
pub open spec fn bit_errors(a: Seq<u8>, b: Seq<u8>) -> nat {
    weight(differences(bits_of(a), bits_of(b)))
}

/// A message with its checksum behind it, the high byte first.
pub open spec fn codeword(data: Seq<u8>, crc: u16) -> Seq<u8> {
    data + seq![(crc >> 8) as u8, (crc & 0xFF) as u8]
}

/// The register after one bit.
spec fn crc_bit(c: u16, b: bool) -> u16 {
    crc_step(c ^ (if b { 0x8000u16 } else { 0u16 }))
}

/// The register after a bit sequence.
spec fn crc_bits(c: u16, bits: Seq<bool>) -> u16
    decreases bits.len(),
{
    if bits.len() == 0 { c } else { crc_bit(crc_bits(c, bits.drop_last()), bits.last()) }
}

proof fn lemma_bits_len(s: Seq<u8>)
    ensures
        bits_of(s).len() == 8 * s.len(),
    decreases s.len(),
{
    if s.len() > 0 {
        lemma_bits_len(s.drop_last());
    }
}

proof fn lemma_crc_bits_concat(c: u16, a: Seq<bool>, b: Seq<bool>)
    ensures
        crc_bits(c, a + b) == crc_bits(crc_bits(c, a), b),
    decreases b.len(),
{
    if b.len() == 0 {
        assert(a + b =~= a);
    } else {
        assert((a + b).drop_last() =~= a + b.drop_last());
        lemma_crc_bits_concat(c, a, b.drop_last());
    }
}

/// Eight single-bit updates do what one byte update does.
proof fn lemma_byte_is_eight_bits(c: u16, b: u8)
    ensures
        crc_bits(c, byte_bits(b)) == crc_byte(c, b),
{
    let s = byte_bits(b);
    let c0 = c ^ ((b as u16) << 8);
    let c1 = crc_step(c0);
    let c2 = crc_step(c1);
    let c3 = crc_step(c2);
    let c4 = crc_step(c3);
    let c5 = crc_step(c4);
    let c6 = crc_step(c5);
    let c7 = crc_step(c6);
    let c8 = crc_step(c7);
    reveal_with_fuel(crc_steps, 9);
    assert(crc_byte(c, b) == c8);
    let d1 = crc_bit(c, b & 0x80 != 0);
    let d2 = crc_bit(d1, b & 0x40 != 0);
    let d3 = crc_bit(d2, b & 0x20 != 0);
    let d4 = crc_bit(d3, b & 0x10 != 0);
    let d5 = crc_bit(d4, b & 0x08 != 0);
    let d6 = crc_bit(d5, b & 0x04 != 0);
    let d7 = crc_bit(d6, b & 0x02 != 0);
    let d8 = crc_bit(d7, b & 0x01 != 0);
    assert(crc_bits(c, s) == d8) by {
        reveal_with_fuel(crc_bits, 9);
        assert(s.drop_last() =~= s.take(7));
        assert(s.take(7).drop_last() =~= s.take(6));
        assert(s.take(6).drop_last() =~= s.take(5));
        assert(s.take(5).drop_last() =~= s.take(4));
        assert(s.take(4).drop_last() =~= s.take(3));
        assert(s.take(3).drop_last() =~= s.take(2));
        assert(s.take(2).drop_last() =~= s.take(1));
        assert(s.take(1).drop_last() =~= Seq::empty());
    }
    assert(c8 == d8) by (bit_vector)
        requires
            c0 == c ^ ((b as u16) << 8),
            c1 == crc_step(c0),
            c2 == crc_step(c1),
            c3 == crc_step(c2),
            c4 == crc_step(c3),
            c5 == crc_step(c4),
            c6 == crc_step(c5),
            c7 == crc_step(c6),
            c8 == crc_step(c7),
            d1 == crc_bit(c, b & 0x80 != 0),
            d2 == crc_bit(d1, b & 0x40 != 0),
            d3 == crc_bit(d2, b & 0x20 != 0),
            d4 == crc_bit(d3, b & 0x10 != 0),
            d5 == crc_bit(d4, b & 0x08 != 0),
            d6 == crc_bit(d5, b & 0x04 != 0),
            d7 == crc_bit(d6, b & 0x02 != 0),
            d8 == crc_bit(d7, b & 0x01 != 0),
    ;
}

proof fn lemma_crc_is_bitwise(c: u16, s: Seq<u8>)
    ensures
        crc_from(c, s) == crc_bits(c, bits_of(s)),
    decreases s.len(),
{
    if s.len() > 0 {
        lemma_crc_is_bitwise(c, s.drop_last());
        lemma_crc_bits_concat(c, bits_of(s.drop_last()), byte_bits(s.last()));
        lemma_byte_is_eight_bits(crc_from(c, s.drop_last()), s.last());
    }
}

proof fn lemma_bit_is_linear(c: u16, d: u16, x: bool, y: bool)
    ensures
        crc_bit(c ^ d, x != y) == crc_bit(c, x) ^ crc_bit(d, y),
{
    assert(crc_bit(c ^ d, x != y) == crc_bit(c, x) ^ crc_bit(d, y)) by (bit_vector);
}

/// The register is linear in the bits: what an error adds to it does not depend on the
/// message.
proof fn lemma_bits_are_linear(c: u16, d: u16, a: Seq<bool>, b: Seq<bool>)
    requires
        a.len() == b.len(),
    ensures
        crc_bits(c ^ d, differences(a, b)) == crc_bits(c, a) ^ crc_bits(d, b),
    decreases a.len(),
{
    let e = differences(a, b);
    if a.len() > 0 {
        assert(e.drop_last() =~= differences(a.drop_last(), b.drop_last()));
        lemma_bits_are_linear(c, d, a.drop_last(), b.drop_last());
        lemma_bit_is_linear(
            crc_bits(c, a.drop_last()),
            crc_bits(d, b.drop_last()),
            a.last(),
            b.last(),
        );
    }
}

// ---------------------------------------------------------------------------
// An odd number of bit errors
// ---------------------------------------------------------------------------

/// Whether an odd number of bits is set.
spec fn parity(c: u16) -> bool {
    let c8 = c ^ (c >> 8);
    let c4 = c8 ^ (c8 >> 4);
    let c2 = c4 ^ (c4 >> 2);
    let c1 = c2 ^ (c2 >> 1);
    c1 & 1 == 1
}

/// The generator has an even number of terms, so the register keeps the parity of the
/// bits that went into it.
proof fn lemma_parity(bits: Seq<bool>)
    ensures
        parity(crc_bits(0, bits)) == (weight(bits) % 2 == 1),
    decreases bits.len(),
{
    if bits.len() == 0 {
        assert(!parity(0)) by (bit_vector);
    } else {
        lemma_parity(bits.drop_last());
        let c = crc_bits(0, bits.drop_last());
        let b = bits.last();
        assert(parity(crc_bit(c, b)) == (parity(c) != b)) by (bit_vector);
    }
}

// ---------------------------------------------------------------------------
// Two bit errors
// ---------------------------------------------------------------------------

/// `x` to the power `n` modulo the generator.
spec fn power(n: nat) -> u16 {
    crc_steps(1, n)
}

proof fn lemma_step_injective(a: u16, b: u16)
    requires
        crc_step(a) == crc_step(b),
    ensures
        a == b,
{
    assert(crc_step(a) == crc_step(b) ==> a == b) by (bit_vector);
}

proof fn lemma_equal_powers(a: nat, b: nat)
    requires
        a <= b,
        power(a) == power(b),
    ensures
        power((b - a) as nat) == 1,
    decreases a,
{
    if a > 0 {
        lemma_step_injective(power((a - 1) as nat), power((b - 1) as nat));
        lemma_equal_powers((a - 1) as nat, (b - 1) as nat);
    }
}

proof fn lemma_power_sum(a: nat, b: nat)
    requires
        power(a) == 1,
    ensures
        power(a + b) == power(b),
    decreases b,
{
    if b > 0 {
        lemma_power_sum(a, (b - 1) as nat);
    }
}

proof fn lemma_power_multiple(d: nat, q: nat, r: nat)
    requires
        power(d) == 1,
    ensures
        power(d * q + r) == power(r),
    decreases q,
{
    if q == 0 {
        assert(d * q == 0) by (nonlinear_arith)
            requires
                q == 0,
        ;
    } else {
        assert(d * q + r == d + (d * ((q - 1) as nat) + r)) by (nonlinear_arith)
            requires
                q > 0,
        ;
        lemma_power_multiple(d, (q - 1) as nat, r);
        lemma_power_sum(d, d * ((q - 1) as nat) + r);
    }
}

/// The square of a polynomial modulo the generator: term by term, since cross terms
/// cancel.
spec fn square(c: u16) -> u16 {
    (if c & 0x0001 != 0 { 0x0001u16 } else { 0 })
        ^ (if c & 0x0002 != 0 { 0x0004u16 } else { 0 })
        ^ (if c & 0x0004 != 0 { 0x0010u16 } else { 0 })
        ^ (if c & 0x0008 != 0 { 0x0040u16 } else { 0 })
        ^ (if c & 0x0010 != 0 { 0x0100u16 } else { 0 })
        ^ (if c & 0x0020 != 0 { 0x0400u16 } else { 0 })
        ^ (if c & 0x0040 != 0 { 0x1000u16 } else { 0 })
        ^ (if c & 0x0080 != 0 { 0x4000u16 } else { 0 })
        ^ (if c & 0x0100 != 0 { 0x1021u16 } else { 0 })
        ^ (if c & 0x0200 != 0 { 0x4084u16 } else { 0 })
        ^ (if c & 0x0400 != 0 { 0x1231u16 } else { 0 })
        ^ (if c & 0x0800 != 0 { 0x48C4u16 } else { 0 })
        ^ (if c & 0x1000 != 0 { 0x3331u16 } else { 0 })
        ^ (if c & 0x2000 != 0 { 0xCCC4u16 } else { 0 })
        ^ (if c & 0x4000 != 0 { 0x0373u16 } else { 0 })
        ^ (if c & 0x8000 != 0 { 0x0DCCu16 } else { 0 })
}

proof fn lemma_power_double(n: nat)
    ensures
        power(2 * n) == square(power(n)),
    decreases n,
{
    if n == 0 {
        assert(square(1) == 1) by (bit_vector);
    } else {
        let m = (n - 1) as nat;
        lemma_power_double(m);
        let c = power(m);
        let s = square(c);
        let s1 = crc_step(s);
        let s2 = crc_step(s1);
        assert(square(crc_step(c)) == s2) by (bit_vector)
            requires
                s == square(c),
                s1 == crc_step(s),
                s2 == crc_step(s1),
        ;
        assert(power(2 * n) == crc_step(power((2 * n - 1) as nat)));
        assert(power((2 * n - 1) as nat) == crc_step(power(2 * m)));
    }
}

proof fn lemma_powers_from(n: nat, v: u16)
    requires
        power(n) == v,
    ensures
        power(2 * n) == square(v),
        power(2 * n + 1) == crc_step(square(v)),
{
    lemma_power_double(n);
}

/// The powers that decide the order of `x`.
proof fn lemma_chosen_powers()
    ensures
        power(32767) == 1,
        power(217) != 1,
        power(1057) != 1,
        power(4681) != 1,
{
    assert(crc_step(1) == 0x0002 && square(0x0002) == 0x0004 && square(0x0004) == 0x0010 && square(
        0x0010,
    ) == 0x0100 && square(0x0100) == 0x1021 && square(0x1021) == 0x3730 && square(0x3730) == 0xB861
        && square(0xB861) == 0xAEFC && square(0xAEFC) == 0x8E29 && square(0x8E29) == 0x13FC
        && square(0x13FC) == 0x36C4 && square(0x36C4) == 0xFD50 && square(0xFD50) == 0xAA9E
        && square(0xAA9E) == 0x881C && square(0x881C) == 0x4458 && square(0x4458) == 0x0002)
        by (bit_vector);
    assert(power(0) == 1);
    assert(power(1) == crc_step(power(0)));
    lemma_powers_from(1, 0x0002);
    lemma_powers_from(2, 0x0004);
    lemma_powers_from(4, 0x0010);
    lemma_powers_from(8, 0x0100);
    lemma_powers_from(16, 0x1021);
    lemma_powers_from(32, 0x3730);
    lemma_powers_from(64, 0xB861);
    lemma_powers_from(128, 0xAEFC);
    lemma_powers_from(256, 0x8E29);
    lemma_powers_from(512, 0x13FC);
    lemma_powers_from(1024, 0x36C4);
    lemma_powers_from(2048, 0xFD50);
    lemma_powers_from(4096, 0xAA9E);
    lemma_powers_from(8192, 0x881C);
    lemma_powers_from(16384, 0x4458);
    assert(power(1) == power(32768));
    lemma_equal_powers(1, 32768);
    assert(crc_step(square(0x0002)) == 0x0008 && square(0x0008) == 0x0040 && crc_step(square(0x0040))
        == 0x2000 && crc_step(square(0x2000)) == 0x89A9 && square(0x89A9) == 0x1168 && square(
        0x1168,
    ) == 0x3750 && crc_step(square(0x3750)) == 0x48E3) by (bit_vector);
    lemma_powers_from(3, 0x0008);
    lemma_powers_from(6, 0x0040);
    lemma_powers_from(13, 0x2000);
    lemma_powers_from(27, 0x89A9);
    lemma_powers_from(54, 0x1168);
    lemma_powers_from(108, 0x3750);
    assert(crc_step(square(0x1021)) == 0x6E60 && square(0x6E60) == 0xC1C6 && square(0xC1C6)
        == 0x4E8A && square(0x4E8A) == 0x5946 && square(0x5946) == 0x78B3 && crc_step(
        square(0x78B3),
    ) == 0xF2AF) by (bit_vector);
    lemma_powers_from(33, 0x6E60);
    lemma_powers_from(66, 0xC1C6);
    lemma_powers_from(132, 0x4E8A);
    lemma_powers_from(264, 0x5946);
    lemma_powers_from(528, 0x78B3);
    assert(crc_step(square(0x0010)) == 0x0200 && square(0x0200) == 0x4084 && square(0x4084)
        == 0x4363 && crc_step(square(0x4363)) == 0x8FA6 && square(0x8FA6) == 0x4388 && square(
        0x4388,
    ) == 0x1396 && crc_step(square(0x1396)) == 0x4500 && square(0x4500) == 0x0163 && square(0x0163)
        == 0x0424 && crc_step(square(0x0424)) == 0x2C42) by (bit_vector);
    lemma_powers_from(9, 0x0200);
    lemma_powers_from(18, 0x4084);
    lemma_powers_from(36, 0x4363);
    lemma_powers_from(73, 0x8FA6);
    lemma_powers_from(146, 0x4388);
    lemma_powers_from(292, 0x1396);
    lemma_powers_from(585, 0x4500);
    lemma_powers_from(1170, 0x0163);
    lemma_powers_from(2340, 0x0424);
}

/// The smallest positive exponent, up to `k`, whose power is 1.
proof fn lemma_smallest_period(k: nat, tried: nat) -> (d: nat)
    requires
        0 < k,
        power(k) == 1,
        tried < k,
        forall|j: nat| 0 < j <= tried ==> power(j) != 1,
    ensures
        0 < d <= k,
        power(d) == 1,
        forall|j: nat| 0 < j < d ==> power(j) != 1,
    decreases k - tried,
{
    if power(tried + 1) == 1 {
        tried + 1
    } else {
        lemma_smallest_period(k, tried + 1)
    }
}

/// `x` has order 32767: no smaller power is 1.
proof fn lemma_order(k: nat)
    requires
        0 < k < 32767,
    ensures
        power(k) != 1,
{
    lemma_chosen_powers();
    if power(k) == 1 {
        let d = lemma_smallest_period(k, 0);
        let q = 32767nat / d;
        let r = 32767nat % d;
        assert(d * q + r == 32767 && r < d) by (nonlinear_arith)
            requires
                d > 0,
                q == 32767nat / d,
                r == 32767nat % d,
        ;
        lemma_power_multiple(d, q, r);
        assert(r == 0);
        let e = d as u16;
        assert(0 < e < 32767 && 32767u16 % e == 0 ==> e == 1 || e == 7 || e == 31 || e == 151 || e
            == 217 || e == 1057 || e == 4681) by (bit_vector);
        assert(32767u16 % e == 0);
        if d == 1 || d == 7 || d == 31 || d == 217 {
            lemma_power_multiple(d, 217nat / d, 0);
            assert(power(217) == 1);
        } else if d == 151 || d == 1057 {
            lemma_power_multiple(d, 1057nat / d, 0);
            assert(power(1057) == 1);
        } else {
            assert(d == 4681);
        }
    }
}

proof fn lemma_no_error(bits: Seq<bool>)
    requires
        weight(bits) == 0,
    ensures
        crc_bits(0, bits) == 0,
    decreases bits.len(),
{
    if bits.len() > 0 {
        lemma_no_error(bits.drop_last());
        assert(crc_bit(0, false) == 0) by (bit_vector);
    }
}

/// A bit enters the register as the sixteenth power of `x`.
proof fn lemma_entry_power()
    ensures
        power(16) == crc_bit(0, true),
{
    assert(crc_step(1) == 0x0002 && square(0x0002) == 0x0004 && square(0x0004) == 0x0010 && square(
        0x0010,
    ) == 0x0100 && square(0x0100) == 0x1021 && crc_bit(0, true) == 0x1021) by (bit_vector);
    assert(power(0) == 1);
    assert(power(1) == crc_step(power(0)));
    lemma_powers_from(1, 0x0002);
    lemma_powers_from(2, 0x0004);
    lemma_powers_from(4, 0x0010);
    lemma_powers_from(8, 0x0100);
}

proof fn lemma_one_error(bits: Seq<bool>) -> (p: nat)
    requires
        weight(bits) == 1,
    ensures
        p < bits.len(),
        crc_bits(0, bits) == power(p + 16),
    decreases bits.len(),
{
    if bits.last() {
        lemma_no_error(bits.drop_last());
        lemma_entry_power();
        0
    } else {
        let p = lemma_one_error(bits.drop_last());
        let c = power(p + 16);
        assert(crc_bit(c, false) == crc_step(c)) by (bit_vector);
        assert(power(p + 17) == crc_step(c));
        p + 1
    }
}

proof fn lemma_two_errors(bits: Seq<bool>) -> (r: (nat, nat))
    requires
        weight(bits) == 2,
    ensures
        r.1 < r.0 < bits.len(),
        crc_bits(0, bits) == power(r.0 + 16) ^ power(r.1 + 16),
    decreases bits.len(),
{
    if bits.last() {
        let rest = bits.drop_last();
        let p = lemma_one_error(rest);
        lemma_entry_power();
        let c = power(p + 16);
        let d = power(16);
        assert(crc_bit(c, true) == crc_step(c) ^ d) by (bit_vector)
            requires
                d == crc_bit(0, true),
        ;
        assert(power(p + 17) == crc_step(c));
        (p + 1, 0)
    } else {
        let (p, q) = lemma_two_errors(bits.drop_last());
        let c = power(p + 16);
        let d = power(q + 16);
        assert(crc_bit(c ^ d, false) == crc_step(c) ^ crc_step(d)) by (bit_vector);
        assert(power(p + 17) == crc_step(c));
        assert(power(q + 17) == crc_step(d));
        (p + 1, q + 1)
    }
}

// ---------------------------------------------------------------------------
// The strength of the checksum
// ---------------------------------------------------------------------------

proof fn lemma_codeword_register(c: u16, crc: u16)
    ensures
        crc_from(c, seq![(crc >> 8) as u8, (crc & 0xFF) as u8]) == 0 <==> c == crc,
{
    let hi = (crc >> 8) as u8;
    let lo = (crc & 0xFF) as u8;
    let s = seq![hi, lo];
    assert(s.drop_last() =~= seq![hi]);
    assert(seq![hi].drop_last() =~= Seq::empty());
    reveal_with_fuel(crc_from, 3);
    reveal_with_fuel(crc_steps, 9);
    let a0 = c ^ ((hi as u16) << 8);
    let a1 = crc_step(a0);
    let a2 = crc_step(a1);
    let a3 = crc_step(a2);
    let a4 = crc_step(a3);
    let a5 = crc_step(a4);
    let a6 = crc_step(a5);
    let a7 = crc_step(a6);
    let a8 = crc_step(a7);
    let b0 = a8 ^ ((lo as u16) << 8);
    let b1 = crc_step(b0);
    let b2 = crc_step(b1);
    let b3 = crc_step(b2);
    let b4 = crc_step(b3);
    let b5 = crc_step(b4);
    let b6 = crc_step(b5);
    let b7 = crc_step(b6);
    let b8 = crc_step(b7);
    assert(crc_from(c, s) == b8);
    assert(b8 == 0 <==> c == crc) by (bit_vector)
        requires
            hi == (crc >> 8) as u8,
            lo == (crc & 0xFF) as u8,
            a0 == c ^ ((hi as u16) << 8),
            a1 == crc_step(a0),
            a2 == crc_step(a1),
            a3 == crc_step(a2),
            a4 == crc_step(a3),
            a5 == crc_step(a4),
            a6 == crc_step(a5),
            a7 == crc_step(a6),
            a8 == crc_step(a7),
            b0 == a8 ^ ((lo as u16) << 8),
            b1 == crc_step(b0),
            b2 == crc_step(b1),
            b3 == crc_step(b2),
            b4 == crc_step(b3),
            b5 == crc_step(b4),
            b6 == crc_step(b5),
            b7 == crc_step(b6),
            b8 == crc_step(b7),
    ;
}

proof fn lemma_steps_injective(a: u16, b: u16, n: nat)
    requires
        a != b,
    ensures
        crc_steps(a, n) != crc_steps(b, n),
    decreases n,
{
    if n > 0 {
        let m = (n - 1) as nat;
        lemma_steps_injective(a, b, m);
        if crc_steps(a, n) == crc_steps(b, n) {
            lemma_step_injective(crc_steps(a, m), crc_steps(b, m));
        }
    }
}

/// A single wrong byte always changes the checksum, from any register and in a message
/// of any length.
pub proof fn crc_detects_a_wrong_byte(c: u16, data: Seq<u8>, i: int, b: u8)
    requires
        0 <= i < data.len(),
        b != data[i],
    ensures
        crc_from(c, data.update(i, b)) != crc_from(c, data),
    decreases data.len(),
{
    let bad = data.update(i, b);
    let x = crc_from(c, data.drop_last());
    let y = crc_from(c, bad.drop_last());
    if i == data.len() - 1 {
        assert(bad.drop_last() =~= data.drop_last());
        let d = data[i];
        assert(b != d ==> x ^ ((b as u16) << 8) != x ^ ((d as u16) << 8)) by (bit_vector);
        lemma_steps_injective(x ^ ((b as u16) << 8), x ^ ((d as u16) << 8), 8);
    } else {
        assert(bad.drop_last() =~= data.drop_last().update(i, b));
        crc_detects_a_wrong_byte(c, data.drop_last(), i, b);
        let d = data.last();
        assert(x != y ==> x ^ ((d as u16) << 8) != y ^ ((d as u16) << 8)) by (bit_vector);
        lemma_steps_injective(x ^ ((d as u16) << 8), y ^ ((d as u16) << 8), 8);
    }
}

/// Different registers stay different behind the same bytes.
proof fn lemma_from_injective(x: u16, y: u16, data: Seq<u8>)
    requires
        x != y,
    ensures
        crc_from(x, data) != crc_from(y, data),
    decreases data.len(),
{
    if data.len() > 0 {
        lemma_from_injective(x, y, data.drop_last());
        let u = crc_from(x, data.drop_last());
        let v = crc_from(y, data.drop_last());
        let d = data.last();
        assert(u != v ==> u ^ ((d as u16) << 8) != v ^ ((d as u16) << 8)) by (bit_vector);
        lemma_steps_injective(u ^ ((d as u16) << 8), v ^ ((d as u16) << 8), 8);
    }
}

/// The byte that went in last shows in the low half of the register.
proof fn lemma_low_half(c: u16, a: u8, b: u8)
    requires
        a != b,
    ensures
        crc_byte(c, a) & 0xFF != crc_byte(c, b) & 0xFF,
{
    reveal_with_fuel(crc_steps, 9);
    let a0 = c ^ ((a as u16) << 8);
    let a1 = crc_step(a0);
    let a2 = crc_step(a1);
    let a3 = crc_step(a2);
    let a4 = crc_step(a3);
    let a5 = crc_step(a4);
    let a6 = crc_step(a5);
    let a7 = crc_step(a6);
    let a8 = crc_step(a7);
    let b0 = c ^ ((b as u16) << 8);
    let b1 = crc_step(b0);
    let b2 = crc_step(b1);
    let b3 = crc_step(b2);
    let b4 = crc_step(b3);
    let b5 = crc_step(b4);
    let b6 = crc_step(b5);
    let b7 = crc_step(b6);
    let b8 = crc_step(b7);
    assert(a != b ==> a8 & 0xFF != b8 & 0xFF) by (bit_vector)
        requires
            a0 == c ^ ((a as u16) << 8),
            a1 == crc_step(a0),
            a2 == crc_step(a1),
            a3 == crc_step(a2),
            a4 == crc_step(a3),
            a5 == crc_step(a4),
            a6 == crc_step(a5),
            a7 == crc_step(a6),
            a8 == crc_step(a7),
            b0 == c ^ ((b as u16) << 8),
            b1 == crc_step(b0),
            b2 == crc_step(b1),
            b3 == crc_step(b2),
            b4 == crc_step(b3),
            b5 == crc_step(b4),
            b6 == crc_step(b5),
            b7 == crc_step(b6),
            b8 == crc_step(b7),
    ;
}

/// Two bytes in a row lead from one register to a register of their own.
proof fn lemma_two_bytes(c: u16, a1: u8, a2: u8, b1: u8, b2: u8)
    requires
        a1 != b1 || a2 != b2,
    ensures
        crc_byte(crc_byte(c, a1), a2) != crc_byte(crc_byte(c, b1), b2),
{
    let u = crc_byte(c, a1);
    let v = crc_byte(c, b1);
    if a1 != b1 {
        lemma_low_half(c, a1, b1);
    }
    assert((u & 0xFF != v & 0xFF) || (u == v && a2 != b2) ==> u ^ ((a2 as u16) << 8) != v ^ ((
    b2 as u16) << 8)) by (bit_vector);
    lemma_steps_injective(u ^ ((a2 as u16) << 8), v ^ ((b2 as u16) << 8), 8);
}

/// Errors in two neighbouring bytes always change the checksum, from any register and in a
/// message of any length.
pub proof fn crc_detects_two_neighbouring_bytes(c: u16, data: Seq<u8>, received: Seq<u8>, i: int)
    requires
        received.len() == data.len(),
        0 <= i < data.len() - 1,
        received[i] != data[i] || received[i + 1] != data[i + 1],
        forall|k: int|
            0 <= k < data.len() && k != i && k != i + 1 ==> #[trigger] received[k] == data[k],
    ensures
        crc_from(c, received) != crc_from(c, data),
{
    let front = data.take(i);
    let back = data.skip(i + 2);
    let right = seq![data[i], data[i + 1]];
    let wrong = seq![received[i], received[i + 1]];
    assert(data =~= front + right + back);
    assert(received =~= front + wrong + back);
    let x = crc_from(c, front);
    crc_of_concatenation(c, front + right, back);
    crc_of_concatenation(c, front + wrong, back);
    crc_of_concatenation(c, front, right);
    crc_of_concatenation(c, front, wrong);
    reveal_with_fuel(crc_from, 3);
    assert(right.drop_last() =~= seq![data[i]]);
    assert(wrong.drop_last() =~= seq![received[i]]);
    assert(seq![data[i]].drop_last() =~= Seq::empty());
    assert(seq![received[i]].drop_last() =~= Seq::empty());
    lemma_two_bytes(x, data[i], data[i + 1], received[i], received[i + 1]);
    lemma_from_injective(crc_from(x, right), crc_from(x, wrong), back);
}

/// The checksum has a Hamming distance of at least 4: where a message and its checksum,
/// together at most 32767 bits, are received with one, two or three wrong bits, the
/// received checksum is not that of the received message.
pub proof fn crc_detects_up_to_three_bit_errors(data: Seq<u8>, received: Seq<u8>, received_crc: u16)
    requires
        received.len() == data.len(),
        8 * (data.len() + 2) <= 32767,
        1 <= bit_errors(codeword(data, crc16(data)), codeword(received, received_crc)) <= 3,
    ensures
        crc16(received) != received_crc,
{
    let sent = codeword(data, crc16(data));
    let got = codeword(received, received_crc);
    let a = bits_of(sent);
    let b = bits_of(got);
    let e = differences(a, b);
    lemma_bits_len(sent);
    lemma_bits_len(got);
    lemma_crc_is_bitwise(INIT, sent);
    lemma_crc_is_bitwise(INIT, got);
    lemma_bits_are_linear(INIT, INIT, a, b);
    crc_of_concatenation(INIT, data, seq![(crc16(data) >> 8) as u8, (crc16(data) & 0xFF) as u8]);
    crc_of_concatenation(
        INIT,
        received,
        seq![(received_crc >> 8) as u8, (received_crc & 0xFF) as u8],
    );
    lemma_codeword_register(crc16(data), crc16(data));
    lemma_codeword_register(crc16(received), received_crc);
    let s = crc_bits(0, e);
    let t = crc_from(INIT, got);
    assert(0xFFFFu16 ^ 0xFFFF == 0 && 0 ^ t == t) by (bit_vector);
    assert(s == t);
    if weight(e) == 2 {
        let (p, q) = lemma_two_errors(e);
        let u = power(p + 16);
        let v = power(q + 16);
        assert(u ^ v == 0 ==> u == v) by (bit_vector);
        if s == 0 {
            lemma_equal_powers(q + 16, p + 16);
            lemma_order((p - q) as nat);
        }
    } else {
        lemma_parity(e);
        assert(!parity(0)) by (bit_vector);
    }
}

} // verus!
