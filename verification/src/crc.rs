//! The 8-bit checksum that guards every word on the sensor bus.

use vstd::prelude::*;

verus! {

/// The generator polynomial of the sensor's checksum (x^8 + x^5 + x^4 + 1).
pub const POLYNOMIAL: u8 = 0x31;

/// The value the checksum register holds before the first byte.
pub const INITIAL: u8 = 0xff;

/// One shift of the checksum register: the top bit leaves, and the polynomial
/// is folded in when that bit was set.
pub open spec fn crc8_shift(poly: u8, v: u8) -> u8 {
    if v & 0x80 == 0 {
        v << 1
    } else {
        (v << 1) ^ poly
    }
}

/// Eight shifts: what the register becomes once a whole byte has gone through.
pub open spec fn crc8_byte(poly: u8, v: u8) -> u8 {
    crc8_shift(
        poly,
        crc8_shift(
            poly,
            crc8_shift(
                poly,
                crc8_shift(
                    poly,
                    crc8_shift(poly, crc8_shift(poly, crc8_shift(poly, crc8_shift(poly, v)))),
                ),
            ),
        ),
    )
}

/// The register after `data` has been fed, byte by byte, into a register that
/// started at `sum`: no reflection, no final XOR.
pub open spec fn crc8_fold(poly: u8, sum: u8, data: Seq<u8>) -> u8
    decreases data.len(),
{
    if data.len() == 0 {
        sum
    } else {
        crc8_byte(poly, crc8_fold(poly, sum, data.drop_last()) ^ data.last())
    }
}

/// The sensor's checksum of `data`.
pub open spec fn crc8(data: Seq<u8>) -> u8 {
    crc8_fold(POLYNOMIAL, INITIAL, data)
}

/// Runs `crc_any::CRCu8` (`create_crc`, `digest`, `get_crc`) as a plain 8-bit
/// CRC without reflection and without a final XOR. Trusted: the result is the
/// register that `crc8_fold` describes, which is what the crate's table-driven
/// digest computes for these settings.
#[verifier::external_body]
fn digest_crc8(poly: u8, initial: u8, data: &[u8]) -> (sum: u8)
    ensures
        sum == crc8_fold(poly, initial, data@),
{
    let mut crc = crc_any::CRCu8::create_crc(poly, 8, initial, 0x00, false);
    crc.digest(data);
    crc.get_crc()
}

/// Computes the sensor's checksum of `bytes`.
pub fn compute_crc(bytes: &[u8]) -> (crc: u8)
    ensures
        crc == crc8(bytes@),
{
    digest_crc8(POLYNOMIAL, INITIAL, bytes)
}

proof fn lemma_shift_injective(poly: u8, a: u8, b: u8)
    requires
        poly & 1 == 1,
        a != b,
    ensures
        crc8_shift(poly, a) != crc8_shift(poly, b),
{
    assert(poly & 1 == 1 && a != b ==> (if a & 0x80 == 0 {
        a << 1
    } else {
        (a << 1) ^ poly
    }) != (if b & 0x80 == 0 {
        b << 1
    } else {
        (b << 1) ^ poly
    })) by (bit_vector);
}

proof fn lemma_byte_injective(poly: u8, a: u8, b: u8)
    requires
        poly & 1 == 1,
        a != b,
    ensures
        crc8_byte(poly, a) != crc8_byte(poly, b),
{
    let a1 = crc8_shift(poly, a);
    let b1 = crc8_shift(poly, b);
    lemma_shift_injective(poly, a, b);
    let a2 = crc8_shift(poly, a1);
    let b2 = crc8_shift(poly, b1);
    lemma_shift_injective(poly, a1, b1);
    let a3 = crc8_shift(poly, a2);
    let b3 = crc8_shift(poly, b2);
    lemma_shift_injective(poly, a2, b2);
    let a4 = crc8_shift(poly, a3);
    let b4 = crc8_shift(poly, b3);
    lemma_shift_injective(poly, a3, b3);
    let a5 = crc8_shift(poly, a4);
    let b5 = crc8_shift(poly, b4);
    lemma_shift_injective(poly, a4, b4);
    let a6 = crc8_shift(poly, a5);
    let b6 = crc8_shift(poly, b5);
    lemma_shift_injective(poly, a5, b5);
    let a7 = crc8_shift(poly, a6);
    let b7 = crc8_shift(poly, b6);
    lemma_shift_injective(poly, a6, b6);
    lemma_shift_injective(poly, a7, b7);
}

proof fn lemma_xor_injective(a: u8, b: u8, c: u8)
    requires
        a != b,
    ensures
        a ^ c != b ^ c,
        c ^ a != c ^ b,
{
    assert(a != b ==> a ^ c != b ^ c && c ^ a != c ^ b) by (bit_vector);
}

/// Two registers that differ before a run of bytes still differ after it.
proof fn lemma_fold_keeps_difference(poly: u8, s1: u8, s2: u8, data: Seq<u8>)
    requires
        poly & 1 == 1,
        s1 != s2,
    ensures
        crc8_fold(poly, s1, data) != crc8_fold(poly, s2, data),
    decreases data.len(),
{
    if data.len() > 0 {
        lemma_fold_keeps_difference(poly, s1, s2, data.drop_last());
        let r1 = crc8_fold(poly, s1, data.drop_last());
        let r2 = crc8_fold(poly, s2, data.drop_last());
        lemma_xor_injective(r1, r2, data.last());
        lemma_byte_injective(poly, r1 ^ data.last(), r2 ^ data.last());
    }
}

proof fn lemma_fold_detects_changed_byte(poly: u8, sum: u8, data: Seq<u8>, i: int, byte: u8)
    requires
        poly & 1 == 1,
        0 <= i < data.len(),
        byte != data[i],
    ensures
        crc8_fold(poly, sum, data.update(i, byte)) != crc8_fold(poly, sum, data),
    decreases data.len(),
{
    let changed = data.update(i, byte);
    if i == data.len() - 1 {
        assert(changed.drop_last() =~= data.drop_last());
        let r = crc8_fold(poly, sum, data.drop_last());
        lemma_xor_injective(byte, data[i], r);
        lemma_byte_injective(poly, r ^ byte, r ^ data[i]);
    } else {
        assert(changed.drop_last() =~= data.drop_last().update(i, byte));
        lemma_fold_detects_changed_byte(poly, sum, data.drop_last(), i, byte);
        let r1 = crc8_fold(poly, sum, changed.drop_last());
        let r2 = crc8_fold(poly, sum, data.drop_last());
        lemma_xor_injective(r1, r2, data.last());
        lemma_byte_injective(poly, r1 ^ data.last(), r2 ^ data.last());
    }
}

/// Replacing one byte of a message by any other value changes its checksum.
pub proof fn lemma_crc8_detects_changed_byte(data: Seq<u8>, i: int, byte: u8)
    requires
        0 <= i < data.len(),
        byte != data[i],
    ensures
        crc8(data.update(i, byte)) != crc8(data),
{
    assert(POLYNOMIAL & 1 == 1) by (bit_vector);
    lemma_fold_detects_changed_byte(POLYNOMIAL, INITIAL, data, i, byte);
}

/// Flipping any single bit of a message changes its checksum.
pub proof fn lemma_crc8_detects_bit_flip(data: Seq<u8>, i: int, bit: u8)
    requires
        0 <= i < data.len(),
        bit < 8,
    ensures
        crc8(data.update(i, data[i] ^ (1u8 << bit))) != crc8(data),
{
    let b = data[i];
    assert(bit < 8 ==> b ^ (1u8 << bit) != b) by (bit_vector);
    lemma_crc8_detects_changed_byte(data, i, b ^ (1u8 << bit));
}

/// The checksum of the two bytes `BE EF` is `92`.
pub proof fn lemma_crc8_reference_vector()
    ensures
        crc8(seq![0xbeu8, 0xefu8]) == 0x92,
{
    let data = seq![0xbeu8, 0xefu8];
    assert(data.drop_last() =~= seq![0xbeu8]);
    assert(data.drop_last().drop_last() =~= Seq::<u8>::empty());
    assert(crc8_fold(POLYNOMIAL, INITIAL, Seq::<u8>::empty()) == 0xff);
    assert(0xffu8 ^ 0xbeu8 == 0x41u8) by (bit_vector);
    assert({
        let v0: u8 = 0x41;
        let v1: u8 = if v0 & 0x80 == 0 {
            v0 << 1
        } else {
            (v0 << 1) ^ 0x31
        };
        let v2: u8 = if v1 & 0x80 == 0 {
            v1 << 1
        } else {
            (v1 << 1) ^ 0x31
        };
        let v3: u8 = if v2 & 0x80 == 0 {
            v2 << 1
        } else {
            (v2 << 1) ^ 0x31
        };
        let v4: u8 = if v3 & 0x80 == 0 {
            v3 << 1
        } else {
            (v3 << 1) ^ 0x31
        };
        let v5: u8 = if v4 & 0x80 == 0 {
            v4 << 1
        } else {
            (v4 << 1) ^ 0x31
        };
        let v6: u8 = if v5 & 0x80 == 0 {
            v5 << 1
        } else {
            (v5 << 1) ^ 0x31
        };
        let v7: u8 = if v6 & 0x80 == 0 {
            v6 << 1
        } else {
            (v6 << 1) ^ 0x31
        };
        let v8: u8 = if v7 & 0x80 == 0 {
            v7 << 1
        } else {
            (v7 << 1) ^ 0x31
        };
        v8 == 0x0c
    }) by (bit_vector);
    assert(crc8_byte(POLYNOMIAL, 0x41) == 0x0c);
    assert(crc8_fold(POLYNOMIAL, INITIAL, seq![0xbeu8]) == 0x0c);
    assert(0x0cu8 ^ 0xefu8 == 0xe3u8) by (bit_vector);
    assert({
        let v0: u8 = 0xe3;
        let v1: u8 = if v0 & 0x80 == 0 {
            v0 << 1
        } else {
            (v0 << 1) ^ 0x31
        };
        let v2: u8 = if v1 & 0x80 == 0 {
            v1 << 1
        } else {
            (v1 << 1) ^ 0x31
        };
        let v3: u8 = if v2 & 0x80 == 0 {
            v2 << 1
        } else {
            (v2 << 1) ^ 0x31
        };
        let v4: u8 = if v3 & 0x80 == 0 {
            v3 << 1
        } else {
            (v3 << 1) ^ 0x31
        };
        let v5: u8 = if v4 & 0x80 == 0 {
            v4 << 1
        } else {
            (v4 << 1) ^ 0x31
        };
        let v6: u8 = if v5 & 0x80 == 0 {
            v5 << 1
        } else {
            (v5 << 1) ^ 0x31
        };
        let v7: u8 = if v6 & 0x80 == 0 {
            v6 << 1
        } else {
            (v6 << 1) ^ 0x31
        };
        let v8: u8 = if v7 & 0x80 == 0 {
            v7 << 1
        } else {
            (v7 << 1) ^ 0x31
        };
        v8 == 0x92
    }) by (bit_vector);
    assert(crc8_byte(POLYNOMIAL, 0xe3) == 0x92);
}

} // verus!
