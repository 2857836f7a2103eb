use vstd::prelude::*;

verus! {

/// The reflected CRC-32 (IEEE 802.3) polynomial.
pub open spec fn crc_poly() -> u32 {
    0xEDB88320u32
}

/// One bit step of the reflected CRC register.
pub open spec fn crc_bit_step(c: u32) -> u32 {
    if c & 1u32 == 1u32 {
        (c >> 1u32) ^ 0xEDB88320u32
    } else {
        c >> 1u32
    }
}

/// The register after taking in one byte: the byte XOR-ed into the low end,
/// then eight bit steps.
pub open spec fn crc_byte(c: u32, b: u8) -> u32 {
    crc_bit_step(
        crc_bit_step(
            crc_bit_step(
                crc_bit_step(
                    crc_bit_step(crc_bit_step(crc_bit_step(crc_bit_step(c ^ (b as u32))))),
                ),
            ),
        ),
    )
}

/// The register after taking in a byte string, front to back.
pub open spec fn crc_update(c: u32, data: Seq<u8>) -> u32
    decreases data.len(),
{
    if data.len() == 0 {
        c
    } else {
        crc_update(crc_byte(c, data[0]), data.skip(1))
    }
}

/// CRC-32 (IEEE, as in zlib and PNG): the register starts at all ones, takes
/// in the bytes, and is complemented at the end.
pub open spec fn crc32_of(data: Seq<u8>) -> u32 {
    crc_update(0xFFFFFFFFu32, data) ^ 0xFFFFFFFFu32
}

/// `crc32fast::hash`: the CRC-32 (IEEE) of `data`.
#[verifier::external_body]
pub(crate) fn crc32(data: &[u8]) -> (r: u32)
    ensures
        r == crc32_of(data@),
{
    crc32fast::hash(data)
}

/// A bit step loses nothing: different registers step to different registers.
proof fn lemma_bit_step_injective(x: u32, y: u32)
    requires
        crc_bit_step(x) == crc_bit_step(y),
    ensures
        x == y,
{
    assert((if x & 1u32 == 1u32 {
        (x >> 1u32) ^ 0xEDB88320u32
    } else {
        x >> 1u32
    }) == (if y & 1u32 == 1u32 {
        (y >> 1u32) ^ 0xEDB88320u32
    } else {
        y >> 1u32
    }) ==> x == y) by (bit_vector);
}

/// Taking in a byte loses nothing: the register after it determines the
/// register and byte XOR-ed together before it.
proof fn lemma_crc_byte_injective(c1: u32, b1: u8, c2: u32, b2: u8)
    requires
        crc_byte(c1, b1) == crc_byte(c2, b2),
    ensures
        c1 ^ (b1 as u32) == c2 ^ (b2 as u32),
{
    let x = c1 ^ (b1 as u32);
    let y = c2 ^ (b2 as u32);
    let x1 = crc_bit_step(x);
    let y1 = crc_bit_step(y);
    let x2 = crc_bit_step(x1);
    let y2 = crc_bit_step(y1);
    let x3 = crc_bit_step(x2);
    let y3 = crc_bit_step(y2);
    let x4 = crc_bit_step(x3);
    let y4 = crc_bit_step(y3);
    let x5 = crc_bit_step(x4);
    let y5 = crc_bit_step(y4);
    let x6 = crc_bit_step(x5);
    let y6 = crc_bit_step(y5);
    let x7 = crc_bit_step(x6);
    let y7 = crc_bit_step(y6);
    lemma_bit_step_injective(x7, y7);
    lemma_bit_step_injective(x6, y6);
    lemma_bit_step_injective(x5, y5);
    lemma_bit_step_injective(x4, y4);
    lemma_bit_step_injective(x3, y3);
    lemma_bit_step_injective(x2, y2);
    lemma_bit_step_injective(x1, y1);
    lemma_bit_step_injective(x, y);
}

/// Over the same bytes, different registers stay different.
proof fn lemma_crc_update_injective(d1: u32, d2: u32, s: Seq<u8>)
    requires
        crc_update(d1, s) == crc_update(d2, s),
    ensures
        d1 == d2,
    decreases s.len(),
{
    if s.len() > 0 {
        lemma_crc_update_injective(crc_byte(d1, s[0]), crc_byte(d2, s[0]), s.skip(1));
        lemma_crc_byte_injective(d1, s[0], d2, s[0]);
        let b = s[0] as u32;
        assert(d1 ^ b == d2 ^ b ==> d1 == d2) by (bit_vector);
    }
}

/// From the same register, byte strings of equal length that differ in
/// exactly one byte leave different registers.
proof fn lemma_crc_update_one_byte(c: u32, a: Seq<u8>, b: Seq<u8>, k: int)
    requires
        a.len() == b.len(),
        0 <= k < a.len(),
        a[k] != b[k],
        forall|j: int| 0 <= j < a.len() && j != k ==> a[j] == b[j],
    ensures
        crc_update(c, a) != crc_update(c, b),
    decreases k,
{
    if k == 0 {
        if crc_update(c, a) == crc_update(c, b) {
            assert(a.skip(1) =~= b.skip(1));
            lemma_crc_update_injective(crc_byte(c, a[0]), crc_byte(c, b[0]), a.skip(1));
            lemma_crc_byte_injective(c, a[0], c, b[0]);
            let x = a[0];
            let y = b[0];
            assert(c ^ (x as u32) == c ^ (y as u32) ==> x == y) by (bit_vector);
        }
    } else {
        assert(a[0] == b[0]);
        lemma_crc_update_one_byte(crc_byte(c, a[0]), a.skip(1), b.skip(1), k - 1);
    }
}

/// CRC-32 catches any change confined to one byte: byte strings of equal
/// length that differ in exactly one byte have different checksums.
pub proof fn law_crc32_one_byte(a: Seq<u8>, b: Seq<u8>, k: int)
    requires
        a.len() == b.len(),
        0 <= k < a.len(),
        a[k] != b[k],
        forall|j: int| 0 <= j < a.len() && j != k ==> a[j] == b[j],
    ensures
        crc32_of(a) != crc32_of(b),
{
    lemma_crc_update_one_byte(0xFFFFFFFFu32, a, b, k);
    let x = crc_update(0xFFFFFFFFu32, a);
    let y = crc_update(0xFFFFFFFFu32, b);
    assert(x != y ==> x ^ 0xFFFFFFFFu32 != y ^ 0xFFFFFFFFu32) by (bit_vector);
}

} // verus!
