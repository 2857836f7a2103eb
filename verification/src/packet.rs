use vstd::prelude::*;
use crate::crc::{crc32, crc32_of, law_crc32_one_byte};
use crate::text::{decimal_of, push_decimal};

verus! {

/// The eight bytes "STEGSTR1" that open every packet.
pub open spec fn magic() -> Seq<u8> {
    seq![0x53u8, 0x54u8, 0x45u8, 0x47u8, 0x53u8, 0x54u8, 0x52u8, 0x31u8]
}

/// The packet format version written and accepted.
pub const VERSION: u8 = 1;

/// The largest body a packet can carry (its length field has 16 bits).
pub const MAX_BODY: usize = 65535;

/// Flag bit that marks a body as XOR-encrypted with the open-mode key.
pub const FLAG_ENCRYPTED: u8 = 1;

/// Big-endian bytes of a 16-bit number.
pub open spec fn be16_bytes(n: u16) -> Seq<u8> {
    seq![(n >> 8u16) as u8, n as u8]
}

/// The 16-bit number with big-endian bytes `hi`, `lo`.
pub open spec fn be16_value(hi: u8, lo: u8) -> u16 {
    ((hi as u16) << 8u16) | (lo as u16)
}

/// Big-endian bytes of a 32-bit number.
pub open spec fn be32_bytes(n: u32) -> Seq<u8> {
    seq![(n >> 24u32) as u8, (n >> 16u32) as u8, (n >> 8u32) as u8, n as u8]
}

/// The 32-bit number with big-endian bytes `a`, `b`, `c`, `d`.
pub open spec fn be32_value(a: u8, b: u8, c: u8, d: u8) -> u32 {
    ((a as u32) << 24u32) | ((b as u32) << 16u32) | ((c as u32) << 8u32) | (d as u32)
}

/// The flags byte written for a body that is, or is not, encrypted.
pub open spec fn flags_byte(encrypted: bool) -> u8 {
    if encrypted {
        FLAG_ENCRYPTED
    } else {
        0u8
    }
}

/// Magic, version, flags and the big-endian body length, then the body.
pub open spec fn unsealed_packet(body: Seq<u8>, encrypted: bool) -> Seq<u8> {
    magic() + seq![VERSION, flags_byte(encrypted)] + be16_bytes(body.len() as u16) + body
}

/// The packet for a body: the unsealed packet followed by the big-endian CRC-32
/// of the unsealed packet.
pub open spec fn packet_of(body: Seq<u8>, encrypted: bool) -> Seq<u8> {
    unsealed_packet(body, encrypted) + be32_bytes(crc32_of(unsealed_packet(body, encrypted)))
}

/// Why a body cannot be packed.
#[derive(Debug, Clone, Copy, PartialEq, Eq, Structural)]
pub enum PackError {
    /// The body is longer than 65535 bytes.
    TooLarge,
}

/// Why a byte string is not a valid packet.
#[derive(Debug, Clone, Copy, PartialEq, Eq, Structural)]
pub enum UnpackError {
    /// Fewer than 16 bytes.
    TooShort,
    /// The first eight bytes are not "STEGSTR1".
    BadMagic,
    /// The version byte is not 1; it carries the byte found.
    UnsupportedVersion(u8),
    /// The length field announces more body than there is.
    Truncated,
    /// The stored CRC does not match the CRC of the header and body.
    CrcMismatch,
}

/// The message shown for a body that cannot be packed.
pub open spec fn pack_error_text(e: PackError) -> Seq<char> {
    match e {
        PackError::TooLarge => "payload exceeds 65535 bytes"@,
    }
}

/// The message shown for a byte string that is not a valid packet.
pub open spec fn unpack_error_text(e: UnpackError) -> Seq<char> {
    match e {
        UnpackError::TooShort => "no Stegstr payload found (packet too short)"@,
        UnpackError::BadMagic => "no Stegstr payload found (bad magic)"@,
        UnpackError::UnsupportedVersion(v) => "unsupported payload version "@ + decimal_of(
            v as nat,
        ),
        UnpackError::Truncated => "truncated Stegstr payload"@,
        UnpackError::CrcMismatch => "payload CRC mismatch — image may have been processed too aggressively, or this is not a Stegstr Robust image"@,
    }
}

impl PackError {
    /// The message shown for this error.
    pub fn message(&self) -> (r: String)
        ensures
            r@ == pack_error_text(*self),
    {
        match self {
            PackError::TooLarge => String::from_str("payload exceeds 65535 bytes"),
        }
    }
}

impl UnpackError {
    /// The message shown for this error.
    pub fn message(&self) -> (r: String)
        ensures
            r@ == unpack_error_text(*self),
    {
        match self {
            UnpackError::TooShort => String::from_str("no Stegstr payload found (packet too short)"),
            UnpackError::BadMagic => String::from_str("no Stegstr payload found (bad magic)"),
            UnpackError::UnsupportedVersion(v) => {
                let mut s = String::from_str("unsupported payload version ");
                push_decimal(&mut s, *v as u64);
                s
            },
            UnpackError::Truncated => String::from_str("truncated Stegstr payload"),
            UnpackError::CrcMismatch => String::from_str(
                "payload CRC mismatch — image may have been processed too aggressively, or this is not a Stegstr Robust image",
            ),
        }
    }
}

/// The body length announced by a packet's header.
pub open spec fn announced_len(p: Seq<u8>) -> int {
    be16_value(p[10], p[11]) as int
}

/// The CRC stored after a body of `len` bytes.
pub open spec fn stored_crc(p: Seq<u8>, len: int) -> u32 {
    be32_value(p[12 + len], p[13 + len], p[14 + len], p[15 + len])
}

/// What the header checks decide, before the CRC: the announced body length,
/// or the error.
pub open spec fn header_check(p: Seq<u8>) -> Result<int, UnpackError> {
    if p.len() < 16 {
        Err(UnpackError::TooShort)
    } else if p.take(8) != magic() {
        Err(UnpackError::BadMagic)
    } else if p[8] != VERSION {
        Err(UnpackError::UnsupportedVersion(p[8]))
    } else if p.len() < 16 + announced_len(p) {
        Err(UnpackError::Truncated)
    } else {
        Ok(announced_len(p))
    }
}

/// What the CRC check decides for a packet with a body of `len` bytes, given
/// the CRC-32 `crc` of its first `12 + len` bytes: the flags and the body, or
/// the mismatch.
pub open spec fn crc_check(p: Seq<u8>, len: int, crc: u32) -> Result<(u8, Seq<u8>), UnpackError> {
    if crc != stored_crc(p, len) {
        Err(UnpackError::CrcMismatch)
    } else {
        Ok((p[9], p.subrange(12, 12 + len)))
    }
}

/// What unpacking a byte string gives: its flags and body, or the first check
/// that fails. Bytes after the CRC are ignored.
pub open spec fn unpack_of(p: Seq<u8>) -> Result<(u8, Seq<u8>), UnpackError> {
    match header_check(p) {
        Err(e) => Err(e),
        Ok(len) => crc_check(p, len, crc32_of(p.take(12 + len))),
    }
}

/// Whether `s` starts with "STEGSTR1".
pub fn has_magic(s: &[u8]) -> (r: bool)
    ensures
        r == (s@.len() >= 8 && s@.take(8) == magic()),
{
    if s.len() < 8 {
        return false;
    }
    let r = s[0] == 0x53 && s[1] == 0x54 && s[2] == 0x45 && s[3] == 0x47 && s[4] == 0x53 && s[5]
        == 0x54 && s[6] == 0x52 && s[7] == 0x31;
    if r {
        assert(s@.take(8) =~= magic());
    } else {
        assert(s@.take(8) != magic()) by {
            if s@.take(8) == magic() {
                assert(s@.take(8)[0] == s@[0]);
                assert(s@.take(8)[1] == s@[1]);
                assert(s@.take(8)[2] == s@[2]);
                assert(s@.take(8)[3] == s@[3]);
                assert(s@.take(8)[4] == s@[4]);
                assert(s@.take(8)[5] == s@[5]);
                assert(s@.take(8)[6] == s@[6]);
                assert(s@.take(8)[7] == s@[7]);
            }
        }
    }
    r
}

/// Appends the big-endian bytes of `crc` to an unsealed packet.
pub fn append_crc(frame: &mut Vec<u8>, crc: u32)
    ensures
        final(frame)@ == old(frame)@ + be32_bytes(crc),
{
    frame.push((crc >> 24u32) as u8);
    frame.push((crc >> 16u32) as u8);
    frame.push((crc >> 8u32) as u8);
    frame.push(crc as u8);
    assert(final(frame)@ =~= old(frame)@ + be32_bytes(crc));
}

/// Frames a body: magic "STEGSTR1", version 1, the flags byte (1 when
/// `encrypted`), the body length as two big-endian bytes, the body, and the
/// big-endian CRC-32 of everything before it. Bodies over 65535 bytes are
/// refused.
pub fn pack_payload(body: &[u8], encrypted: bool) -> (r: Result<Vec<u8>, PackError>)
    ensures
        body@.len() > MAX_BODY ==> r == Err::<Vec<u8>, PackError>(PackError::TooLarge),
        body@.len() <= MAX_BODY ==> (r matches Ok(p) && p@ == packet_of(body@, encrypted)),
{
    if body.len() > MAX_BODY {
        return Err(PackError::TooLarge);
    }
    let len = body.len() as u16;
    let mut out: Vec<u8> = Vec::new();
    out.push(0x53);
    out.push(0x54);
    out.push(0x45);
    out.push(0x47);
    out.push(0x53);
    out.push(0x54);
    out.push(0x52);
    out.push(0x31);
    out.push(VERSION);
    out.push(if encrypted { FLAG_ENCRYPTED } else { 0u8 });
    out.push((len >> 8u16) as u8);
    out.push(len as u8);
    let ghost head = out@;
    assert(head =~= magic() + seq![VERSION, flags_byte(encrypted)] + be16_bytes(len));
    let mut i: usize = 0;
    while i < body.len()
        invariant
            i <= body@.len(),
            out@ == head + body@.take(i as int),
        decreases body@.len() - i,
    {
        out.push(body[i]);
        assert(body@.take(i + 1) =~= body@.take(i as int).push(body@[i as int]));
        i = i + 1;
    }
    assert(body@.take(body@.len() as int) =~= body@);
    assert(out@ == unsealed_packet(body@, encrypted));
    let crc = crc32(out.as_slice());
    append_crc(&mut out, crc);
    Ok(out)
}

/// Runs the header checks of a packet: at least 16 bytes, the magic, version
/// 1, and room for the announced body and its CRC. Gives the announced body
/// length.
pub fn check_header(packet: &[u8]) -> (r: Result<usize, UnpackError>)
    ensures
        match header_check(packet@) {
            Ok(len) => r == Ok::<usize, UnpackError>(len as usize),
            Err(e) => r == Err::<usize, UnpackError>(e),
        },
        r matches Ok(len) ==> 16 + len <= packet@.len(),
{
    if packet.len() < 16 {
        return Err(UnpackError::TooShort);
    }
    if !has_magic(packet) {
        return Err(UnpackError::BadMagic);
    }
    let version = packet[8];
    if version != VERSION {
        return Err(UnpackError::UnsupportedVersion(version));
    }
    let len = (((packet[10] as u16) << 8u16) | (packet[11] as u16)) as usize;
    if packet.len() < 16 + len {
        return Err(UnpackError::Truncated);
    }
    Ok(len)
}

/// Finishes unpacking a packet whose header announced a body of `len` bytes,
/// given the CRC-32 `crc` of its first `12 + len` bytes: the flags byte and the
/// body when `crc` matches the stored CRC, else the mismatch.
pub fn check_crc(packet: &[u8], len: usize, crc: u32) -> (r: Result<(u8, Vec<u8>), UnpackError>)
    requires
        16 + len <= packet@.len(),
    ensures
        match crc_check(packet@, len as int, crc) {
            Ok((flags, body)) => (r matches Ok((f, b)) && f == flags && b@ == body),
            Err(e) => (r matches Err(e2) && e2 == e),
        },
{
    let n = packet.len();
    assert(16 + len <= n);
    let got = ((packet[12 + len] as u32) << 24u32) | ((packet[13 + len] as u32) << 16u32) | ((
    packet[14 + len] as u32) << 8u32) | (packet[15 + len] as u32);
    if crc != got {
        return Err(UnpackError::CrcMismatch);
    }
    let body = vstd::slice::slice_to_vec(&packet[12..12 + len]);
    Ok((packet[9], body))
}

/// Unpacks a packet: checks its header and its CRC, and gives its flags byte
/// and its body.
pub fn unpack_payload(packet: &[u8]) -> (r: Result<(u8, Vec<u8>), UnpackError>)
    ensures
        match unpack_of(packet@) {
            Ok((flags, body)) => (r matches Ok((f, b)) && f == flags && b@ == body),
            Err(e) => (r matches Err(e2) && e2 == e),
        },
{
    let len = match check_header(packet) {
        Ok(len) => len,
        Err(e) => return Err(e),
    };
    let crc = crc32(&packet[0..12 + len]);
    check_crc(packet, len, crc)
}

pub proof fn lemma_be16_roundtrip(n: u16)
    ensures
        be16_value((n >> 8u16) as u8, n as u8) == n,
{
    assert((((((n >> 8u16) as u8) as u16) << 8u16) | ((n as u8) as u16)) == n) by (bit_vector);
}

pub proof fn lemma_be32_roundtrip(n: u32)
    ensures
        be32_value((n >> 24u32) as u8, (n >> 16u32) as u8, (n >> 8u32) as u8, n as u8) == n,
{
    assert((((((n >> 24u32) as u8) as u32) << 24u32) | ((((n >> 16u32) as u8) as u32) << 16u32)
        | ((((n >> 8u32) as u8) as u32) << 8u32) | ((n as u8) as u32)) == n) by (bit_vector);
}

/// Unpacking a packed body gives back the flags and the body: for every body
/// of at most 65535 bytes, unpacking its packet succeeds with the flags byte
/// that records `encrypted` and with the body itself.
pub proof fn law_unpack_of_pack(body: Seq<u8>, encrypted: bool)
    requires
        body.len() <= MAX_BODY,
    ensures
        unpack_of(packet_of(body, encrypted)) == Ok::<(u8, Seq<u8>), UnpackError>(
            (flags_byte(encrypted), body),
        ),
{
    let u = unsealed_packet(body, encrypted);
    let p = packet_of(body, encrypted);
    let len = body.len() as u16;
    lemma_be16_roundtrip(len);
    lemma_be32_roundtrip(crc32_of(u));
    assert(p.take(8) =~= magic());
    assert(p[8] == VERSION);
    assert(p[10] == (len >> 8u16) as u8);
    assert(p[11] == len as u8);
    assert(announced_len(p) == body.len());
    assert(p.take(12 + body.len() as int) =~= u);
    assert(p.subrange(12, 12 + body.len() as int) =~= body);
}

/// Different big-endian bytes give different 32-bit numbers.
proof fn lemma_be32_injective(a: u8, b: u8, c: u8, d: u8, a2: u8, b2: u8, c2: u8, d2: u8)
    requires
        be32_value(a, b, c, d) == be32_value(a2, b2, c2, d2),
    ensures
        a == a2 && b == b2 && c == c2 && d == d2,
{
    assert((((a as u32) << 24u32) | ((b as u32) << 16u32) | ((c as u32) << 8u32) | (d as u32))
        == (((a2 as u32) << 24u32) | ((b2 as u32) << 16u32) | ((c2 as u32) << 8u32) | (
    d2 as u32)) ==> a == a2 && b == b2 && c == c2 && d == d2) by (bit_vector);
}

/// A corrupted packet is refused: changing the bits of any one byte of a
/// packet's flags, body or CRC (for instance flipping a single bit) makes
/// unpacking fail with a CRC mismatch.
pub proof fn law_corruption_caught(body: Seq<u8>, encrypted: bool, i: int, mask: u8)
    requires
        body.len() <= MAX_BODY,
        mask != 0,
        i == 9 || 12 <= i < packet_of(body, encrypted).len(),
    ensures
        unpack_of(
            packet_of(body, encrypted).update(i, packet_of(body, encrypted)[i] ^ mask),
        ) == Err::<(u8, Seq<u8>), UnpackError>(UnpackError::CrcMismatch),
{
    let u = unsealed_packet(body, encrypted);
    let p = packet_of(body, encrypted);
    let q = p.update(i, p[i] ^ mask);
    let n = body.len() as int;
    law_unpack_of_pack(body, encrypted);
    let len16 = body.len() as u16;
    lemma_be16_roundtrip(len16);
    lemma_be32_roundtrip(crc32_of(u));
    let x = p[i];
    assert(x ^ mask != x) by (bit_vector)
        requires
            mask != 0u8,
    ;
    assert(q.take(8) =~= p.take(8));
    assert(p.take(8) =~= magic());
    assert(q[8] == VERSION);
    assert(q[10] == (len16 >> 8u16) as u8);
    assert(q[11] == len16 as u8);
    assert(announced_len(q) == n);
    assert(header_check(q) == Ok::<int, UnpackError>(n));
    assert(p.take(12 + n) =~= u);
    if i < 12 + n {
        assert(stored_crc(q, n) == stored_crc(p, n));
        assert(stored_crc(p, n) == crc32_of(u));
        law_crc32_one_byte(q.take(12 + n), u, i);
    } else {
        assert(q.take(12 + n) =~= u);
        let c = crc32_of(u);
        assert(stored_crc(p, n) == c);
        if stored_crc(q, n) == c {
            lemma_be32_injective(
                q[12 + n], q[13 + n], q[14 + n], q[15 + n],
                p[12 + n], p[13 + n], p[14 + n], p[15 + n],
            );
            assert(false);
        }
    }
}

} // verus!
