use vstd::prelude::*;
use crate::bits::{bits_of, bits_to_bytes, bytes_to_bits, lemma_bits_of_len, lemma_bits_of_take, lemma_pack_bits_of, pack_bits};
use crate::packet::{
    be16_value, has_magic, lemma_be16_roundtrip, magic, packet_of, unpack_of, unpack_payload, MAX_BODY,
};

verus! {

/// Each bit written `r` times in a row (the repetition code of the JPEG modes).
pub open spec fn repeat_bits(bits: Seq<bool>, r: nat) -> Seq<bool>
    decreases bits.len(),
{
    if bits.len() == 0 {
        Seq::empty()
    } else {
        Seq::new(r, |_i: int| bits[0]) + repeat_bits(bits.skip(1), r)
    }
}

/// How many bits of `c` are set.
pub open spec fn count_ones(c: Seq<bool>) -> nat
    decreases c.len(),
{
    if c.len() == 0 {
        0
    } else {
        (if c.last() {
            1nat
        } else {
            0nat
        }) + count_ones(c.drop_last())
    }
}

/// The majority vote of a chunk: set when at least half its bits are set.
pub open spec fn vote(c: Seq<bool>) -> bool {
    2 * count_ones(c) >= c.len()
}

/// The vote of each chunk of `r` bits, in order; a last shorter chunk votes
/// on its own bits.
pub open spec fn majority(raw: Seq<bool>, r: nat) -> Seq<bool>
    decreases raw.len(),
{
    if r == 0 || raw.len() == 0 {
        Seq::empty()
    } else if raw.len() <= r {
        seq![vote(raw)]
    } else {
        seq![vote(raw.take(r as int))] + majority(raw.skip(r as int), r)
    }
}

/// Why no packet could be read from a carrier's bits.
#[derive(Debug, Clone, Copy, PartialEq, Eq, Structural)]
pub enum ExtractError {
    /// Fewer blocks than a sixteen-byte packet needs at this repetition.
    ImageTooSmall,
    /// Fewer than the 96 bits of a packet header.
    NotEnoughBits,
    /// The header does not start with "STEGSTR1".
    BadMagic,
    /// Fewer bits than the packet its header announces.
    Truncated,
}

/// Reads a packet from the front of a bit string: a 12-byte header that must
/// start with the magic, then as many bytes as the header's length field and
/// the 4 CRC bytes announce.
pub open spec fn frame_bits(bits: Seq<bool>) -> Result<Seq<u8>, ExtractError> {
    if bits.len() < 96 {
        Err(ExtractError::NotEnoughBits)
    } else {
        let header = pack_bits(bits.take(96));
        if header.len() < 12 || header.take(8) != magic() {
            Err(ExtractError::BadMagic)
        } else {
            let need = 8 * (16 + be16_value(header[10], header[11]) as int);
            if bits.len() < need {
                Err(ExtractError::Truncated)
            } else {
                Ok(pack_bits(bits.take(need)))
            }
        }
    }
}

/// What the block-average reader gives for the per-block bits of a carrier,
/// read with repetition `r`.
pub open spec fn ba_qim_extract_of(raw: Seq<bool>, r: nat) -> Result<Seq<u8>, ExtractError> {
    if raw.len() < 128 * r {
        Err(ExtractError::ImageTooSmall)
    } else {
        frame_bits(majority(raw, r))
    }
}

/// The least significant bit of every channel byte.
pub open spec fn lsb_bits(rgb: Seq<u8>) -> Seq<bool> {
    Seq::new(rgb.len(), |i: int| rgb[i] & 1u8 == 1u8)
}

/// What the lossless reader gives for the channel bytes of a carrier.
pub open spec fn lsb_extract_of(rgb: Seq<u8>) -> Result<Seq<u8>, ExtractError> {
    frame_bits(lsb_bits(rgb))
}

/// Channel bytes with their least significant bits replaced, in order, by
/// `bits`; the bytes past them are unchanged.
pub open spec fn lsb_embedded(rgb: Seq<u8>, bits: Seq<bool>) -> Seq<u8> {
    Seq::new(
        rgb.len(),
        |i: int|
            if i < bits.len() {
                (rgb[i] & 0xFEu8) | (if bits[i] {
                    1u8
                } else {
                    0u8
                })
            } else {
                rgb[i]
            },
    )
}

/// Why a packet does not fit a lossless carrier.
#[derive(Debug, Clone, Copy, PartialEq, Eq, Structural)]
pub enum CapacityError {
    /// The packet has more bits than the carrier has channel bytes.
    TooLargeForLossless,
}

/// Whether a read packet passes the packet checks, and so is taken.
pub open spec fn accepted(res: Result<Seq<u8>, ExtractError>) -> Option<Seq<u8>> {
    match res {
        Ok(p) => if unpack_of(p) is Ok {
            Some(p)
        } else {
            None
        },
        Err(_) => None,
    }
}

/// What detection finds in a carrier: the first packet that passes the packet
/// checks, trying the block reader with repetition 15, then 8, then 4, then
/// the lossless reader.
pub open spec fn extract_any_of(blocks: Seq<bool>, rgb: Seq<u8>) -> Option<Seq<u8>> {
    if accepted(ba_qim_extract_of(blocks, 15)) is Some {
        accepted(ba_qim_extract_of(blocks, 15))
    } else if accepted(ba_qim_extract_of(blocks, 8)) is Some {
        accepted(ba_qim_extract_of(blocks, 8))
    } else if accepted(ba_qim_extract_of(blocks, 4)) is Some {
        accepted(ba_qim_extract_of(blocks, 4))
    } else {
        accepted(lsb_extract_of(rgb))
    }
}

/// Why detection found nothing.
#[derive(Debug, Clone, Copy, PartialEq, Eq, Structural)]
pub enum DetectError {
    /// No reader gave a packet that passes the packet checks.
    NoPayload,
}

/// The message shown when a packet does not fit a lossless carrier.
pub open spec fn capacity_error_text(e: CapacityError) -> Seq<char> {
    match e {
        CapacityError::TooLargeForLossless => "payload too large for lossless capacity"@,
    }
}

/// The message shown when detection finds nothing.
pub open spec fn detect_error_text(e: DetectError) -> Seq<char> {
    match e {
        DetectError::NoPayload => "no valid Stegstr Robust payload detected"@,
    }
}

impl CapacityError {
    /// The message shown for this error.
    pub fn message(&self) -> (r: String)
        ensures
            r@ == capacity_error_text(*self),
    {
        match self {
            CapacityError::TooLargeForLossless => String::from_str(
                "payload too large for lossless capacity",
            ),
        }
    }
}

impl DetectError {
    /// The message shown for this error.
    pub fn message(&self) -> (r: String)
        ensures
            r@ == detect_error_text(*self),
    {
        match self {
            DetectError::NoPayload => String::from_str("no valid Stegstr Robust payload detected"),
        }
    }
}

/// A packet as it lies in a carrier: magic, and a length field that accounts
/// for every byte after the 16 of header and CRC.
pub open spec fn well_framed(p: Seq<u8>) -> bool {
    &&& p.len() >= 16
    &&& p.take(8) == magic()
    &&& p.len() == 16 + be16_value(p[10], p[11]) as int
}

proof fn lemma_count_ones_constant(n: nat, b: bool)
    ensures
        count_ones(Seq::new(n, |_i: int| b)) == if b {
            n
        } else {
            0
        },
    decreases n,
{
    if n > 0 {
        let s = Seq::new(n, |_i: int| b);
        lemma_count_ones_constant((n - 1) as nat, b);
        assert(s.drop_last() =~= Seq::new((n - 1) as nat, |_i: int| b));
    }
}

proof fn lemma_repeat_bits_len(bits: Seq<bool>, r: nat)
    ensures
        repeat_bits(bits, r).len() == bits.len() * r,
    decreases bits.len(),
{
    if bits.len() > 0 {
        lemma_repeat_bits_len(bits.skip(1), r);
        let n = bits.len() as int;
        assert((n - 1) * r + r == n * r) by (nonlinear_arith);
    }
}

proof fn lemma_repeat_bits_concat(a: Seq<bool>, b: Seq<bool>, r: nat)
    ensures
        repeat_bits(a + b, r) == repeat_bits(a, r) + repeat_bits(b, r),
    decreases a.len(),
{
    if a.len() == 0 {
        assert(a + b =~= b);
        assert(repeat_bits(a, r) + repeat_bits(b, r) =~= repeat_bits(b, r));
    } else {
        lemma_repeat_bits_concat(a.skip(1), b, r);
        assert((a + b).skip(1) =~= a.skip(1) + b);
        assert((a + b)[0] == a[0]);
        assert(repeat_bits(a + b, r) =~= Seq::new(r, |_i: int| a[0]) + (repeat_bits(a.skip(1), r)
            + repeat_bits(b, r)));
    }
}

/// Majority voting over chunks of `r` undoes the repetition code, whatever
/// bits follow the coded ones.
pub proof fn lemma_majority_of_repeat(b: Seq<bool>, r: nat, tail: Seq<bool>)
    requires
        r > 0,
    ensures
        majority(repeat_bits(b, r) + tail, r).len() >= b.len(),
        majority(repeat_bits(b, r) + tail, r).take(b.len() as int) == b,
    decreases b.len(),
{
    let s = repeat_bits(b, r) + tail;
    if b.len() == 0 {
        assert(majority(s, r).take(0) =~= b);
    } else {
        let head = Seq::new(r, |_i: int| b[0]);
        let rest = repeat_bits(b.skip(1), r) + tail;
        assert(s =~= head + rest);
        lemma_count_ones_constant(r, b[0]);
        lemma_majority_of_repeat(b.skip(1), r, tail);
        if s.len() <= r {
            assert(rest.len() == 0);
            lemma_repeat_bits_len(b.skip(1), r);
            assert(b.skip(1).len() * r == 0);
            assert(b.skip(1).len() == 0) by (nonlinear_arith)
                requires
                    b.skip(1).len() * r == 0,
                    r > 0,
            ;
            assert(s =~= head);
            assert(vote(head) == b[0]);
            assert(majority(s, r) =~= seq![b[0]]);
            assert(b =~= seq![b[0]]);
        } else {
            assert(s.take(r as int) =~= head);
            assert(s.skip(r as int) =~= rest);
            assert(vote(head) == b[0]);
            let m = majority(rest, r);
            assert(majority(s, r) =~= seq![b[0]] + m);
            assert(majority(s, r).take(b.len() as int) =~= seq![b[0]] + m.take(
                b.skip(1).len() as int,
            ));
            assert(b =~= seq![b[0]] + b.skip(1));
        }
    }
}

/// A well-framed packet at the front of a bit string is read back whole,
/// whatever bits follow it.
pub proof fn lemma_frame_bits_of_packet(p: Seq<u8>, tail: Seq<bool>)
    requires
        well_framed(p),
    ensures
        frame_bits(bits_of(p) + tail) == Ok::<Seq<u8>, ExtractError>(p),
{
    let bits = bits_of(p) + tail;
    lemma_bits_of_len(p);
    lemma_bits_of_take(p, 12);
    assert(bits.take(96) =~= bits_of(p).take(96));
    lemma_pack_bits_of(p.take(12));
    let header = pack_bits(bits.take(96));
    assert(header == p.take(12));
    assert(header.take(8) =~= p.take(8));
    assert(header[10] == p[10] && header[11] == p[11]);
    let need = 8 * (16 + be16_value(header[10], header[11]) as int);
    assert(need == 8 * p.len());
    assert(bits.take(need) =~= bits_of(p));
    lemma_pack_bits_of(p);
}

/// A packet coded with repetition `r` at the front of a carrier's block bits
/// is read back whole by the block reader with the same repetition, whatever
/// the remaining blocks hold.
pub proof fn law_ba_qim_roundtrip(p: Seq<u8>, r: nat, tail: Seq<bool>)
    requires
        well_framed(p),
        r > 0,
    ensures
        ba_qim_extract_of(repeat_bits(bits_of(p), r) + tail, r) == Ok::<Seq<u8>, ExtractError>(p),
{
    let b = bits_of(p);
    let raw = repeat_bits(b, r) + tail;
    lemma_bits_of_len(p);
    lemma_repeat_bits_len(b, r);
    assert(raw.len() >= 128 * r) by (nonlinear_arith)
        requires
            raw.len() >= b.len() * r,
            b.len() == 8 * p.len(),
            p.len() >= 16,
    ;
    lemma_majority_of_repeat(b, r, tail);
    let m = majority(raw, r);
    assert(m =~= b + m.skip(b.len() as int));
    lemma_frame_bits_of_packet(p, m.skip(b.len() as int));
}

/// The lossless writer followed by the lossless reader gives back a
/// well-framed packet that fits the carrier.
pub proof fn law_lsb_roundtrip(rgb: Seq<u8>, p: Seq<u8>)
    requires
        well_framed(p),
        8 * p.len() <= rgb.len(),
    ensures
        lsb_extract_of(lsb_embedded(rgb, bits_of(p))) == Ok::<Seq<u8>, ExtractError>(p),
{
    let b = bits_of(p);
    lemma_bits_of_len(p);
    let e = lsb_embedded(rgb, b);
    let l = lsb_bits(e);
    assert forall|i: int| 0 <= i < b.len() implies #[trigger] l[i] == b[i] by {
        let x = rgb[i];
        if b[i] {
            assert(((x & 0xFEu8) | 1u8) & 1u8 == 1u8) by (bit_vector);
        } else {
            assert(((x & 0xFEu8) | 0u8) & 1u8 != 1u8) by (bit_vector);
        }
    }
    assert(l =~= b + l.skip(b.len() as int));
    lemma_frame_bits_of_packet(p, l.skip(b.len() as int));
}

/// The packets that the packer writes are well framed.
pub proof fn lemma_packet_well_framed(body: Seq<u8>, encrypted: bool)
    requires
        body.len() <= MAX_BODY,
    ensures
        well_framed(packet_of(body, encrypted)),
{
    let p = packet_of(body, encrypted);
    let len = body.len() as u16;
    lemma_be16_roundtrip(len);
    assert(p[10] == (len >> 8u16) as u8);
    assert(p[11] == len as u8);
    assert(p.take(8) =~= magic());
}

/// Reads a packet from the front of a bit string: the 96 bits of a header
/// that starts with "STEGSTR1", then the body and CRC its length field
/// announces.
pub fn frame_from_bits(bits: &[bool]) -> (r: Result<Vec<u8>, ExtractError>)
    ensures
        match frame_bits(bits@) {
            Ok(p) => (r matches Ok(v) && v@ == p),
            Err(e) => r == Err::<Vec<u8>, ExtractError>(e),
        },
{
    if bits.len() < 96 {
        return Err(ExtractError::NotEnoughBits);
    }
    let header = bits_to_bytes(&bits[0..96]);
    assert(bits@.subrange(0, 96) == bits@.take(96));
    if header.len() < 12 || !has_magic(header.as_slice()) {
        return Err(ExtractError::BadMagic);
    }
    let len = (((header[10] as u16) << 8u16) | (header[11] as u16)) as usize;
    let need = (16 + len) * 8;
    if bits.len() < need {
        return Err(ExtractError::Truncated);
    }
    assert(bits@.subrange(0, need as int) == bits@.take(need as int));
    Ok(bits_to_bytes(&bits[0..need]))
}

/// Unfolds `majority` at a chunk boundary.
proof fn lemma_majority_step(raw: Seq<bool>, start: int, r: nat)
    requires
        0 <= start < raw.len(),
        r > 0,
    ensures
        raw.len() - start <= r ==> majority(raw.skip(start), r) == seq![
            vote(raw.subrange(start, raw.len() as int)),
        ],
        raw.len() - start > r ==> majority(raw.skip(start), r) == seq![
            vote(raw.subrange(start, start + r)),
        ] + majority(raw.skip(start + r), r),
{
    assert(raw.skip(start) =~= raw.subrange(start, raw.len() as int));
    if raw.len() - start > r {
        assert(raw.skip(start).take(r as int) =~= raw.subrange(start, start + r));
        assert(raw.skip(start).skip(r as int) =~= raw.skip(start + r));
    }
}

/// The number of set bits among `raw[start..end]`.
fn count_set(raw: &[bool], start: usize, end: usize) -> (ones: usize)
    requires
        start <= end <= raw@.len(),
    ensures
        ones == count_ones(raw@.subrange(start as int, end as int)),
        ones <= end - start,
{
    let mut ones: usize = 0;
    let mut j = start;
    while j < end
        invariant
            start <= j <= end <= raw@.len(),
            ones == count_ones(raw@.subrange(start as int, j as int)),
            ones <= j - start,
        decreases end - j,
    {
        assert(raw@.subrange(start as int, j + 1).drop_last() =~= raw@.subrange(
            start as int,
            j as int,
        ));
        if raw[j] {
            ones = ones + 1;
        }
        j = j + 1;
    }
    ones
}

/// Reads a packet from the per-block bits of a carrier coded with repetition
/// `repeat`: refuses carriers with fewer than `128 * repeat` blocks, takes the
/// majority of each run of `repeat` blocks, and reads the packet from the
/// resulting bits.
pub fn extract_ba_qim(block_bits: &[bool], repeat: usize) -> (r: Result<Vec<u8>, ExtractError>)
    requires
        repeat > 0,
    ensures
        match ba_qim_extract_of(block_bits@, repeat as nat) {
            Ok(p) => (r matches Ok(v) && v@ == p),
            Err(e) => r == Err::<Vec<u8>, ExtractError>(e),
        },
{
    let n = block_bits.len();
    if repeat > n / 128 {
        assert(n < 128 * repeat) by (nonlinear_arith)
            requires
                repeat > n / 128,
        ;
        return Err(ExtractError::ImageTooSmall);
    }
    assert(n >= 128 * repeat) by (nonlinear_arith)
        requires
            repeat <= n / 128,
    ;
    let ghost r = repeat as nat;
    let mut bits: Vec<bool> = Vec::new();
    let mut start: usize = 0;
    assert(block_bits@.skip(0) =~= block_bits@);
    while start < n
        invariant
            n == block_bits@.len(),
            repeat > 0,
            r == repeat,
            start <= n,
            bits@ + majority(block_bits@.skip(start as int), r) == majority(block_bits@, r),
        decreases n - start,
    {
        let end = if n - start <= repeat {
            n
        } else {
            start + repeat
        };
        let ones = count_set(block_bits, start, end);
        let len = end - start;
        proof {
            lemma_majority_step(block_bits@, start as int, r);
        }
        let ghost before = bits@;
        bits.push(ones >= len - ones);
        if end == n {
            assert(block_bits@.skip(n as int) =~= Seq::<bool>::empty());
        }
        assert(bits@ + majority(block_bits@.skip(end as int), r) =~= before + majority(
            block_bits@.skip(start as int),
            r,
        ));
        start = end;
    }
    assert(block_bits@.skip(n as int) =~= Seq::<bool>::empty());
    assert(bits@ + majority(block_bits@.skip(n as int), r) =~= bits@);
    frame_from_bits(bits.as_slice())
}

/// Reads a packet from the least significant bits of a carrier's channel
/// bytes, in order.
pub fn extract_lsb(rgb: &[u8]) -> (r: Result<Vec<u8>, ExtractError>)
    ensures
        match lsb_extract_of(rgb@) {
            Ok(p) => (r matches Ok(v) && v@ == p),
            Err(e) => r == Err::<Vec<u8>, ExtractError>(e),
        },
{
    let mut bits: Vec<bool> = Vec::new();
    let n = rgb.len();
    let mut i: usize = 0;
    while i < n
        invariant
            n == rgb@.len(),
            i <= n,
            bits@ =~= lsb_bits(rgb@).take(i as int),
        decreases n - i,
    {
        bits.push(rgb[i] & 1u8 == 1u8);
        i = i + 1;
    }
    assert(lsb_bits(rgb@).take(n as int) =~= lsb_bits(rgb@));
    frame_from_bits(bits.as_slice())
}

/// Writes a packet into the least significant bits of a carrier's channel
/// bytes, in order, leaving the other bits and the bytes past the packet
/// unchanged. Refuses a packet with more bits than there are bytes.
pub fn embed_lsb(rgb: &[u8], packet: &[u8]) -> (r: Result<Vec<u8>, CapacityError>)
    requires
        packet@.len() <= usize::MAX / 8,
    ensures
        8 * packet@.len() > rgb@.len() ==> r == Err::<Vec<u8>, CapacityError>(
            CapacityError::TooLargeForLossless,
        ),
        8 * packet@.len() <= rgb@.len() ==> (r matches Ok(v) && v@ == lsb_embedded(
            rgb@,
            bits_of(packet@),
        )),
{
    let bits = bytes_to_bits(packet);
    proof {
        lemma_bits_of_len(packet@);
    }
    let n = rgb.len();
    if bits.len() > n {
        return Err(CapacityError::TooLargeForLossless);
    }
    let mut out: Vec<u8> = Vec::new();
    let mut i: usize = 0;
    while i < n
        invariant
            n == rgb@.len(),
            bits@ == bits_of(packet@),
            bits@.len() <= n,
            i <= n,
            out@ =~= lsb_embedded(rgb@, bits@).take(i as int),
        decreases n - i,
    {
        if i < bits.len() {
            out.push((rgb[i] & 0xFEu8) | (if bits[i] { 1u8 } else { 0u8 }));
        } else {
            out.push(rgb[i]);
        }
        i = i + 1;
    }
    assert(lsb_embedded(rgb@, bits@).take(n as int) =~= lsb_embedded(rgb@, bits@));
    Ok(out)
}

/// The bits that the block writer puts into the blocks of a carrier, in
/// row-major block order: each bit of the packet repeated `repeat` times, cut
/// off where the carrier has no more blocks.
pub fn ba_qim_block_bits(packet: &[u8], repeat: usize, blocks: usize) -> (out: Vec<bool>)
    ensures
        out@ == repeat_bits(bits_of(packet@), repeat as nat).take(
            if repeat_bits(bits_of(packet@), repeat as nat).len() <= blocks {
                repeat_bits(bits_of(packet@), repeat as nat).len() as int
            } else {
                blocks as int
            },
        ),
{
    let bits = bytes_to_bits(packet);
    let ghost coded = repeat_bits(bits@, repeat as nat);
    let mut out: Vec<bool> = Vec::new();
    let nb = bits.len();
    let mut k: usize = 0;
    assert(bits@.take(0) =~= Seq::<bool>::empty());
    while k < nb && out.len() < blocks
        invariant
            nb == bits@.len(),
            coded == repeat_bits(bits@, repeat as nat),
            k <= nb,
            out@.len() <= blocks,
            out@.len() <= coded.len(),
            out@ == coded.take(out@.len() as int),
            out@.len() < blocks ==> out@.len() == repeat_bits(bits@.take(k as int), repeat as nat).len(),
        decreases nb - k, blocks - out@.len(),
    {
        let ghost base = out@.len();
        proof {
            assert(bits@ =~= bits@.take(k as int) + bits@.skip(k as int));
            lemma_repeat_bits_concat(bits@.take(k as int), bits@.skip(k as int), repeat as nat);
            assert(bits@.skip(k as int)[0] == bits@[k as int]);
            assert(bits@.take(k + 1) =~= bits@.take(k as int) + seq![bits@[k as int]]);
            lemma_repeat_bits_concat(bits@.take(k as int), seq![bits@[k as int]], repeat as nat);
            assert(seq![bits@[k as int]].skip(1) =~= Seq::<bool>::empty());
        }
        let b = bits[k];
        let mut j: usize = 0;
        while j < repeat && out.len() < blocks
            invariant
                out@.len() == base + j,
                j <= repeat,
                base == repeat_bits(bits@.take(k as int), repeat as nat).len(),
                coded == repeat_bits(bits@.take(k as int), repeat as nat) + repeat_bits(
                    bits@.skip(k as int),
                    repeat as nat,
                ),
                repeat_bits(bits@.skip(k as int), repeat as nat) == Seq::new(
                    repeat as nat,
                    |_i: int| b,
                ) + repeat_bits(bits@.skip(k as int).skip(1), repeat as nat),
                out@.len() <= blocks,
                out@ == coded.take(out@.len() as int),
            decreases repeat - j,
        {
            assert(coded[base + j] == b);
            out.push(b);
            assert(out@ =~= coded.take(out@.len() as int));
            j = j + 1;
        }
        proof {
            let one = seq![b];
            assert(bits@.take(k + 1) =~= bits@.take(k as int) + one);
            lemma_repeat_bits_concat(bits@.take(k as int), one, repeat as nat);
            assert(one.skip(1) =~= Seq::<bool>::empty());
            assert(repeat_bits(one.skip(1), repeat as nat) =~= Seq::<bool>::empty());
            assert(repeat_bits(one, repeat as nat) =~= Seq::new(repeat as nat, |_i: int| b));
            assert(repeat_bits(bits@.take(k + 1), repeat as nat) =~= repeat_bits(
                bits@.take(k as int),
                repeat as nat,
            ) + Seq::new(repeat as nat, |_i: int| b));
        }
        k = k + 1;
    }
    proof {
        if out@.len() < blocks {
            assert(bits@.take(nb as int) =~= bits@);
        }
    }
    out
}

/// Finds the packet hidden in a carrier, given the bit each block holds (in
/// row-major block order) and the carrier's channel bytes: the first packet
/// that passes the packet checks when read by blocks with repetition 15, 8 or
/// 4, or from the least significant bits.
pub fn extract_any(block_bits: &[bool], rgb: &[u8]) -> (r: Result<Vec<u8>, DetectError>)
    ensures
        match extract_any_of(block_bits@, rgb@) {
            Some(p) => (r matches Ok(v) && v@ == p),
            None => r == Err::<Vec<u8>, DetectError>(DetectError::NoPayload),
        },
{
    if let Ok(p) = extract_ba_qim(block_bits, 15) {
        if unpack_payload(p.as_slice()).is_ok() {
            return Ok(p);
        }
    }
    if let Ok(p) = extract_ba_qim(block_bits, 8) {
        if unpack_payload(p.as_slice()).is_ok() {
            return Ok(p);
        }
    }
    if let Ok(p) = extract_ba_qim(block_bits, 4) {
        if unpack_payload(p.as_slice()).is_ok() {
            return Ok(p);
        }
    }
    if let Ok(p) = extract_lsb(rgb) {
        if unpack_payload(p.as_slice()).is_ok() {
            return Ok(p);
        }
    }
    Err(DetectError::NoPayload)
}

/// Detection finds what the robust writer hid: a packet of at most 65535
/// body bytes, coded with repetition 15 into the first blocks of a carrier,
/// is found again, whatever the other blocks and the channel bytes hold.
pub proof fn law_detect_robust(body: Seq<u8>, encrypted: bool, tail: Seq<bool>, rgb: Seq<u8>)
    requires
        body.len() <= MAX_BODY,
    ensures
        extract_any_of(repeat_bits(bits_of(packet_of(body, encrypted)), 15) + tail, rgb) == Some(
            packet_of(body, encrypted),
        ),
{
    let p = packet_of(body, encrypted);
    lemma_packet_well_framed(body, encrypted);
    law_ba_qim_roundtrip(p, 15, tail);
    crate::packet::law_unpack_of_pack(body, encrypted);
}

/// The block plan of a packet is complete when the carrier has room for it:
/// the coded bits number eight per byte times the repetition.
pub proof fn law_block_plan_len(p: Seq<u8>, r: nat)
    ensures
        repeat_bits(bits_of(p), r).len() == p.len() * 8 * r,
{
    lemma_bits_of_len(p);
    lemma_repeat_bits_len(bits_of(p), r);
    assert(8 * p.len() * r == p.len() * 8 * r) by (nonlinear_arith);
}

/// Detection finds what the lossless writer hid, when none of the block
/// readers takes a packet from the carrier's blocks: a packet of at most
/// 65535 body bytes whose bits fit the channel bytes is found again.
pub proof fn law_detect_lossless(body: Seq<u8>, encrypted: bool, blocks: Seq<bool>, rgb: Seq<u8>)
    requires
        body.len() <= MAX_BODY,
        8 * packet_of(body, encrypted).len() <= rgb.len(),
        accepted(ba_qim_extract_of(blocks, 15)) is None,
        accepted(ba_qim_extract_of(blocks, 8)) is None,
        accepted(ba_qim_extract_of(blocks, 4)) is None,
    ensures
        extract_any_of(blocks, lsb_embedded(rgb, bits_of(packet_of(body, encrypted)))) == Some(
            packet_of(body, encrypted),
        ),
{
    let p = packet_of(body, encrypted);
    lemma_packet_well_framed(body, encrypted);
    law_lsb_roundtrip(rgb, p);
    crate::packet::law_unpack_of_pack(body, encrypted);
}

/// Detection finds what an armor writer hid: a packet of at most 65535 body
/// bytes, coded with repetition 8 (or 4) into the first blocks of a carrier,
/// is found again when the readers tried before that repetition take nothing.
pub proof fn law_detect_armor(body: Seq<u8>, encrypted: bool, r: nat, tail: Seq<bool>, rgb: Seq<u8>)
    requires
        body.len() <= MAX_BODY,
        r == 8 || r == 4,
        accepted(ba_qim_extract_of(repeat_bits(bits_of(packet_of(body, encrypted)), r) + tail, 15))
            is None,
        r == 4 ==> accepted(
            ba_qim_extract_of(repeat_bits(bits_of(packet_of(body, encrypted)), r) + tail, 8),
        ) is None,
    ensures
        extract_any_of(repeat_bits(bits_of(packet_of(body, encrypted)), r) + tail, rgb) == Some(
            packet_of(body, encrypted),
        ),
{
    let p = packet_of(body, encrypted);
    lemma_packet_well_framed(body, encrypted);
    law_ba_qim_roundtrip(p, r, tail);
    crate::packet::law_unpack_of_pack(body, encrypted);
}

/// The top-left pixel of block `index`, blocks counted row by row in a
/// `width` x `height` carrier of 8x8 blocks.
pub fn block_origin(index: usize, width: u32, height: u32) -> (r: (u32, u32))
    requires
        width / 8 > 0,
        index < (width / 8) * (height / 8),
    ensures
        r.0 == (index % ((width / 8) as usize)) * 8,
        r.1 == (index / ((width / 8) as usize)) * 8,
        r.0 + 8 <= width,
        r.1 + 8 <= height,
{
    let bw: u32 = width / 8;
    let bwu = bw as usize;
    let bx = index % bwu;
    let by = index / bwu;
    assert(bx < bw);
    assert(by < height / 8) by (nonlinear_arith)
        requires
            by == index / bwu,
            bwu == bw,
            bw > 0,
            index < bw * (height / 8),
    ;
    assert(bx * 8 + 8 <= width);
    assert(by * 8 + 8 <= height);
    ((bx as u32) * 8, (by as u32) * 8)
}

/// How many bits of `c` differ from `x`.
pub open spec fn mismatches(c: Seq<bool>, x: bool) -> nat
    decreases c.len(),
{
    if c.len() == 0 {
        0
    } else {
        (if c.last() != x {
            1nat
        } else {
            0nat
        }) + mismatches(c.drop_last(), x)
    }
}

proof fn lemma_mismatches_count(c: Seq<bool>)
    ensures
        mismatches(c, false) == count_ones(c),
        mismatches(c, true) + count_ones(c) == c.len(),
    decreases c.len(),
{
    if c.len() > 0 {
        lemma_mismatches_count(c.drop_last());
    }
}

/// A chunk votes for the value that more than half of its bits hold.
pub proof fn law_vote_majority(c: Seq<bool>, x: bool)
    requires
        2 * mismatches(c, x) < c.len(),
    ensures
        vote(c) == x,
{
    lemma_mismatches_count(c);
}

proof fn lemma_majority_noisy(b: Seq<bool>, r: nat, raw: Seq<bool>)
    requires
        r > 0,
        raw.len() >= b.len() * r,
        forall|k: int|
            0 <= k < b.len() ==> 2 * mismatches(#[trigger] raw.subrange(k * r, k * r + r), b[k])
                < r,
    ensures
        majority(raw, r).len() >= b.len(),
        majority(raw, r).take(b.len() as int) == b,
    decreases b.len(),
{
    if b.len() == 0 {
        assert(majority(raw, r).take(0) =~= b);
    } else {
        assert(raw.len() >= r) by (nonlinear_arith)
            requires
                raw.len() >= b.len() * r,
                b.len() >= 1,
        ;
        let z: int = 0;
        assert(raw.subrange(z * r, z * r + r) =~= raw.take(r as int));
        assert(2 * mismatches(raw.subrange(z * r, z * r + r), b[z]) < r);
        law_vote_majority(raw.take(r as int), b[0]);
        if raw.len() <= r {
            assert(raw.take(r as int) =~= raw);
            assert(b.len() == 1) by (nonlinear_arith)
                requires
                    raw.len() >= b.len() * r,
                    raw.len() <= r,
                    b.len() >= 1,
                    r > 0,
            ;
            assert(majority(raw, r) =~= seq![b[0]]);
            assert(b =~= seq![b[0]]);
        } else {
            let rest = raw.skip(r as int);
            let bs = b.skip(1);
            assert(rest.len() >= bs.len() * r) by (nonlinear_arith)
                requires
                    raw.len() >= b.len() * r,
                    rest.len() == raw.len() - r,
                    bs.len() == b.len() - 1,
            ;
            assert forall|k: int| 0 <= k < bs.len() implies 2 * mismatches(
                #[trigger] rest.subrange(k * r, k * r + r),
                bs[k],
            ) < r by {
                assert((k + 1) * r == k * r + r) by (nonlinear_arith);
                assert(0 <= k * r && (k + 1) * r <= bs.len() * r) by (nonlinear_arith)
                    requires
                        0 <= k,
                        k + 1 <= bs.len(),
                ;
                assert(rest.subrange(k * r, k * r + r) =~= raw.subrange(
                    (k + 1) * r,
                    (k + 1) * r + r,
                ));
                assert(bs[k] == b[k + 1]);
            }
            lemma_majority_noisy(bs, r, rest);
            let m = majority(rest, r);
            assert(majority(raw, r) =~= seq![b[0]] + m);
            assert(majority(raw, r).take(b.len() as int) =~= seq![b[0]] + m.take(bs.len() as int));
            assert(b =~= seq![b[0]] + bs);
        }
    }
}

/// A chunk's vote is set exactly when at least half of its bits are set
/// (so an even chunk split half and half votes set).
pub proof fn law_vote_half_or_more(c: Seq<bool>)
    ensures
        vote(c) <==> 2 * mismatches(c, false) >= c.len(),
{
    lemma_mismatches_count(c);
}

/// The block reader corrects errors: a well-framed packet coded with
/// repetition `r` is read back whole when, for every bit, fewer than half of
/// the `r` blocks that carry it were flipped, whatever blocks follow.
pub proof fn law_ba_qim_noisy(p: Seq<u8>, r: nat, raw: Seq<bool>)
    requires
        well_framed(p),
        r > 0,
        raw.len() >= 8 * p.len() * r,
        forall|k: int|
            0 <= k < 8 * p.len() ==> 2 * mismatches(
                #[trigger] raw.subrange(k * r, k * r + r),
                bits_of(p)[k],
            ) < r,
    ensures
        ba_qim_extract_of(raw, r) == Ok::<Seq<u8>, ExtractError>(p),
{
    let b = bits_of(p);
    lemma_bits_of_len(p);
    assert(raw.len() >= b.len() * r);
    assert(raw.len() >= 128 * r) by (nonlinear_arith)
        requires
            raw.len() >= 8 * p.len() * r,
            p.len() >= 16,
    ;
    lemma_majority_noisy(b, r, raw);
    let m = majority(raw, r);
    assert(m =~= b + m.skip(b.len() as int));
    lemma_frame_bits_of_packet(p, m.skip(b.len() as int));
}

} // verus!
