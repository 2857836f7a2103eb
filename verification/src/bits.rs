use vstd::prelude::*;

verus! {

/// The eight bits of a byte, most significant first.
pub open spec fn byte_bits(b: u8) -> Seq<bool> {
    seq![
        b & 0x80 != 0,
        b & 0x40 != 0,
        b & 0x20 != 0,
        b & 0x10 != 0,
        b & 0x08 != 0,
        b & 0x04 != 0,
        b & 0x02 != 0,
        b & 0x01 != 0,
    ]
}

/// The bits of a byte string: each byte in turn, most significant bit first.
pub open spec fn bits_of(data: Seq<u8>) -> Seq<bool>
    decreases data.len(),
{
    if data.len() == 0 {
        Seq::empty()
    } else {
        byte_bits(data[0]) + bits_of(data.skip(1))
    }
}

/// Bit `i` of a chunk, where positions past its end read as zero.
pub open spec fn chunk_bit(c: Seq<bool>, i: int) -> bool {
    i < c.len() && c[i]
}

/// The byte whose bits, most significant first, are the (at most eight) bits of
/// `c`, followed by zeros.
pub open spec fn byte_from_bits(c: Seq<bool>) -> u8 {
    (if chunk_bit(c, 0) { 0x80u8 } else { 0u8 })
    | (if chunk_bit(c, 1) { 0x40u8 } else { 0u8 })
    | (if chunk_bit(c, 2) { 0x20u8 } else { 0u8 })
    | (if chunk_bit(c, 3) { 0x10u8 } else { 0u8 })
    | (if chunk_bit(c, 4) { 0x08u8 } else { 0u8 })
    | (if chunk_bit(c, 5) { 0x04u8 } else { 0u8 })
    | (if chunk_bit(c, 6) { 0x02u8 } else { 0u8 })
    | (if chunk_bit(c, 7) { 0x01u8 } else { 0u8 })
}

/// Bits packed into bytes, eight at a time, most significant first; a last
/// chunk shorter than eight bits is padded with zeros.
pub open spec fn pack_bits(bits: Seq<bool>) -> Seq<u8>
    decreases bits.len(),
{
    if bits.len() == 0 {
        Seq::empty()
    } else if bits.len() <= 8 {
        seq![byte_from_bits(bits)]
    } else {
        seq![byte_from_bits(bits.take(8))] + pack_bits(bits.skip(8))
    }
}

/// A byte survives the trip through its bits.
pub proof fn lemma_byte_bits_roundtrip(b: u8)
    ensures
        byte_from_bits(byte_bits(b)) == b,
{
    let c = byte_bits(b);
    assert(chunk_bit(c, 0) == (b & 0x80 != 0));
    assert(chunk_bit(c, 1) == (b & 0x40 != 0));
    assert(chunk_bit(c, 2) == (b & 0x20 != 0));
    assert(chunk_bit(c, 3) == (b & 0x10 != 0));
    assert(chunk_bit(c, 4) == (b & 0x08 != 0));
    assert(chunk_bit(c, 5) == (b & 0x04 != 0));
    assert(chunk_bit(c, 6) == (b & 0x02 != 0));
    assert(chunk_bit(c, 7) == (b & 0x01 != 0));
    assert(((if b & 0x80 != 0 { 0x80u8 } else { 0u8 })
        | (if b & 0x40 != 0 { 0x40u8 } else { 0u8 })
        | (if b & 0x20 != 0 { 0x20u8 } else { 0u8 })
        | (if b & 0x10 != 0 { 0x10u8 } else { 0u8 })
        | (if b & 0x08 != 0 { 0x08u8 } else { 0u8 })
        | (if b & 0x04 != 0 { 0x04u8 } else { 0u8 })
        | (if b & 0x02 != 0 { 0x02u8 } else { 0u8 })
        | (if b & 0x01 != 0 { 0x01u8 } else { 0u8 })) == b) by (bit_vector);
}

/// A byte string has eight bits per byte.
pub proof fn lemma_bits_of_len(data: Seq<u8>)
    ensures
        bits_of(data).len() == 8 * data.len(),
    decreases data.len(),
{
    if data.len() > 0 {
        lemma_bits_of_len(data.skip(1));
    }
}

/// The bits of a concatenation are the concatenation of the bits.
pub proof fn lemma_bits_of_concat(a: Seq<u8>, b: Seq<u8>)
    ensures
        bits_of(a + b) == bits_of(a) + bits_of(b),
    decreases a.len(),
{
    if a.len() == 0 {
        assert(a + b =~= b);
        assert(bits_of(a) + bits_of(b) =~= bits_of(b));
    } else {
        lemma_bits_of_concat(a.skip(1), b);
        assert((a + b).skip(1) =~= a.skip(1) + b);
        assert((a + b)[0] == a[0]);
        assert(bits_of(a + b) =~= byte_bits(a[0]) + (bits_of(a.skip(1)) + bits_of(b)));
    }
}

/// The first `8 * n` bits of a byte string are the bits of its first `n` bytes.
pub proof fn lemma_bits_of_take(data: Seq<u8>, n: int)
    requires
        0 <= n <= data.len(),
    ensures
        bits_of(data).take(8 * n) == bits_of(data.take(n)),
{
    assert(data =~= data.take(n) + data.skip(n));
    lemma_bits_of_concat(data.take(n), data.skip(n));
    lemma_bits_of_len(data.take(n));
    assert(bits_of(data).take(8 * n) =~= bits_of(data.take(n)));
}

/// Packing the bits of a byte string, followed by anything, and keeping whole
/// bytes of the bits gives back the byte string.
pub proof fn lemma_pack_bits_of(data: Seq<u8>)
    ensures
        pack_bits(bits_of(data)) == data,
    decreases data.len(),
{
    if data.len() > 0 {
        let rest = data.skip(1);
        lemma_pack_bits_of(rest);
        lemma_bits_of_len(rest);
        lemma_byte_bits_roundtrip(data[0]);
        let s = bits_of(data);
        assert(s == byte_bits(data[0]) + bits_of(rest));
        if rest.len() == 0 {
            assert(bits_of(rest) =~= Seq::<bool>::empty());
            assert(s =~= byte_bits(data[0]));
            assert(data =~= seq![data[0]]);
        } else {
            assert(s.take(8) =~= byte_bits(data[0]));
            assert(s.skip(8) =~= bits_of(rest));
            assert(data =~= seq![data[0]] + rest);
        }
    } else {
        assert(bits_of(data) =~= Seq::<bool>::empty());
        assert(data =~= Seq::<u8>::empty());
    }
}

/// Unfolds `bits_of` at a position inside the byte string.
proof fn lemma_bits_of_step(data: Seq<u8>, i: int)
    requires
        0 <= i < data.len(),
    ensures
        bits_of(data.skip(i)) == byte_bits(data[i]) + bits_of(data.skip(i + 1)),
{
    assert(data.skip(i).skip(1) =~= data.skip(i + 1));
    assert(data.skip(i)[0] == data[i]);
}

/// The bits of `data`, each byte most significant bit first.
pub fn bytes_to_bits(data: &[u8]) -> (bits: Vec<bool>)
    ensures
        bits@ == bits_of(data@),
{
    let mut bits: Vec<bool> = Vec::new();
    let n = data.len();
    let mut i: usize = 0;
    assert(data@.skip(0) =~= data@);
    while i < n
        invariant
            n == data@.len(),
            i <= n,
            bits@ + bits_of(data@.skip(i as int)) == bits_of(data@),
        decreases n - i,
    {
        let b = data[i];
        proof {
            lemma_bits_of_step(data@, i as int);
        }
        let ghost before = bits@;
        bits.push(b & 0x80 != 0);
        bits.push(b & 0x40 != 0);
        bits.push(b & 0x20 != 0);
        bits.push(b & 0x10 != 0);
        bits.push(b & 0x08 != 0);
        bits.push(b & 0x04 != 0);
        bits.push(b & 0x02 != 0);
        bits.push(b & 0x01 != 0);
        assert(bits@ =~= before + byte_bits(b));
        assert(bits@ + bits_of(data@.skip(i + 1)) =~= before + bits_of(data@.skip(i as int)));
        i = i + 1;
    }
    assert(data@.skip(n as int) =~= Seq::<u8>::empty());
    assert(bits@ + bits_of(data@.skip(n as int)) =~= bits@);
    bits
}

/// Unfolds `pack_bits` at a chunk boundary.
proof fn lemma_pack_bits_step(bits: Seq<bool>, p: int)
    requires
        0 <= p < bits.len(),
    ensures
        bits.len() - p <= 8 ==> pack_bits(bits.skip(p)) == seq![byte_from_bits(bits.skip(p))],
        bits.len() - p > 8 ==> pack_bits(bits.skip(p)) == seq![
            byte_from_bits(bits.skip(p).take(8)),
        ] + pack_bits(bits.skip(p + 8)),
{
    if bits.len() - p > 8 {
        assert(bits.skip(p).skip(8) =~= bits.skip(p + 8));
    }
}

/// Bits packed into bytes, eight at a time, most significant bit first; a last
/// short chunk is padded with zeros.
pub fn bits_to_bytes(bits: &[bool]) -> (out: Vec<u8>)
    ensures
        out@ == pack_bits(bits@),
{
    let mut out: Vec<u8> = Vec::new();
    let n = bits.len();
    let mut p: usize = 0;
    assert(bits@.skip(0) =~= bits@);
    while p < n
        invariant
            n == bits@.len(),
            p <= n,
            out@ + pack_bits(bits@.skip(p as int)) == pack_bits(bits@),
        decreases n - p,
    {
        let m: usize = if n - p < 8 { n - p } else { 8 };
        let c0 = m > 0 && bits[p];
        let c1 = m > 1 && bits[p + 1];
        let c2 = m > 2 && bits[p + 2];
        let c3 = m > 3 && bits[p + 3];
        let c4 = m > 4 && bits[p + 4];
        let c5 = m > 5 && bits[p + 5];
        let c6 = m > 6 && bits[p + 6];
        let c7 = m > 7 && bits[p + 7];
        let v: u8 = (if c0 { 0x80u8 } else { 0u8 }) | (if c1 { 0x40u8 } else { 0u8 }) | (if c2 {
            0x20u8
        } else {
            0u8
        }) | (if c3 { 0x10u8 } else { 0u8 }) | (if c4 { 0x08u8 } else { 0u8 }) | (if c5 {
            0x04u8
        } else {
            0u8
        }) | (if c6 { 0x02u8 } else { 0u8 }) | (if c7 { 0x01u8 } else { 0u8 });
        proof {
            lemma_pack_bits_step(bits@, p as int);
            let chunk = if n - p <= 8 {
                bits@.skip(p as int)
            } else {
                bits@.skip(p as int).take(8)
            };
            assert(chunk.len() == m);
            assert(c0 == chunk_bit(chunk, 0));
            assert(c1 == chunk_bit(chunk, 1));
            assert(c2 == chunk_bit(chunk, 2));
            assert(c3 == chunk_bit(chunk, 3));
            assert(c4 == chunk_bit(chunk, 4));
            assert(c5 == chunk_bit(chunk, 5));
            assert(c6 == chunk_bit(chunk, 6));
            assert(c7 == chunk_bit(chunk, 7));
            assert(v == byte_from_bits(chunk));
        }
        let ghost before = out@;
        out.push(v);
        if n - p <= 8 {
            assert(bits@.skip(n as int) =~= Seq::<bool>::empty());
            assert(out@ + pack_bits(bits@.skip(n as int)) =~= before + pack_bits(
                bits@.skip(p as int),
            ));
            p = n;
        } else {
            assert(out@ + pack_bits(bits@.skip(p + 8)) =~= before + pack_bits(
                bits@.skip(p as int),
            ));
            p = p + 8;
        }
    }
    assert(bits@.skip(n as int) =~= Seq::<bool>::empty());
    assert(out@ + pack_bits(bits@.skip(n as int)) =~= out@);
    out
}

/// Proves the round trip of the two conversions, and that the bits of the
/// first bytes are the first bits.
pub proof fn law_bits_roundtrip(data: Seq<u8>)
    ensures
        pack_bits(bits_of(data)) == data,
        bits_of(data).len() == 8 * data.len(),
{
    lemma_pack_bits_of(data);
    lemma_bits_of_len(data);
}

} // verus!
