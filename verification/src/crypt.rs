use vstd::prelude::*;

verus! {

/// Each byte XOR-ed with the key byte at the same position, the key repeated.
pub open spec fn xor_with_key(data: Seq<u8>, key: Seq<u8>) -> Seq<u8> {
    Seq::new(data.len(), |i: int| data[i] ^ key[i % key.len() as int])
}

/// The open-mode key "stegstr-robust-open-mode-v1", shared by every build so
/// that any of them can read what another encrypted.
pub open spec fn derived_key() -> Seq<u8> {
    seq![
        0x73u8, 0x74u8, 0x65u8, 0x67u8, 0x73u8, 0x74u8, 0x72u8, 0x2du8, 0x72u8, 0x6fu8,
        0x62u8, 0x75u8, 0x73u8, 0x74u8, 0x2du8, 0x6fu8, 0x70u8, 0x65u8, 0x6eu8, 0x2du8,
        0x6du8, 0x6fu8, 0x64u8, 0x65u8, 0x2du8, 0x76u8, 0x31u8,
    ]
}

/// The open-mode key as bytes.
pub fn derived_key_bytes() -> (k: Vec<u8>)
    ensures
        k@ == derived_key(),
{
    let k: Vec<u8> = vec![
        0x73u8, 0x74u8, 0x65u8, 0x67u8, 0x73u8, 0x74u8, 0x72u8, 0x2du8, 0x72u8, 0x6fu8,
        0x62u8, 0x75u8, 0x73u8, 0x74u8, 0x2du8, 0x6fu8, 0x70u8, 0x65u8, 0x6eu8, 0x2du8,
        0x6du8, 0x6fu8, 0x64u8, 0x65u8, 0x2du8, 0x76u8, 0x31u8,
    ];
    assert(k@ =~= derived_key());
    k
}

/// XORs `data` with `key` repeated over its length. An empty key is accepted
/// only with empty data.
pub fn xor_crypt(data: &[u8], key: &[u8]) -> (out: Vec<u8>)
    requires
        data@.len() > 0 ==> key@.len() > 0,
    ensures
        out@ == xor_with_key(data@, key@),
{
    let mut out: Vec<u8> = Vec::new();
    let n = data.len();
    let k = key.len();
    let mut i: usize = 0;
    while i < n
        invariant
            n == data@.len(),
            k == key@.len(),
            n > 0 ==> k > 0,
            i <= n,
            out@ =~= xor_with_key(data@, key@).take(i as int),
        decreases n - i,
    {
        out.push(data[i] ^ key[i % k]);
        i = i + 1;
    }
    assert(xor_with_key(data@, key@).take(n as int) =~= xor_with_key(data@, key@));
    out
}

/// XOR with a key is its own inverse: encrypting twice with the same
/// non-empty key gives back the data.
pub proof fn law_xor_involution(data: Seq<u8>, key: Seq<u8>)
    requires
        key.len() > 0,
    ensures
        xor_with_key(xor_with_key(data, key), key) == data,
{
    assert forall|i: int| 0 <= i < data.len() implies #[trigger] xor_with_key(
        xor_with_key(data, key),
        key,
    )[i] == data[i] by {
        let d = data[i];
        let k = key[i % key.len() as int];
        assert((d ^ k) ^ k == d) by (bit_vector);
    }
    assert(xor_with_key(xor_with_key(data, key), key) =~= data);
}

} // verus!
