use vstd::prelude::*;
use vstd::string::StringSliceAdditionalSpecFns;
use sha2::Digest;

verus! {

/// The SHA-256 digest (FIPS 180-4) of a whole byte string.
pub uninterp spec fn sha256_of(data: Seq<u8>) -> Seq<u8>;

/// `sha2::Sha256::digest`: the SHA-256 digest (FIPS 180-4) of all of `data`,
/// 32 bytes. Beyond its length, the contract only ties the digest to its
/// whole input by a name.
#[verifier::external_body]
fn sha256(data: &[u8]) -> (r: Vec<u8>)
    ensures
        r@ == sha256_of(data@),
        r@.len() == 32,
{
    sha2::Sha256::digest(data).to_vec()
}

/// The lower-case hexadecimal digit of a value below 16.
pub open spec fn hex_digit(n: u8) -> char {
    if n < 10 {
        (48 + n) as char
    } else {
        (87 + n) as char
    }
}

/// Lower-case hexadecimal: two digits per byte, high nibble first.
pub open spec fn hex_of(data: Seq<u8>) -> Seq<char>
    decreases data.len(),
{
    if data.len() == 0 {
        Seq::empty()
    } else {
        seq![hex_digit(data[0] >> 4u8), hex_digit(data[0] & 15u8)] + hex_of(data.skip(1))
    }
}

/// `hex::encode`: the lower-case hexadecimal text of `data`, two digits per
/// byte, high nibble first.
#[verifier::external_body]
fn hex_encode(data: &[u8]) -> (r: String)
    ensures
        r@ == hex_of(data@),
{
    hex::encode(data)
}

/// The fixed creation time of every note (2025-01-01T00:00:00Z).
pub const NOTE_CREATED_AT: u64 = 1735689600;

/// A Nostr-style kind-1 text note.
pub struct NoteEvent {
    pub kind: u32,
    pub pubkey: String,
    pub created_at: u64,
    pub tags: Vec<Vec<String>>,
    pub content: String,
}

/// A bundle of notes in the `{version, events}` shape.
pub struct PostBundle {
    pub version: u32,
    pub events: Vec<NoteEvent>,
}

/// Why a note cannot be made.
#[derive(Debug, Clone, Copy, PartialEq, Eq, Structural)]
pub enum PostError {
    /// The private key text is not 64 bytes long.
    BadPrivkeyLength,
}

/// The message shown for a private key of the wrong length.
pub open spec fn post_error_text(e: PostError) -> Seq<char> {
    match e {
        PostError::BadPrivkeyLength => "privkey-hex must be 64 hex characters"@,
    }
}

impl PostError {
    /// The message shown for this error.
    pub fn message(&self) -> (r: String)
        ensures
            r@ == post_error_text(*self),
    {
        match self {
            PostError::BadPrivkeyLength => String::from_str("privkey-hex must be 64 hex characters"),
        }
    }
}

/// The bytes ":pubkey".
pub open spec fn pubkey_suffix() -> Seq<u8> {
    seq![0x3au8, 0x70u8, 0x75u8, 0x62u8, 0x6bu8, 0x65u8, 0x79u8]
}

/// The bytes ":anon".
pub open spec fn anon_suffix() -> Seq<u8> {
    seq![0x3au8, 0x61u8, 0x6eu8, 0x6fu8, 0x6eu8]
}

/// What the public key of a note is hashed from: the private key text and
/// ":pubkey" when one is given (it must be 64 bytes long), else the message
/// and ":anon".
pub open spec fn pubkey_seed_of(message: Seq<u8>, privkey: Option<Seq<u8>>) -> Result<
    Seq<u8>,
    PostError,
> {
    match privkey {
        Some(k) => if k.len() != 64 {
            Err(PostError::BadPrivkeyLength)
        } else {
            Ok(k + pubkey_suffix())
        },
        None => Ok(message + anon_suffix()),
    }
}

/// Whether `b` is the bundle of one note by the key `pubkey` with text
/// `content`.
pub open spec fn is_note_bundle(b: PostBundle, pubkey: Seq<char>, content: Seq<char>) -> bool {
    &&& b.version == 1
    &&& b.events@.len() == 1
    &&& b.events@[0].kind == 1
    &&& b.events@[0].pubkey@ == pubkey
    &&& b.events@[0].created_at == NOTE_CREATED_AT
    &&& b.events@[0].tags@.len() == 0
    &&& b.events@[0].content@ == content
}

fn append_bytes(out: &mut Vec<u8>, data: &[u8])
    ensures
        final(out)@ == old(out)@ + data@,
{
    let ghost start = out@;
    let mut i: usize = 0;
    while i < data.len()
        invariant
            i <= data@.len(),
            out@ == start + data@.take(i as int),
        decreases data@.len() - i,
    {
        out.push(data[i]);
        assert(data@.take(i + 1) =~= data@.take(i as int).push(data@[i as int]));
        i = i + 1;
    }
    assert(data@.take(data@.len() as int) =~= data@);
}

/// The bytes a note's public key is hashed from (see `pubkey_seed_of`).
pub fn pubkey_seed(message: &str, privkey_hex: Option<&str>) -> (r: Result<Vec<u8>, PostError>)
    ensures
        match pubkey_seed_of(
            message.spec_bytes(),
            match privkey_hex {
                Some(k) => Some(k.spec_bytes()),
                None => None,
            },
        ) {
            Ok(seed) => (r matches Ok(v) && v@ == seed),
            Err(e) => r == Err::<Vec<u8>, PostError>(e),
        },
{
    let mut out: Vec<u8> = Vec::new();
    match privkey_hex {
        Some(k) => {
            let kb = k.as_bytes();
            if kb.len() != 64 {
                return Err(PostError::BadPrivkeyLength);
            }
            append_bytes(&mut out, kb);
            let suffix: Vec<u8> = vec![0x3au8, 0x70u8, 0x75u8, 0x62u8, 0x6bu8, 0x65u8, 0x79u8];
            assert(suffix@ =~= pubkey_suffix());
            append_bytes(&mut out, suffix.as_slice());
            assert(out@ =~= k.spec_bytes() + pubkey_suffix());
        },
        None => {
            append_bytes(&mut out, message.as_bytes());
            let suffix: Vec<u8> = vec![0x3au8, 0x61u8, 0x6eu8, 0x6fu8, 0x6eu8];
            assert(suffix@ =~= anon_suffix());
            append_bytes(&mut out, suffix.as_slice());
            assert(out@ =~= message.spec_bytes() + anon_suffix());
        },
    }
    Ok(out)
}

/// The bundle of one kind-1 note with text `message`, created at the fixed
/// time, without tags, whose public key is the hexadecimal of `digest`.
pub fn note_bundle(message: &str, digest: &[u8]) -> (b: PostBundle)
    ensures
        is_note_bundle(b, hex_of(digest@), message@),
{
    let event = NoteEvent {
        kind: 1,
        pubkey: hex_encode(digest),
        created_at: NOTE_CREATED_AT,
        tags: Vec::new(),
        content: message.to_owned(),
    };
    let mut events: Vec<NoteEvent> = Vec::new();
    events.push(event);
    PostBundle { version: 1, events }
}

/// Makes the bundle of one note for `message`. Its public key is the
/// lower-case hexadecimal SHA-256 of the private key text and ":pubkey" when
/// a key is given, which must then be 64 bytes long, else of the message and
/// ":anon".
pub fn build_post(message: &str, privkey_hex: Option<&str>) -> (r: Result<PostBundle, PostError>)
    ensures
        match pubkey_seed_of(
            message.spec_bytes(),
            match privkey_hex {
                Some(k) => Some(k.spec_bytes()),
                None => None,
            },
        ) {
            Ok(seed) => (r matches Ok(b) && is_note_bundle(b, hex_of(sha256_of(seed)), message@)),
            Err(e) => (r matches Err(e2) && e2 == e),
        },
{
    let seed = match pubkey_seed(message, privkey_hex) {
        Ok(s) => s,
        Err(e) => return Err(e),
    };
    let digest = sha256(seed.as_slice());
    Ok(note_bundle(message, digest.as_slice()))
}

} // verus!
