use vstd::prelude::*;
use crate::crypt::{derived_key, derived_key_bytes, law_xor_involution, xor_crypt, xor_with_key};
use crate::packet::{
    flags_byte, law_unpack_of_pack, pack_payload, packet_of, unpack_of, unpack_payload, PackError,
    UnpackError, FLAG_ENCRYPTED, MAX_BODY,
};
use crate::text::{json_rendered, render_json, render_text, rendered};
use crate::bits::bits_of;
use crate::carrier::{extract_any_of, law_detect_robust, repeat_bits};

verus! {

/// The body a message is packed as: XOR-ed with the open-mode key when
/// encrypting, the message itself otherwise.
pub open spec fn body_of(raw: Seq<u8>, encrypt: bool) -> Seq<u8> {
    if encrypt {
        xor_with_key(raw, derived_key())
    } else {
        raw
    }
}

/// Whether a flags byte marks its body as encrypted.
pub open spec fn marks_encrypted(flags: u8) -> bool {
    flags & FLAG_ENCRYPTED != 0
}

/// The message a packet carries: its body, XOR-ed with the open-mode key when
/// asked to decrypt or when its flags mark it encrypted.
pub open spec fn opened_of(packet: Seq<u8>, decrypt: bool) -> Result<Seq<u8>, UnpackError> {
    match unpack_of(packet) {
        Err(e) => Err(e),
        Ok((flags, body)) => Ok(
            if decrypt || marks_encrypted(flags) {
                xor_with_key(body, derived_key())
            } else {
                body
            },
        ),
    }
}

/// Packs a message for embedding: encrypts it with the open-mode key when
/// asked, and frames it, flagging the encryption.
pub fn seal_message(raw: &[u8], encrypt: bool) -> (r: Result<Vec<u8>, PackError>)
    ensures
        raw@.len() > MAX_BODY ==> r == Err::<Vec<u8>, PackError>(PackError::TooLarge),
        raw@.len() <= MAX_BODY ==> (r matches Ok(p) && p@ == packet_of(
            body_of(raw@, encrypt),
            encrypt,
        )),
{
    if encrypt {
        let key = derived_key_bytes();
        let body = xor_crypt(raw, key.as_slice());
        pack_payload(body.as_slice(), true)
    } else {
        pack_payload(raw, false)
    }
}

/// Reads the message a packet carries: unpacks it, and decrypts the body
/// with the open-mode key when asked or when the packet is flagged encrypted.
pub fn open_message(packet: &[u8], decrypt: bool) -> (r: Result<Vec<u8>, UnpackError>)
    ensures
        match opened_of(packet@, decrypt) {
            Ok(m) => (r matches Ok(v) && v@ == m),
            Err(e) => r == Err::<Vec<u8>, UnpackError>(e),
        },
{
    match unpack_payload(packet) {
        Err(e) => Err(e),
        Ok((flags, body)) => {
            if decrypt || flags & FLAG_ENCRYPTED != 0 {
                let key = derived_key_bytes();
                Ok(xor_crypt(body.as_slice(), key.as_slice()))
            } else {
                Ok(body)
            }
        },
    }
}

/// What detection prints for a packet: the opened message as text, or as
/// "base64:" and its base64 when it is not UTF-8.
pub fn detect_text(packet: &[u8], decrypt: bool) -> (r: Result<String, UnpackError>)
    ensures
        match opened_of(packet@, decrypt) {
            Ok(m) => (r matches Ok(s) && s@ == rendered(m)),
            Err(e) => r == Err::<String, UnpackError>(e),
        },
{
    match open_message(packet, decrypt) {
        Err(e) => Err(e),
        Ok(m) => Ok(render_text(m.as_slice())),
    }
}

/// What detection prints as JSON for a packet: the opened message
/// pretty-printed when it is JSON, else the report object of its text and
/// length (see `json_rendered`).
pub fn detect_json(packet: &[u8], decrypt: bool) -> (r: Result<String, UnpackError>)
    ensures
        match opened_of(packet@, decrypt) {
            Ok(m) => (r matches Ok(s) && s@ == json_rendered(m)),
            Err(e) => r == Err::<String, UnpackError>(e),
        },
{
    match open_message(packet, decrypt) {
        Err(e) => Err(e),
        Ok(m) => Ok(render_json(m.as_slice())),
    }
}

/// What raw decoding prints for a packet: its body, never decrypted, as text,
/// or as "base64:" and its base64 when it is not UTF-8.
pub fn decode_text(packet: &[u8]) -> (r: Result<String, UnpackError>)
    ensures
        match unpack_of(packet@) {
            Ok((_flags, body)) => (r matches Ok(s) && s@ == rendered(body)),
            Err(e) => r == Err::<String, UnpackError>(e),
        },
{
    match unpack_payload(packet) {
        Err(e) => Err(e),
        Ok((_flags, body)) => Ok(render_text(body.as_slice())),
    }
}

/// Reading back a sealed message gives the message: for every message of at
/// most 65535 bytes, opening the packet that sealing made gives the message,
/// unless decryption is forced on a packet that was not encrypted.
pub proof fn law_open_of_seal(raw: Seq<u8>, encrypt: bool, decrypt: bool)
    requires
        raw.len() <= MAX_BODY,
        decrypt ==> encrypt,
    ensures
        opened_of(packet_of(body_of(raw, encrypt), encrypt), decrypt) == Ok::<
            Seq<u8>,
            UnpackError,
        >(raw),
{
    let body = body_of(raw, encrypt);
    let p = packet_of(body, encrypt);
    assert(body.len() == raw.len());
    law_unpack_of_pack(body, encrypt);
    lemma_marks_flags(encrypt);
    assert(unpack_of(p) == Ok::<(u8, Seq<u8>), UnpackError>((flags_byte(encrypt), body)));
    if encrypt {
        law_xor_involution(raw, derived_key());
        assert(opened_of(p, decrypt) == Ok::<Seq<u8>, UnpackError>(
            xor_with_key(body, derived_key()),
        ));
    } else {
        assert(opened_of(p, decrypt) == Ok::<Seq<u8>, UnpackError>(body));
    }
}

proof fn lemma_marks_flags(encrypt: bool)
    ensures
        marks_encrypted(flags_byte(encrypt)) == encrypt,
{
    assert(1u8 & 1u8 != 0u8) by (bit_vector);
    assert(0u8 & 1u8 == 0u8) by (bit_vector);
}

/// The robust path end to end: a message of at most 65535 bytes, sealed and
/// coded with repetition 15 into the first blocks of a carrier, is found by
/// detection and opens to the message, whatever the other blocks and the
/// channel bytes hold (unless decryption is forced on a message that was not
/// encrypted).
pub proof fn law_embed_detect_robust(
    raw: Seq<u8>,
    encrypt: bool,
    decrypt: bool,
    tail: Seq<bool>,
    rgb: Seq<u8>,
)
    requires
        raw.len() <= MAX_BODY,
        decrypt ==> encrypt,
    ensures
        ({
            let p = packet_of(body_of(raw, encrypt), encrypt);
            &&& extract_any_of(repeat_bits(bits_of(p), 15) + tail, rgb) == Some(p)
            &&& opened_of(p, decrypt) == Ok::<Seq<u8>, UnpackError>(raw)
        }),
{
    let body = body_of(raw, encrypt);
    assert(body.len() == raw.len());
    law_detect_robust(body, encrypt, tail, rgb);
    law_open_of_seal(raw, encrypt, decrypt);
}

/// Encryption uses the whole 27-byte open-mode key: in the packet sealed for
/// an encrypted message, body byte `i` is message byte `i` XOR key byte
/// `i % 27`, and the flags byte marks the encryption.
pub proof fn law_sealed_body_uses_full_key(raw: Seq<u8>)
    requires
        raw.len() <= MAX_BODY,
    ensures
        derived_key().len() == 27,
        packet_of(body_of(raw, true), true).len() == raw.len() + 16,
        packet_of(body_of(raw, true), true)[9] == FLAG_ENCRYPTED,
        forall|i: int|
            0 <= i < raw.len() ==> #[trigger] packet_of(body_of(raw, true), true)[12 + i] == raw[i]
                ^ derived_key()[i % 27],
{
    let body = body_of(raw, true);
    let p = packet_of(body, true);
    assert(derived_key().len() == 27);
    assert(body.len() == raw.len());
    assert forall|i: int| 0 <= i < raw.len() implies #[trigger] p[12 + i] == raw[i]
        ^ derived_key()[i % 27] by {
        assert(p[12 + i] == body[i]);
    }
}

/// Decryption uses the whole 27-byte open-mode key: opening a packet that is
/// flagged encrypted, or opening with decryption asked, gives body byte `i`
/// XOR key byte `i % 27`.
pub proof fn law_open_uses_full_key(packet: Seq<u8>, decrypt: bool)
    requires
        unpack_of(packet) is Ok,
        decrypt || unpack_of(packet)->Ok_0.0 & 1u8 != 0u8,
    ensures
        ({
            let body = unpack_of(packet)->Ok_0.1;
            &&& opened_of(packet, decrypt) is Ok
            &&& opened_of(packet, decrypt)->Ok_0.len() == body.len()
            &&& forall|i: int|
                0 <= i < body.len() ==> #[trigger] opened_of(packet, decrypt)->Ok_0[i] == body[i]
                    ^ derived_key()[i % 27]
        }),
{
    assert(derived_key().len() == 27);
}

} // verus!
