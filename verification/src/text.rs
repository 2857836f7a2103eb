use vstd::prelude::*;
use vstd::utf8::{decode_utf8, valid_utf8};
use crate::json::{detect_report, pretty_object, pretty_object_of, report_fields};

verus! {

/// The base64 symbol (standard alphabet) for a six-bit value.
pub open spec fn b64_symbol(v: u8) -> char {
    if v < 26 {
        (65 + v) as char
    } else if v < 52 {
        (97 + (v - 26)) as char
    } else if v < 62 {
        (48 + (v - 52)) as char
    } else if v == 62 {
        '+'
    } else {
        '/'
    }
}

/// Standard base64 with '=' padding: each group of three bytes becomes four
/// symbols; a last group of one or two bytes is padded.
pub open spec fn b64_of(data: Seq<u8>) -> Seq<char>
    decreases data.len(),
{
    if data.len() == 0 {
        Seq::empty()
    } else {
        let a = data[0];
        let b: u8 = if data.len() > 1 { data[1] } else { 0 };
        let c: u8 = if data.len() > 2 { data[2] } else { 0 };
        let quad = seq![
            b64_symbol(a >> 2u8),
            b64_symbol(((a & 3u8) << 4u8) | (b >> 4u8)),
            if data.len() > 1 { b64_symbol(((b & 15u8) << 2u8) | (c >> 6u8)) } else { '=' },
            if data.len() > 2 { b64_symbol(c & 63u8) } else { '=' },
        ];
        if data.len() > 3 {
            quad + b64_of(data.skip(3))
        } else {
            quad
        }
    }
}

/// `String::push`: appends one character.
#[verifier::external_body]
pub(crate) fn push_char(s: &mut String, c: char)
    ensures
        final(s)@ == old(s)@.push(c),
{
    s.push(c)
}

/// `String::from_utf8`: the text that `bytes` encode when they are valid UTF-8.
#[verifier::external_body]
fn utf8_text(bytes: &[u8]) -> (r: Option<String>)
    ensures
        r is Some <==> valid_utf8(bytes@),
        r matches Some(s) ==> s@ == decode_utf8(bytes@),
{
    String::from_utf8(bytes.to_vec()).ok()
}

/// The base64 symbol for a six-bit value.
fn b64_symbol_exec(v: u8) -> (c: char)
    requires
        v < 64,
    ensures
        c == b64_symbol(v),
{
    if v < 26 {
        (65 + v) as char
    } else if v < 52 {
        (97 + (v - 26)) as char
    } else if v < 62 {
        (48 + (v - 52)) as char
    } else if v == 62 {
        '+'
    } else {
        '/'
    }
}

/// Standard base64 of `data`, with '=' padding.
pub fn b64(data: &[u8]) -> (out: String)
    ensures
        out@ == b64_of(data@),
{
    let mut out = String::new();
    b64_append(&mut out, data);
    assert(out@ =~= b64_of(data@));
    out
}

/// Appends the standard base64 of `data`, with '=' padding, to `out`.
fn b64_append(out: &mut String, data: &[u8])
    ensures
        final(out)@ == old(out)@ + b64_of(data@),
{
    let ghost start = out@;
    let n = data.len();
    let mut i: usize = 0;
    assert(data@.skip(0) =~= data@);
    while i < n
        invariant
            n == data@.len(),
            i <= n,
            out@ + b64_of(data@.skip(i as int)) == start + b64_of(data@),
        decreases n - i,
    {
        let rest = n - i;
        let a = data[i];
        let b: u8 = if rest > 1 { data[i + 1] } else { 0 };
        let c: u8 = if rest > 2 { data[i + 2] } else { 0 };
        let s0 = a >> 2u8;
        let s1 = ((a & 3u8) << 4u8) | (b >> 4u8);
        let s2 = ((b & 15u8) << 2u8) | (c >> 6u8);
        let s3 = c & 63u8;
        assert(s0 < 64 && s1 < 64 && s2 < 64 && s3 < 64) by (bit_vector)
            requires
                s0 == a >> 2u8,
                s1 == ((a & 3u8) << 4u8) | (b >> 4u8),
                s2 == ((b & 15u8) << 2u8) | (c >> 6u8),
                s3 == c & 63u8,
        ;
        let ghost before = out@;
        let ghost tail = data@.skip(i as int);
        push_char(out, b64_symbol_exec(s0));
        push_char(out, b64_symbol_exec(s1));
        if rest > 1 {
            push_char(out, b64_symbol_exec(s2));
        } else {
            push_char(out, '=');
        }
        if rest > 2 {
            push_char(out, b64_symbol_exec(s3));
        } else {
            push_char(out, '=');
        }
        proof {
            assert(tail[0] == a);
            assert(rest > 1 ==> tail[1] == b);
            assert(rest > 2 ==> tail[2] == c);
            let quad = out@.subrange(before.len() as int, out@.len() as int);
            assert(out@ =~= before + quad);
            if rest > 3 {
                assert(tail.skip(3) =~= data@.skip(i + 3));
                assert(b64_of(tail) =~= quad + b64_of(data@.skip(i + 3)));
                assert(out@ + b64_of(data@.skip(i + 3)) =~= before + b64_of(tail));
            } else {
                assert(b64_of(tail) =~= quad);
                assert(data@.skip(n as int) =~= Seq::<u8>::empty());
                assert(out@ + b64_of(data@.skip(n as int)) =~= before + b64_of(tail));
            }
        }
        if rest > 3 {
            i = i + 3;
        } else {
            i = n;
        }
    }
    assert(data@.skip(n as int) =~= Seq::<u8>::empty());
    assert(out@ + b64_of(data@.skip(n as int)) =~= out@);
}

/// How a byte string is shown: as text when it is valid UTF-8, otherwise as
/// "base64:" followed by its base64.
pub open spec fn rendered(bytes: Seq<u8>) -> Seq<char> {
    if valid_utf8(bytes) {
        decode_utf8(bytes)
    } else {
        seq!['b', 'a', 's', 'e', '6', '4', ':'] + b64_of(bytes)
    }
}

/// Shows a byte string: its text when it is valid UTF-8, else "base64:" and
/// its base64.
pub fn render_text(bytes: &[u8]) -> (s: String)
    ensures
        s@ == rendered(bytes@),
{
    match utf8_text(bytes) {
        Some(s) => s,
        None => {
            let mut s = String::new();
            push_char(&mut s, 'b');
            push_char(&mut s, 'a');
            push_char(&mut s, 's');
            push_char(&mut s, 'e');
            push_char(&mut s, '6');
            push_char(&mut s, '4');
            push_char(&mut s, ':');
            assert(s@ =~= seq!['b', 'a', 's', 'e', '6', '4', ':']);
            b64_append(&mut s, bytes);
            s
        }
    }
}

/// The pretty-printed JSON text of a byte string that parses as JSON.
pub uninterp spec fn pretty_json_of(bytes: Seq<u8>) -> Option<Seq<char>>;

/// `serde_json::from_slice` into a `serde_json::Value`, then
/// `serde_json::to_string_pretty`: the pretty-printed JSON when `bytes` parse
/// as JSON, else nothing. The contract only ties the text to the bytes by a
/// name.
#[verifier::external_body]
fn pretty_json(bytes: &[u8]) -> (r: Option<String>)
    ensures
        match pretty_json_of(bytes@) {
            Some(t) => (r matches Some(s) && s@ == t),
            None => r is None,
        },
{
    match serde_json::from_slice::<serde_json::Value>(bytes) {
        Ok(v) => serde_json::to_string_pretty(&v).ok(),
        Err(_) => None,
    }
}

/// The text of a byte string with each invalid UTF-8 sequence replaced by
/// U+FFFD.
pub uninterp spec fn utf8_lossy_of(bytes: Seq<u8>) -> Seq<char>;

/// `String::from_utf8_lossy`: the text of `bytes`, with invalid sequences
/// replaced by U+FFFD; valid UTF-8 is decoded unchanged.
#[verifier::external_body]
fn utf8_lossy(bytes: &[u8]) -> (r: String)
    ensures
        r@ == utf8_lossy_of(bytes@),
        valid_utf8(bytes@) ==> r@ == decode_utf8(bytes@),
{
    String::from_utf8_lossy(bytes).to_string()
}

/// What detection prints as JSON for a payload: the payload itself,
/// pretty-printed, when it is JSON; else the report object (see
/// `report_fields`) holding the payload as text (invalid UTF-8 replaced) and
/// its length in bytes.
pub open spec fn json_rendered(bytes: Seq<u8>) -> Seq<char> {
    match pretty_json_of(bytes) {
        Some(t) => t,
        None => pretty_object_of(report_fields(utf8_lossy_of(bytes), bytes.len() as u64)),
    }
}

/// Shows a payload as JSON (see `json_rendered`).
pub fn render_json(bytes: &[u8]) -> (s: String)
    ensures
        s@ == json_rendered(bytes@),
{
    match pretty_json(bytes) {
        Some(t) => t,
        None => pretty_object(&detect_report(utf8_lossy(bytes), bytes.len() as u64)),
    }
}

/// The decimal digit for a value below 10.
pub open spec fn digit_char(d: nat) -> char {
    (48 + d) as char
}

/// The decimal numeral of a number, without leading zeros ("0" for zero).
pub open spec fn decimal_of(n: nat) -> Seq<char>
    decreases n,
{
    if n < 10 {
        seq![digit_char(n)]
    } else {
        decimal_of(n / 10).push(digit_char(n % 10))
    }
}

/// Appends the decimal numeral of `n` to `s`.
pub fn push_decimal(s: &mut String, n: u64)
    ensures
        final(s)@ == old(s)@ + decimal_of(n as nat),
    decreases n,
{
    if n >= 10 {
        push_decimal(s, n / 10);
    }
    let d = (n % 10) as u8;
    push_char(s, (48u8 + d) as char);
    assert(final(s)@ =~= old(s)@ + decimal_of(n as nat));
}

} // verus!
