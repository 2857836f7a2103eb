use vstd::prelude::*;
use vstd::string::StringSliceAdditionalSpecFns;
use crate::text::{decimal_of, push_char, push_decimal};

verus! {

/// ASCII lower-casing of one character; every other character is unchanged.
pub open spec fn lower_char(c: char) -> char {
    if 'A' <= c && c <= 'Z' {
        ((c as u32) + 32) as char
    } else {
        c
    }
}

/// ASCII lower-casing of a text, character by character.
pub open spec fn lower_ascii(s: Seq<char>) -> Seq<char> {
    s.map_values(|c: char| lower_char(c))
}

/// The ASCII lower-case of one character.
fn lower_char_exec(c: char) -> (r: char)
    ensures
        r == lower_char(c),
{
    if 'A' <= c && c <= 'Z' {
        let v = (c as u32) + 32;
        let b = v as u8;
        assert(b as u32 == v);
        b as char
    } else {
        c
    }
}

/// A copy of the text where 'A'..='Z' become 'a'..='z' and every other
/// character stays as it is.
pub fn ascii_lowercase(s: &str) -> (r: String)
    ensures
        r@ == lower_ascii(s@),
{
    broadcast use vstd::string::group_string_axioms;
    let mut out = String::new();
    for c in it: s.chars()
        invariant
            it.seq() == s@,
            out@ == lower_ascii(s@.take(it.index() as int)),
    {
        push_char(&mut out, lower_char_exec(c));
        assert(lower_ascii(s@.take(it.index() + 1)) =~= lower_ascii(s@.take(it.index() as int)).push(lower_char(c)));
    }
    assert(s@.take(s@.len() as int) =~= s@);
    out
}

/// Character-wise equality of two texts.
pub fn text_eq(a: &str, b: &str) -> (r: bool)
    ensures
        r == (a@ == b@),
{
    let n = a.unicode_len();
    if n != b.unicode_len() {
        return false;
    }
    let mut i: usize = 0;
    while i < n
        invariant
            n == a@.len(),
            n == b@.len(),
            i <= n,
            forall|j: int| 0 <= j < i ==> a@[j] == b@[j],
        decreases n - i,
    {
        if a.get_char(i) != b.get_char(i) {
            return false;
        }
        i = i + 1;
    }
    assert(a@ =~= b@);
    true
}

/// The embedding modes: three repetition strengths of the block-average
/// JPEG coder, and the lossless least-significant-bit coder.
#[derive(Debug, Clone, Copy, PartialEq, Eq, Structural)]
pub enum Mode {
    /// Repetition 15.
    RobustFortress,
    /// Repetition 8.
    ArmorMax,
    /// Repetition 4.
    ArmorStandard,
    /// One bit per channel byte, no repetition.
    Lossless,
}

/// A mode name that is not known; it carries the lower-cased name.
#[derive(Debug, PartialEq, Eq)]
pub enum ModeError {
    /// The lower-cased name given.
    Unknown(String),
}

/// The message shown for an unknown mode name.
pub open spec fn mode_error_text(name: Seq<char>) -> Seq<char> {
    "unknown mode '"@ + name + "'. Use robust, armor-max, armor-standard, or lossless"@
}

impl ModeError {
    /// The message shown for this error.
    pub fn message(&self) -> (r: String)
        ensures
            match self {
                ModeError::Unknown(name) => r@ == mode_error_text(name@),
            },
    {
        match self {
            ModeError::Unknown(name) => {
                let mut s = String::from_str("unknown mode '");
                s.append(name.as_str());
                s.append("'. Use robust, armor-max, armor-standard, or lossless");
                s
            },
        }
    }
}

/// The mode a lower-cased name stands for.
pub open spec fn mode_named(name: Seq<char>) -> Option<Mode> {
    if name == "robust"@ || name == "fortress"@ || name == "jpeg"@ {
        Some(Mode::RobustFortress)
    } else if name == "armor-max"@ || name == "armormax"@ {
        Some(Mode::ArmorMax)
    } else if name == "armor"@ || name == "armor-standard"@ {
        Some(Mode::ArmorStandard)
    } else if name == "lossless"@ || name == "png"@ {
        Some(Mode::Lossless)
    } else {
        None
    }
}

/// How many times each bit is written in a mode.
pub open spec fn repeat_of(m: Mode) -> nat {
    match m {
        Mode::RobustFortress => 15,
        Mode::ArmorMax => 8,
        Mode::ArmorStandard => 4,
        Mode::Lossless => 1,
    }
}

/// The canonical name of a mode.
pub open spec fn name_of(m: Mode) -> Seq<char> {
    match m {
        Mode::RobustFortress => "robust"@,
        Mode::ArmorMax => "armor-max"@,
        Mode::ArmorStandard => "armor-standard"@,
        Mode::Lossless => "lossless"@,
    }
}

/// How many blocks a packet of `len` bytes takes in a mode.
pub open spec fn coded_bits_of(m: Mode, len: nat) -> nat {
    len * 8 * repeat_of(m)
}

/// Why a packet cannot be embedded in a JPEG mode.
#[derive(Debug, Clone, Copy, PartialEq, Eq, Structural)]
pub enum EmbedError {
    /// Even the weakest fallback needs more blocks than the carrier has: the
    /// blocks the requested mode needs, and the blocks available.
    TooLargeForJpeg { needed: usize, available: usize },
}

/// The message shown when a packet does not fit a carrier in any JPEG mode.
pub open spec fn embed_error_text(e: EmbedError) -> Seq<char> {
    match e {
        EmbedError::TooLargeForJpeg { needed, available } => "payload too large for JPEG modes: need "@
            + decimal_of(needed as nat) + " coded bits, image has "@ + decimal_of(available as nat)
            + " blocks. Use a larger cover, --mode lossless, or a shorter payload."@,
    }
}

impl EmbedError {
    /// The message shown for this error.
    pub fn message(&self) -> (r: String)
        ensures
            r@ == embed_error_text(*self),
    {
        match self {
            EmbedError::TooLargeForJpeg { needed, available } => {
                let mut s = String::from_str("payload too large for JPEG modes: need ");
                push_decimal(&mut s, *needed as u64);
                s.append(" coded bits, image has ");
                push_decimal(&mut s, *available as u64);
                s.append(" blocks. Use a larger cover, --mode lossless, or a shorter payload.");
                s
            },
        }
    }
}

/// The JPEG mode a packet of `len` bytes is embedded in, given the requested
/// mode and the carrier's blocks: the requested mode when it fits, else
/// armor-max, else armor-standard; else the blocks the requested mode needs.
pub open spec fn jpeg_mode_choice(m: Mode, len: nat, available: nat) -> Result<Mode, (nat, nat)> {
    if coded_bits_of(m, len) <= available {
        Ok(m)
    } else if coded_bits_of(Mode::ArmorMax, len) <= available {
        Ok(Mode::ArmorMax)
    } else if coded_bits_of(Mode::ArmorStandard, len) <= available {
        Ok(Mode::ArmorStandard)
    } else {
        Err((coded_bits_of(m, len), available))
    }
}

impl Mode {
    /// Parses a mode name, ignoring ASCII case: robust, fortress or jpeg;
    /// armor-max or armormax; armor or armor-standard; lossless or png.
    pub fn parse(s: &str) -> (r: Result<Mode, ModeError>)
        ensures
            match mode_named(lower_ascii(s@)) {
                Some(m) => r == Ok::<Mode, ModeError>(m),
                None => (r matches Err(ModeError::Unknown(t)) && t@ == lower_ascii(s@)),
            },
    {
        let l = ascii_lowercase(s);
        let t = l.as_str();
        if text_eq(t, "robust") || text_eq(t, "fortress") || text_eq(t, "jpeg") {
            Ok(Mode::RobustFortress)
        } else if text_eq(t, "armor-max") || text_eq(t, "armormax") {
            Ok(Mode::ArmorMax)
        } else if text_eq(t, "armor") || text_eq(t, "armor-standard") {
            Ok(Mode::ArmorStandard)
        } else if text_eq(t, "lossless") || text_eq(t, "png") {
            Ok(Mode::Lossless)
        } else {
            Err(ModeError::Unknown(l))
        }
    }

    /// How many times each bit is written: 15, 8, 4, or 1 for lossless.
    pub fn repeat(self) -> (r: usize)
        ensures
            r == repeat_of(self),
    {
        match self {
            Mode::RobustFortress => 15,
            Mode::ArmorMax => 8,
            Mode::ArmorStandard => 4,
            Mode::Lossless => 1,
        }
    }

    /// The canonical name: robust, armor-max, armor-standard or lossless.
    pub fn name(self) -> (r: &'static str)
        ensures
            r@ == name_of(self),
    {
        match self {
            Mode::RobustFortress => "robust",
            Mode::ArmorMax => "armor-max",
            Mode::ArmorStandard => "armor-standard",
            Mode::Lossless => "lossless",
        }
    }

    /// Whether the mode writes into JPEG blocks (every mode but lossless).
    pub fn is_jpeg(self) -> (r: bool)
        ensures
            r == (self != Mode::Lossless),
    {
        !matches!(self, Mode::Lossless)
    }

    /// How many blocks a packet of `len` bytes takes in this mode.
    pub fn coded_bits(self, len: usize) -> (r: usize)
        requires
            len <= usize::MAX / 120,
        ensures
            r == coded_bits_of(self, len as nat),
    {
        len * 8 * self.repeat()
    }
}

/// Chooses the JPEG mode for a packet of `packet_len` bytes in a carrier of
/// `available` blocks: the requested mode when its coded bits fit, else the
/// first of armor-max and armor-standard that fits; when none fits, the error
/// carries the blocks the requested mode needs and the blocks available.
pub fn select_jpeg_mode(mode: Mode, packet_len: usize, available: usize) -> (r: Result<
    Mode,
    EmbedError,
>)
    requires
        packet_len <= usize::MAX / 120,
    ensures
        match jpeg_mode_choice(mode, packet_len as nat, available as nat) {
            Ok(m) => r == Ok::<Mode, EmbedError>(m),
            Err((needed, avail)) => r == Err::<Mode, EmbedError>(
                EmbedError::TooLargeForJpeg { needed: needed as usize, available: avail as usize },
            ),
        },
{
    let needed = mode.coded_bits(packet_len);
    if needed <= available {
        return Ok(mode);
    }
    if Mode::ArmorMax.coded_bits(packet_len) <= available {
        return Ok(Mode::ArmorMax);
    }
    if Mode::ArmorStandard.coded_bits(packet_len) <= available {
        return Ok(Mode::ArmorStandard);
    }
    Err(EmbedError::TooLargeForJpeg { needed, available })
}

/// The longest side a platform keeps: 1440 for instagram, 2560 for telegram,
/// 1600 otherwise (whatsapp and unknown names), ignoring ASCII case.
pub open spec fn max_side_of(platform: Seq<char>) -> u32 {
    if lower_ascii(platform) == "instagram"@ {
        1440
    } else if lower_ascii(platform) == "telegram"@ {
        2560
    } else {
        1600
    }
}

/// The JPEG quality a platform re-encodes with: 70 for instagram, 75 for
/// telegram, 70 otherwise, ignoring ASCII case.
pub open spec fn quality_of(platform: Seq<char>) -> u8 {
    if lower_ascii(platform) == "instagram"@ {
        70
    } else if lower_ascii(platform) == "telegram"@ {
        75
    } else {
        70
    }
}

/// The longest side a platform keeps.
pub fn platform_max_side(platform: &str) -> (r: u32)
    ensures
        r == max_side_of(platform@),
{
    let l = ascii_lowercase(platform);
    let t = l.as_str();
    if text_eq(t, "instagram") {
        1440
    } else if text_eq(t, "telegram") {
        2560
    } else {
        1600
    }
}

/// The JPEG quality a platform re-encodes with.
pub fn platform_quality(platform: &str) -> (r: u8)
    ensures
        r == quality_of(platform@),
{
    let l = ascii_lowercase(platform);
    let t = l.as_str();
    if text_eq(t, "instagram") {
        70
    } else if text_eq(t, "telegram") {
        75
    } else {
        70
    }
}

/// The quality the survival test re-encodes with: the platform's quality less
/// 15 (stopping at 0), and at least 50.
pub fn simulated_quality(platform: &str) -> (r: u8)
    ensures
        r == (if quality_of(platform@) >= 65 {
            quality_of(platform@) - 15
        } else {
            50
        }),
{
    let q = platform_quality(platform);
    let lowered = if q >= 15 { q - 15 } else { 0 };
    if lowered >= 50 {
        lowered
    } else {
        50
    }
}

/// The survival estimate printed after embedding.
pub open spec fn survival_label_of(mode: Mode, platform: Option<Seq<char>>) -> Seq<char> {
    match mode {
        Mode::RobustFortress => "high (Fortress, target "@ + (match platform {
            Some(p) => p,
            None => "whatsapp"@,
        }) + ")"@,
        Mode::ArmorMax => "usually high with carrier prep"@,
        Mode::ArmorStandard => "moderate — milder platforms"@,
        Mode::Lossless => "none on photo recompression"@,
    }
}

/// The survival estimate printed after embedding in `mode` for `platform`
/// (whatsapp when none is named).
pub fn survival_label(mode: Mode, platform: Option<&str>) -> (r: String)
    ensures
        r@ == survival_label_of(
            mode,
            match platform {
                Some(p) => Some(p@),
                None => None,
            },
        ),
{
    match mode {
        Mode::RobustFortress => {
            let target = match platform {
                Some(p) => p,
                None => "whatsapp",
            };
            let mut s = String::from_str("high (Fortress, target ");
            s.append(target);
            s.append(")");
            s
        },
        Mode::ArmorMax => String::from_str("usually high with carrier prep"),
        Mode::ArmorStandard => String::from_str("moderate — milder platforms"),
        Mode::Lossless => String::from_str("none on photo recompression"),
    }
}

/// The side length of 8x8 blocks of a carrier side: rounded down to a whole
/// number of blocks, and at least 16 blocks.
pub fn align_side(side: u32) -> (r: u32)
    ensures
        r == (if side / 8 * 8 >= 128 {
            side / 8 * 8
        } else {
            128
        }),
{
    let s = side / 8 * 8;
    if s >= 128 {
        s
    } else {
        128
    }
}

/// The number of whole 8x8 blocks in a `width` x `height` carrier.
pub fn block_count(width: u32, height: u32) -> (r: usize)
    requires
        (width / 8) * (height / 8) <= u32::MAX,
    ensures
        r == (width / 8) * (height / 8),
{
    ((width / 8) * (height / 8)) as usize
}

/// The payload bytes a carrier can hold in a mode, after the 16 bytes of
/// packet overhead: for JPEG modes, the blocks over eight times the
/// repetition; for lossless, one bit per channel byte of a `width` x
/// `height` RGB image. Never below zero.
pub open spec fn usable_bytes_of(mode: Mode, blocks: nat, width: nat, height: nat) -> nat {
    let raw: int = if mode != Mode::Lossless {
        (blocks / (8 * repeat_of(mode))) as int
    } else {
        (width * height * 3 / 8) as int
    };
    if raw >= 16 {
        (raw - 16) as nat
    } else {
        0
    }
}

/// The payload bytes a carrier can hold in a mode (see `usable_bytes_of`).
pub fn usable_payload_bytes(mode: Mode, blocks: usize, width: u32, height: u32) -> (r: usize)
    requires
        mode == Mode::Lossless ==> width * height * 3 <= usize::MAX,
    ensures
        r == usable_bytes_of(mode, blocks as nat, width as nat, height as nat),
{
    let raw: usize = if mode.is_jpeg() {
        blocks / (8 * mode.repeat())
    } else {
        (width as usize) * (height as usize) * 3 / 8
    };
    if raw >= 16 {
        raw - 16
    } else {
        0
    }
}

/// Where a payload argument takes its bytes from.
#[derive(Debug, PartialEq, Eq)]
pub enum PayloadSource {
    /// An argument "@path": the bytes of the file at the path.
    File(String),
    /// Any other argument: its own UTF-8 bytes.
    Inline(Vec<u8>),
}

/// Reads a payload argument: "@path" names a file, anything else is the
/// payload itself.
pub fn payload_source(arg: &str) -> (r: PayloadSource)
    ensures
        arg@.len() > 0 && arg@[0] == '@' ==> (r matches PayloadSource::File(path) && path@
            == arg@.skip(1)),
        !(arg@.len() > 0 && arg@[0] == '@') ==> (r matches PayloadSource::Inline(bytes)
            && bytes@ == arg.spec_bytes()),
{
    let n = arg.unicode_len();
    if n > 0 && arg.get_char(0) == '@' {
        let rest = arg.substring_char(1, n);
        assert(arg@.subrange(1, n as int) == arg@.skip(1));
        PayloadSource::File(rest.to_owned())
    } else {
        PayloadSource::Inline(vstd::slice::slice_to_vec(arg.as_bytes()))
    }
}

/// Lower-casing leaves a text without upper-case ASCII letters unchanged.
proof fn lemma_lower_ascii_fixed(s: Seq<char>)
    requires
        forall|i: int| 0 <= i < s.len() ==> !('A' <= #[trigger] s[i] && s[i] <= 'Z'),
    ensures
        lower_ascii(s) == s,
{
    assert(lower_ascii(s) =~= s);
}

/// Every mode's name parses back to the mode.
pub proof fn law_parse_name(m: Mode)
    ensures
        mode_named(lower_ascii(name_of(m))) == Some(m),
{
    reveal_strlit("robust");
    reveal_strlit("armor-max");
    reveal_strlit("armor-standard");
    reveal_strlit("lossless");
    reveal_strlit("fortress");
    reveal_strlit("jpeg");
    reveal_strlit("armormax");
    reveal_strlit("armor");
    reveal_strlit("png");
    let n = name_of(m);
    assert forall|i: int| 0 <= i < n.len() implies !('A' <= #[trigger] n[i] && n[i] <= 'Z') by {
    }
    lemma_lower_ascii_fixed(n);
    match m {
        Mode::RobustFortress => {
            assert(n == "robust"@);
        },
        Mode::ArmorMax => {
            assert(n != "robust"@ && n != "fortress"@ && n != "jpeg"@) by {
                assert(n[0] != "robust"@[0]);
                assert(n[0] != "fortress"@[0]);
            }
        },
        Mode::ArmorStandard => {
            assert(n != "robust"@ && n != "fortress"@ && n != "jpeg"@);
            assert(n != "armor-max"@ && n != "armormax"@);
        },
        Mode::Lossless => {
            assert(n != "robust"@ && n != "jpeg"@);
            assert(n != "fortress"@) by {
                assert(n[0] != "fortress"@[0]);
            }
            assert(n != "armormax"@) by {
                assert(n[0] != "armormax"@[0]);
            }
            assert(n != "armor-max"@ && n != "armor"@ && n != "armor-standard"@);
        },
    }
}

/// The mode chosen for embedding always has room: its coded bits fit the
/// carrier's blocks.
pub proof fn law_chosen_mode_fits(m: Mode, len: nat, available: nat)
    ensures
        jpeg_mode_choice(m, len, available) matches Ok(chosen) ==> coded_bits_of(chosen, len)
            <= available,
{
}

/// The capacity estimate is honest: a body no longer than the usable bytes
/// of a carrier fits it. In a JPEG mode its packet (16 more bytes) is
/// embedded in that very mode; in lossless mode its packet's bits fit the
/// channel bytes of the image (packing itself still refuses bodies over
/// 65535 bytes).
pub proof fn law_capacity_fits(m: Mode, body_len: nat, blocks: nat, width: nat, height: nat)
    requires
        body_len <= usable_bytes_of(m, blocks, width, height),
        usable_bytes_of(m, blocks, width, height) > 0,
    ensures
        m != Mode::Lossless ==> jpeg_mode_choice(m, body_len + 16, blocks) == Ok::<
            Mode,
            (nat, nat),
        >(m),
        m == Mode::Lossless ==> 8 * (body_len + 16) <= width * height * 3,
{
    let len = body_len + 16;
    if m != Mode::Lossless {
        let d = 8 * repeat_of(m);
        assert(d > 0);
        assert(len <= blocks / d);
        assert(len * 8 * repeat_of(m) <= blocks) by (nonlinear_arith)
            requires
                len <= blocks / d,
                d == 8 * repeat_of(m),
                d > 0,
        ;
    } else {
        let c = width * height * 3;
        assert(len <= c / 8);
        assert(8 * len <= c) by (nonlinear_arith)
            requires
                len <= c / 8,
        ;
    }
}

/// The capacity estimate is exact: one byte more than the usable bytes no
/// longer fits. In a JPEG mode a packet of `usable + 17` bytes needs more
/// blocks than the carrier has (while `usable + 16` fits when usable is
/// positive); in lossless mode its bits exceed the channel bytes.
pub proof fn law_capacity_exact(m: Mode, blocks: nat, width: nat, height: nat)
    ensures
        m != Mode::Lossless ==> coded_bits_of(m, usable_bytes_of(m, blocks, width, height) + 17)
            > blocks,
        m != Mode::Lossless && usable_bytes_of(m, blocks, width, height) > 0 ==> coded_bits_of(
            m,
            usable_bytes_of(m, blocks, width, height) + 16,
        ) <= blocks,
        m == Mode::Lossless ==> 8 * (usable_bytes_of(m, blocks, width, height) + 17) > width
            * height * 3,
{
    let u = usable_bytes_of(m, blocks, width, height);
    if m != Mode::Lossless {
        let r = repeat_of(m);
        let d = 8 * r;
        assert(d > 0);
        let q = blocks / d;
        assert(u + 17 >= q + 1);
        assert((u + 17) * 8 * r > blocks) by (nonlinear_arith)
            requires
                u + 17 >= q + 1,
                q == blocks / d,
                d == 8 * r,
                d > 0,
        ;
        if u > 0 {
            law_capacity_fits(m, u, blocks, width, height);
        }
    } else {
        let c = width * height * 3;
        let q = c / 8;
        assert(u + 17 >= q + 1);
        assert(8 * (u + 17) > c) by (nonlinear_arith)
            requires
                u + 17 >= q + 1,
                q == c / 8,
        ;
    }
}

} // verus!
