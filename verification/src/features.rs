//! The feature string of a font specifier: the text after the font's name,
//! of the form `[:|;|,]token[=value](:|;|,)...`, and the directives that
//! it spells.
//!
//! A feature string is read as a zero-terminated string: it ends at its
//! first zero byte, and a read past its end sees a zero byte. Parsing is
//! total. A token that spells no directive gives a warning and is skipped.

use vstd::prelude::*;
use vstd::slice::slice_subrange;
use crate::harfbuzz::Tag;
use crate::harfbuzz::tag_from_bytes;
use crate::graphite2::Face;
use crate::graphite2::FeatureRef;
use crate::bytes::ByteClass;
use crate::bytes::at;
use crate::bytes::byte_at;
use crate::bytes::bytes_equal;
use crate::bytes::copy_from;
use crate::bytes::in_class;
use crate::bytes::is_in_class;
use crate::bytes::is_separator;
use crate::bytes::lemma_run_end;
use crate::bytes::lemma_run_reaches;
use crate::bytes::run_end;
use crate::bytes::scan;
use crate::bytes::starts_with;

verus! {

/// The value of the decimal digits of `s` from `from` to `to`, carried on
/// from `acc` and kept to 32 bits: each digit multiplies the value by ten
/// and adds itself, modulo 2^32.
pub open spec fn decimal_u32(s: Seq<u8>, from: int, to: int, acc: u32) -> u32
    decreases to - from,
{
    if from >= to || from < 0 || from >= s.len() {
        acc
    } else {
        decimal_u32(s, from + 1, to, acc.wrapping_mul(10).wrapping_add((s[from] - 0x30) as u32))
    }
}

/// Reads the decimal digits of `s` from `from` to `to`: see [`decimal_u32`].
pub fn read_decimal_u32(s: &[u8], from: usize, to: usize, acc: u32) -> (r: u32)
    requires
        from <= to <= s@.len(),
        forall|j: int| from <= j < to ==> in_class(ByteClass::Digit, #[trigger] s@[j]),
    ensures
        r == decimal_u32(s@, from as int, to as int, acc),
{
    let mut v: u32 = acc;
    let mut j: usize = from;
    while j < to
        invariant
            from <= j <= to <= s@.len(),
            forall|j: int| from <= j < to ==> in_class(ByteClass::Digit, #[trigger] s@[j]),
            decimal_u32(s@, j as int, to as int, v) == decimal_u32(s@, from as int, to as int, acc),
        decreases to - j,
    {
        let d: u8 = s[j] - 0x30;
        v = v.wrapping_mul(10).wrapping_add(d as u32);
        j += 1;
    }
    v
}

/// A decimal number as it was written: its sign and the values of its
/// digits before and after the decimal point. It stands for
/// `(-1)^negative * (int_digits . frac_digits)`.
#[derive(Clone, Debug, PartialEq, Eq)]
pub struct Decimal {
    pub negative: bool,
    pub int_digits: Vec<u8>,
    pub frac_digits: Vec<u8>,
}

/// The mathematical content of a [`Decimal`].
pub struct DecimalView {
    pub negative: bool,
    pub int_digits: Seq<u8>,
    pub frac_digits: Seq<u8>,
}

impl View for Decimal {
    type V = DecimalView;

    open spec fn view(&self) -> DecimalView {
        DecimalView {
            negative: self.negative,
            int_digits: self.int_digits@,
            frac_digits: self.frac_digits@,
        }
    }
}

/// The values of the digits of `s` from `from` to `to`.
pub open spec fn digit_values(s: Seq<u8>, from: int, to: int) -> Seq<u8> {
    Seq::new((to - from) as nat, |k: int| (s[from + k] - 0x30) as u8)
}

/// The places that reading a decimal number at `i` passes: the start of
/// the integer digits, their end, the start of the fraction digits and the
/// end of the number. Blanks are skipped first; a `-` makes the number
/// negative and a `*` is passed over; a `.` after the integer digits
/// brings the fraction digits.
pub open spec fn decimal_places(s: Seq<u8>, i: int) -> (int, int, int, int) {
    let b = run_end(s, i, ByteClass::Blank);
    let d0 = if at(s, b) == 0x2D || at(s, b) == 0x2A {
        b + 1
    } else {
        b
    };
    let d1 = run_end(s, d0, ByteClass::Digit);
    if at(s, d1) == 0x2E {
        (d0, d1, d1 + 1, run_end(s, d1 + 1, ByteClass::Digit))
    } else {
        (d0, d1, d1, d1)
    }
}

/// The decimal number written at `i`: an optional sign, integer digits
/// and, after a `.`, fraction digits. Nothing else is read: a number
/// without digits is zero, and there is no exponent.
pub open spec fn decimal_at(s: Seq<u8>, i: int) -> DecimalView {
    let (d0, d1, f0, f1) = decimal_places(s, i);
    DecimalView {
        negative: at(s, run_end(s, i, ByteClass::Blank)) == 0x2D,
        int_digits: digit_values(s, d0, d1),
        frac_digits: digit_values(s, f0, f1),
    }
}

/// Copies the values of the digits of `s` from `from` to `to`.
fn copy_digits(s: &[u8], from: usize, to: usize) -> (v: Vec<u8>)
    requires
        from <= to <= s@.len(),
        forall|j: int| from <= j < to ==> in_class(ByteClass::Digit, #[trigger] s@[j]),
    ensures
        v@ == digit_values(s@, from as int, to as int),
{
    let mut v: Vec<u8> = Vec::new();
    let mut j: usize = from;
    while j < to
        invariant
            from <= j <= to <= s@.len(),
            forall|j: int| from <= j < to ==> in_class(ByteClass::Digit, #[trigger] s@[j]),
            v@ == digit_values(s@, from as int, j as int),
        decreases to - j,
    {
        v.push(s[j] - 0x30);
        j += 1;
        assert(v@ =~= digit_values(s@, from as int, j as int));
    }
    v
}

/// Reads the decimal number written at `i`, and says where it ends.
pub fn read_decimal(s: &[u8], i: usize) -> (r: (Decimal, usize))
    requires
        i <= s@.len(),
    ensures
        r.0@ == decimal_at(s@, i as int),
        r.1 == decimal_places(s@, i as int).3,
        i <= r.1 <= s@.len(),
{
    let len: usize = s.len();
    let b: usize = scan(s, i, ByteClass::Blank);
    let sign: u8 = byte_at(s, b);
    let negative = sign == 0x2D;
    let d0: usize = if sign == 0x2D || sign == 0x2A { b + 1 } else { b };
    let d1: usize = scan(s, d0, ByteClass::Digit);
    proof {
        lemma_run_end(s@, d0 as int, ByteClass::Digit);
    }
    let int_digits = copy_digits(s, d0, d1);
    if byte_at(s, d1) == 0x2E {
        let f1: usize = scan(s, d1 + 1, ByteClass::Digit);
        proof {
            lemma_run_end(s@, d1 + 1, ByteClass::Digit);
        }
        let frac_digits = copy_digits(s, d1 + 1, f1);
        (Decimal { negative, int_digits, frac_digits }, f1)
    } else {
        let frac_digits = copy_digits(s, d1, d1);
        (Decimal { negative, int_digits, frac_digits }, d1)
    }
}

/// The value of a hexadecimal digit of either case.
pub open spec fn hex_value(b: u8) -> int {
    if 0x30 <= b <= 0x39 {
        b - 0x30
    } else if 0x41 <= b <= 0x46 {
        b - 0x41 + 10
    } else {
        b - 0x61 + 10
    }
}

/// The value of the hexadecimal digits of `s` from `from` to `to`.
pub open spec fn hex_number(s: Seq<u8>, from: int, to: int) -> int
    decreases to - from,
{
    if from >= to {
        0
    } else {
        hex_number(s, from, to - 1) * 16 + hex_value(s[to - 1])
    }
}

/// How many hexadecimal digits stand at `i`, counting `limit` at most.
pub open spec fn hex_run(s: Seq<u8>, i: int, limit: int) -> int {
    let n = run_end(s, i, ByteClass::Hex) - i;
    if n > limit {
        limit
    } else {
        n
    }
}

/// How many bytes at the start of `s` spell a colour: six hexadecimal
/// digits and up to two more for alpha, or the digits that are there where
/// they are fewer than six.
pub open spec fn rgb_a_len(s: Seq<u8>) -> int {
    if hex_run(s, 0, 6) < 6 {
        hex_run(s, 0, 6)
    } else {
        6 + hex_run(s, 6, 2)
    }
}

/// The colour written at the start of `s`. Six hexadecimal digits give
/// red, green and blue; two more give alpha, which is 0xFF where they are
/// missing or broken. Fewer than six digits give 0x000000FF.
pub open spec fn rgb_a_value(s: Seq<u8>) -> int {
    if hex_run(s, 0, 6) < 6 {
        0xFF
    } else if hex_run(s, 6, 2) == 2 {
        hex_number(s, 0, 6) * 256 + hex_number(s, 6, 8)
    } else {
        hex_number(s, 0, 6) * 256 + 0xFF
    }
}

/// Whether a colour was read in full: with six or with eight digits.
pub open spec fn rgb_a_complete(s: Seq<u8>) -> bool {
    rgb_a_len(s) == 6 || rgb_a_len(s) == 8
}

proof fn lemma_hex_number_bound(s: Seq<u8>, from: int, to: int)
    requires
        0 <= from <= to <= s.len(),
        to - from <= 6,
        forall|j: int| from <= j < to ==> in_class(ByteClass::Hex, #[trigger] s[j]),
    ensures
        0 <= hex_number(s, from, to),
        to - from == 0 ==> hex_number(s, from, to) < 1,
        to - from == 1 ==> hex_number(s, from, to) < 0x10,
        to - from == 2 ==> hex_number(s, from, to) < 0x100,
        to - from == 3 ==> hex_number(s, from, to) < 0x1000,
        to - from == 4 ==> hex_number(s, from, to) < 0x1_0000,
        to - from == 5 ==> hex_number(s, from, to) < 0x10_0000,
        to - from == 6 ==> hex_number(s, from, to) < 0x100_0000,
    decreases to - from,
{
    if from < to {
        lemma_hex_number_bound(s, from, to - 1);
        assert(in_class(ByteClass::Hex, s[to - 1]));
    }
}

/// Reads a colour from the start of `cp` and takes the bytes that spell it
/// off `cp`: see [`rgb_a_value`] and [`rgb_a_len`].
pub fn read_rgb_a(cp: &mut &[u8]) -> (rgba: u32)
    ensures
        rgba == rgb_a_value(old(cp)@),
        0 <= rgb_a_len(old(cp)@) <= old(cp)@.len(),
        final(cp)@ == old(cp)@.skip(rgb_a_len(old(cp)@)),
{
    let s: &[u8] = *cp;
    let mut rgb_value: u32 = 0;
    let mut i: usize = 0;
    proof {
        lemma_run_end(s@, 0, ByteClass::Hex);
    }
    while i < 6
        invariant
            i <= 6,
            i <= s@.len(),
            s@ == old(cp)@,
            forall|j: int| 0 <= j < i ==> in_class(ByteClass::Hex, #[trigger] s@[j]),
            rgb_value == hex_number(s@, 0, i as int),
        decreases 6 - i,
    {
        let b: u8 = byte_at(s, i);
        proof {
            lemma_hex_number_bound(s@, 0, i as int);
            lemma_run_reaches(s@, 0, i as int, ByteClass::Hex);
            lemma_run_end(s@, i as int, ByteClass::Hex);
        }
        if 0x30 <= b && b <= 0x39 {
            rgb_value = rgb_value * 16 + (b - 0x30) as u32;
        } else if 0x41 <= b && b <= 0x46 {
            rgb_value = rgb_value * 16 + (b - 0x41 + 10) as u32;
        } else if 0x61 <= b && b <= 0x66 {
            rgb_value = rgb_value * 16 + (b - 0x61 + 10) as u32;
        } else {
            *cp = slice_subrange(s, i, s.len());
            return 0x0000_00FF;
        }
        i += 1;
    }
    proof {
        lemma_hex_number_bound(s@, 0, 6);
        lemma_run_reaches(s@, 0, 6, ByteClass::Hex);
        lemma_run_end(s@, 6, ByteClass::Hex);
    }
    rgb_value = rgb_value * 256;
    let mut alpha: u32 = 0;
    let mut broken = false;
    while i < 8
        invariant_except_break
            alpha == hex_number(s@, 6, i as int),
            !broken,
        invariant
            6 <= i <= 8,
            i <= s@.len(),
            s@ == old(cp)@,
            rgb_value == hex_number(s@, 0, 6) * 256,
            hex_number(s@, 0, 6) < 0x100_0000,
            hex_run(s@, 0, 6) == 6,
            forall|j: int| 0 <= j < i ==> in_class(ByteClass::Hex, #[trigger] s@[j]),
        ensures
            6 <= i <= 8,
            i <= s@.len(),
            forall|j: int| 0 <= j < i ==> in_class(ByteClass::Hex, #[trigger] s@[j]),
            broken ==> i < 8 && !in_class(ByteClass::Hex, at(s@, i as int)),
            !broken ==> i == 8 && alpha == hex_number(s@, 6, 8),
        decreases 8 - i,
    {
        let b: u8 = byte_at(s, i);
        proof {
            lemma_hex_number_bound(s@, 6, i as int);
        }
        if 0x30 <= b && b <= 0x39 {
            alpha = alpha * 16 + (b - 0x30) as u32;
        } else if 0x41 <= b && b <= 0x46 {
            alpha = alpha * 16 + (b - 0x41 + 10) as u32;
        } else if 0x61 <= b && b <= 0x66 {
            alpha = alpha * 16 + (b - 0x61 + 10) as u32;
        } else {
            broken = true;
            break ;
        }
        i += 1;
    }
    proof {
        lemma_run_reaches(s@, 6, i as int, ByteClass::Hex);
        lemma_run_end(s@, i as int, ByteClass::Hex);
        lemma_hex_number_bound(s@, 6, i as int);
    }
    if !broken {
        rgb_value += alpha;
    } else {
        rgb_value += 0xFF;
    }
    *cp = slice_subrange(s, i, s.len());
    rgb_value
}

/// The synthetic adjustments of a font's style.
#[derive(Copy, Clone, Debug, PartialEq, Eq, Structural)]
pub enum StyleKind {
    Extend,
    Slant,
    Embolden,
    Letterspace,
    Color,
}

/// The value of a style adjustment: a decimal number, or a colour as
/// 0xRRGGBBAA.
#[derive(Clone, Debug, PartialEq, Eq)]
pub enum StyleValue {
    Number(Decimal),
    Rgba(u32),
}

/// The mathematical content of a [`StyleValue`].
pub enum StyleValueView {
    Number(DecimalView),
    Rgba(u32),
}

impl View for StyleValue {
    type V = StyleValueView;

    open spec fn view(&self) -> StyleValueView {
        match self {
            StyleValue::Number(d) => StyleValueView::Number(d@),
            StyleValue::Rgba(c) => StyleValueView::Rgba(*c),
        }
    }
}

/// One directive of a feature string.
#[derive(Clone, Debug, PartialEq, Eq)]
pub enum FeatureDirective {
    /// `script=tag`: the script to shape for.
    Script(Tag),
    /// `language=name`: the language to shape for.
    Language(Vec<u8>),
    /// `shaper=name`: the shaper to ask for first.
    ShaperOverride(Vec<u8>),
    /// `mapping=name`: the text mapping to load for the font.
    Mapping(Vec<u8>),
    /// A feature with a value: `tag=value` for a numeric tag, a feature of
    /// the face by its labels, or `+tag=index`.
    NumericFeature { tag: Tag, value: u32 },
    /// A feature switched on or off: `+tag`, `-tag`, or a bare tag.
    BooleanToggle { tag: Tag, enabled: bool },
    /// `extend=`, `slant=`, `embolden=`, `letterspace=` or `color=`.
    StyleAdjust { kind: StyleKind, value: StyleValue },
    /// `vertical`: the font is set vertically.
    VerticalFlag,
}

/// The mathematical content of a [`FeatureDirective`].
pub enum DirectiveView {
    Script(Tag),
    Language(Seq<u8>),
    ShaperOverride(Seq<u8>),
    Mapping(Seq<u8>),
    NumericFeature { tag: Tag, value: u32 },
    BooleanToggle { tag: Tag, enabled: bool },
    StyleAdjust { kind: StyleKind, value: StyleValueView },
    VerticalFlag,
}

impl View for FeatureDirective {
    type V = DirectiveView;

    open spec fn view(&self) -> DirectiveView {
        match self {
            FeatureDirective::Script(t) => DirectiveView::Script(*t),
            FeatureDirective::Language(n) => DirectiveView::Language(n@),
            FeatureDirective::ShaperOverride(n) => DirectiveView::ShaperOverride(n@),
            FeatureDirective::Mapping(n) => DirectiveView::Mapping(n@),
            FeatureDirective::NumericFeature { tag, value } => DirectiveView::NumericFeature {
                tag: *tag,
                value: *value,
            },
            FeatureDirective::BooleanToggle { tag, enabled } => DirectiveView::BooleanToggle {
                tag: *tag,
                enabled: *enabled,
            },
            FeatureDirective::StyleAdjust { kind, value } => DirectiveView::StyleAdjust {
                kind: *kind,
                value: value@,
            },
            FeatureDirective::VerticalFlag => DirectiveView::VerticalFlag,
        }
    }
}

/// Why a token gave no directive.
#[derive(Copy, Clone, Debug, PartialEq, Eq, Structural)]
pub enum WarningKind {
    /// The token spells nothing that is known.
    UnrecognizedFeature,
    /// A keyword that needs `=value` stands without it.
    MissingValue,
    /// The colour has neither six nor eight hexadecimal digits.
    BadColor,
}

/// A warning about one token: why it was skipped, and where it stands in
/// the feature string.
#[derive(Copy, Clone, Debug, PartialEq, Eq, Structural)]
pub struct ParseWarning {
    pub kind: WarningKind,
    pub start: usize,
    pub end: usize,
}

pub const KW_SCRIPT: [u8; 6] = [0x73, 0x63, 0x72, 0x69, 0x70, 0x74];

pub const KW_LANGUAGE: [u8; 8] = [0x6C, 0x61, 0x6E, 0x67, 0x75, 0x61, 0x67, 0x65];

pub const KW_SHAPER: [u8; 6] = [0x73, 0x68, 0x61, 0x70, 0x65, 0x72];

pub const KW_MAPPING: [u8; 7] = [0x6D, 0x61, 0x70, 0x70, 0x69, 0x6E, 0x67];

pub const KW_EXTEND: [u8; 6] = [0x65, 0x78, 0x74, 0x65, 0x6E, 0x64];

pub const KW_SLANT: [u8; 5] = [0x73, 0x6C, 0x61, 0x6E, 0x74];

pub const KW_EMBOLDEN: [u8; 8] = [0x65, 0x6D, 0x62, 0x6F, 0x6C, 0x64, 0x65, 0x6E];

pub const KW_LETTERSPACE: [u8; 11] = [
    0x6C, 0x65, 0x74, 0x74, 0x65, 0x72, 0x73, 0x70, 0x61, 0x63, 0x65,
];

pub const KW_COLOR: [u8; 5] = [0x63, 0x6F, 0x6C, 0x6F, 0x72];

pub const KW_VERTICAL: [u8; 8] = [0x76, 0x65, 0x72, 0x74, 0x69, 0x63, 0x61, 0x6C];

/// The directive of a keyword that takes a name or a number after `=`,
/// where `t` starts with the keyword and `n` is the keyword's length.
pub open spec fn keyword_value(t: Seq<u8>, n: int, d: DirectiveView) -> Result<
    DirectiveView,
    WarningKind,
> {
    if at(t, n) == 0x3D {
        Ok(d)
    } else {
        Err(WarningKind::MissingValue)
    }
}

/// The directive of `color=...`: the colour must be written in full.
pub open spec fn color_directive(t: Seq<u8>) -> Result<DirectiveView, WarningKind> {
    if at(t, 5) != 0x3D {
        Err(WarningKind::MissingValue)
    } else if rgb_a_complete(t.skip(6)) {
        Ok(
            DirectiveView::StyleAdjust {
                kind: StyleKind::Color,
                value: StyleValueView::Rgba(rgb_a_value(t.skip(6)) as u32),
            },
        )
    } else {
        Err(WarningKind::BadColor)
    }
}

/// The directive of a style adjustment that takes a decimal number.
pub open spec fn number_directive(t: Seq<u8>, n: int, kind: StyleKind) -> DirectiveView {
    DirectiveView::StyleAdjust { kind, value: StyleValueView::Number(decimal_at(t, n + 1)) }
}

/// What a token that starts with `script`, `language` or `shaper` spells;
/// `None` for a token that starts with none of them. A keyword is matched
/// as a prefix, and must be followed by `=`.
pub open spec fn selection_directive(t: Seq<u8>) -> Option<Result<DirectiveView, WarningKind>> {
    if KW_SCRIPT@.is_prefix_of(t) {
        Some(keyword_value(t, 6, DirectiveView::Script(Tag(tag_from_bytes(t.skip(7))))))
    } else if KW_LANGUAGE@.is_prefix_of(t) {
        Some(keyword_value(t, 8, DirectiveView::Language(t.skip(9))))
    } else if KW_SHAPER@.is_prefix_of(t) {
        Some(keyword_value(t, 6, DirectiveView::ShaperOverride(t.skip(7))))
    } else {
        None
    }
}

/// What a token that starts with `mapping`, `extend`, `slant`,
/// `embolden`, `letterspace` or `color` spells; `None` for a token that
/// starts with none of them. A keyword is matched as a prefix, and must be
/// followed by `=`.
pub open spec fn common_directive(t: Seq<u8>) -> Option<Result<DirectiveView, WarningKind>> {
    if KW_MAPPING@.is_prefix_of(t) {
        Some(keyword_value(t, 7, DirectiveView::Mapping(t.skip(8))))
    } else if KW_EXTEND@.is_prefix_of(t) {
        Some(keyword_value(t, 6, number_directive(t, 6, StyleKind::Extend)))
    } else if KW_SLANT@.is_prefix_of(t) {
        Some(keyword_value(t, 5, number_directive(t, 5, StyleKind::Slant)))
    } else if KW_EMBOLDEN@.is_prefix_of(t) {
        Some(keyword_value(t, 8, number_directive(t, 8, StyleKind::Embolden)))
    } else if KW_LETTERSPACE@.is_prefix_of(t) {
        Some(keyword_value(t, 11, number_directive(t, 11, StyleKind::Letterspace)))
    } else if KW_COLOR@.is_prefix_of(t) {
        Some(color_directive(t))
    } else {
        None
    }
}

/// What a token that starts with a keyword spells; `None` for a token that
/// starts with none.
pub open spec fn keyword_directive(t: Seq<u8>) -> Option<Result<DirectiveView, WarningKind>> {
    if selection_directive(t).is_some() {
        selection_directive(t)
    } else {
        common_directive(t)
    }
}

/// Reads the directive of a style adjustment that takes a decimal number.
fn read_number_directive(t: &[u8], n: usize, kind: StyleKind) -> (r: Result<
    FeatureDirective,
    WarningKind,
>)
    requires
        n <= t@.len(),
    ensures
        r.is_ok() == keyword_value(t@, n as int, number_directive(t@, n as int, kind)).is_ok(),
        r.is_ok() ==> r.unwrap()@ == number_directive(t@, n as int, kind),
        r.is_err() ==> r == Err::<FeatureDirective, WarningKind>(WarningKind::MissingValue),
{
    let len: usize = t.len();
    if byte_at(t, n) != 0x3D {
        Err(WarningKind::MissingValue)
    } else {
        let (d, _end) = read_decimal(t, n + 1);
        Ok(FeatureDirective::StyleAdjust { kind, value: StyleValue::Number(d) })
    }
}

/// Whether the outcome `r` of reading a token is the outcome `m` that the
/// grammar gives.
pub open spec fn outcome_matches(
    r: Result<FeatureDirective, WarningKind>,
    m: Result<DirectiveView, WarningKind>,
) -> bool {
    match r {
        Ok(d) => m == Ok::<DirectiveView, WarningKind>(d@),
        Err(k) => m == Err::<DirectiveView, WarningKind>(k),
    }
}

/// Reads a token that starts with `script`, `language` or `shaper`: see
/// [`selection_directive`].
pub fn read_selection_directive(t: &[u8]) -> (r: Option<Result<FeatureDirective, WarningKind>>)
    ensures
        r.is_some() == selection_directive(t@).is_some(),
        r.is_some() ==> outcome_matches(r.unwrap(), selection_directive(t@).unwrap()),
{
    if starts_with(t, &KW_SCRIPT) {
        if byte_at(t, 6) != 0x3D {
            Some(Err(WarningKind::MissingValue))
        } else {
            let name = slice_subrange(t, 7, t.len());
            assert(name@ =~= t@.skip(7));
            Some(Ok(FeatureDirective::Script(Tag::from_bytes(name))))
        }
    } else if starts_with(t, &KW_LANGUAGE) {
        if byte_at(t, 8) != 0x3D {
            Some(Err(WarningKind::MissingValue))
        } else {
            Some(Ok(FeatureDirective::Language(copy_from(t, 9))))
        }
    } else if starts_with(t, &KW_SHAPER) {
        if byte_at(t, 6) != 0x3D {
            Some(Err(WarningKind::MissingValue))
        } else {
            Some(Ok(FeatureDirective::ShaperOverride(copy_from(t, 7))))
        }
    } else {
        None
    }
}

/// Reads a token that starts with `mapping`, `extend`, `slant`,
/// `embolden`, `letterspace` or `color`: see [`common_directive`].
pub fn read_common_features(t: &[u8]) -> (r: Option<Result<FeatureDirective, WarningKind>>)
    ensures
        r.is_some() == common_directive(t@).is_some(),
        r.is_some() ==> outcome_matches(r.unwrap(), common_directive(t@).unwrap()),
{
    if starts_with(t, &KW_MAPPING) {
        if byte_at(t, 7) != 0x3D {
            Some(Err(WarningKind::MissingValue))
        } else {
            Some(Ok(FeatureDirective::Mapping(copy_from(t, 8))))
        }
    } else if starts_with(t, &KW_EXTEND) {
        Some(read_number_directive(t, 6, StyleKind::Extend))
    } else if starts_with(t, &KW_SLANT) {
        Some(read_number_directive(t, 5, StyleKind::Slant))
    } else if starts_with(t, &KW_EMBOLDEN) {
        Some(read_number_directive(t, 8, StyleKind::Embolden))
    } else if starts_with(t, &KW_LETTERSPACE) {
        Some(read_number_directive(t, 11, StyleKind::Letterspace))
    } else if starts_with(t, &KW_COLOR) {
        if byte_at(t, 5) != 0x3D {
            Some(Err(WarningKind::MissingValue))
        } else {
            let mut rest: &[u8] = slice_subrange(t, 6, t.len());
            let ghost before = rest@;
            assert(before =~= t@.skip(6));
            let rgba: u32 = read_rgb_a(&mut rest);
            let used: usize = t.len() - 6 - rest.len();
            if used == 6 || used == 8 {
                Some(Ok(FeatureDirective::StyleAdjust {
                    kind: StyleKind::Color,
                    value: StyleValue::Rgba(rgba),
                }))
            } else {
                Some(Err(WarningKind::BadColor))
            }
        }
    } else {
        None
    }
}

/// Reads a token that starts with a keyword: see [`keyword_directive`].
pub fn read_keyword_directive(t: &[u8]) -> (r: Option<Result<FeatureDirective, WarningKind>>)
    ensures
        r.is_some() == keyword_directive(t@).is_some(),
        r.is_some() ==> outcome_matches(r.unwrap(), keyword_directive(t@).unwrap()),
{
    match read_selection_directive(t) {
        Some(r) => Some(r),
        None => read_common_features(t),
    }
}

/// The value of the decimal digits of `s` from `from` to `to`, carried on
/// from `acc` as a signed 32-bit number that wraps round.
pub open spec fn decimal_i32(s: Seq<u8>, from: int, to: int, acc: i32) -> i32
    decreases to - from,
{
    if from >= to || from < 0 || from >= s.len() {
        acc
    } else {
        decimal_i32(s, from + 1, to, acc.wrapping_mul(10).wrapping_add((s[from] - 0x30) as i32))
    }
}

/// Reads the decimal digits of `s` from `from` to `to`: see [`decimal_i32`].
pub fn read_decimal_i32(s: &[u8], from: usize, to: usize, acc: i32) -> (r: i32)
    requires
        from <= to <= s@.len(),
        forall|j: int| from <= j < to ==> in_class(ByteClass::Digit, #[trigger] s@[j]),
    ensures
        r == decimal_i32(s@, from as int, to as int, acc),
{
    let mut v: i32 = acc;
    let mut j: usize = from;
    while j < to
        invariant
            from <= j <= to <= s@.len(),
            forall|j: int| from <= j < to ==> in_class(ByteClass::Digit, #[trigger] s@[j]),
            decimal_i32(s@, j as int, to as int, v) == decimal_i32(s@, from as int, to as int, acc),
        decreases to - j,
    {
        let d: u8 = s[j] - 0x30;
        v = v.wrapping_mul(10).wrapping_add(d as i32);
        j += 1;
    }
    v
}

/// Where the tag of `cp` ends: at its first separator or `=`.
pub open spec fn tag_end(cp: Seq<u8>) -> int {
    run_end(cp, 0, ByteClass::InTag)
}

/// Where the digits of the parameter of `cp` start and end, for a `cp`
/// whose tag is followed by `=`: a `-` may stand before the digits.
pub open spec fn param_digits(cp: Seq<u8>) -> (int, int) {
    let d0 = if at(cp, tag_end(cp) + 1) == 0x2D {
        tag_end(cp) + 2
    } else {
        tag_end(cp) + 1
    };
    (d0, run_end(cp, d0, ByteClass::Digit))
}

/// The parameter that [`read_tag_with_param`] leaves: unchanged where the
/// tag is not followed by `=`, else the digits after it carried on from
/// `param`, with the sign changed where a `-` stands before them.
pub open spec fn param_after(cp: Seq<u8>, param: i32) -> i32 {
    if at(cp, tag_end(cp)) != 0x3D {
        param
    } else {
        let (d0, d1) = param_digits(cp);
        let v = decimal_i32(cp, d0, d1, param);
        if at(cp, tag_end(cp) + 1) == 0x2D {
            0i32.wrapping_sub(v)
        } else {
            v
        }
    }
}

/// Reads a tag and, after `=`, its parameter: the tag runs to the first
/// separator or `=`, and the parameter is a decimal number that may be
/// negative.
pub fn read_tag_with_param(cp: &[u8], param: &mut i32) -> (tag: Tag)
    ensures
        tag.0 == tag_from_bytes(cp@.subrange(0, tag_end(cp@))),
        *final(param) == param_after(cp@, *old(param)),
{
    let len: usize = cp.len();
    let end: usize = scan(cp, 0, ByteClass::InTag);
    let tag = Tag::from_bytes(slice_subrange(cp, 0, end));
    if byte_at(cp, end) == 0x3D {
        let neg = byte_at(cp, end + 1) == 0x2D;
        let d0: usize = if neg { end + 2 } else { end + 1 };
        let d1: usize = scan(cp, d0, ByteClass::Digit);
        proof {
            lemma_run_end(cp@, d0 as int, ByteClass::Digit);
        }
        let v: i32 = read_decimal_i32(cp, d0, d1, *param);
        if neg {
            *param = 0i32.wrapping_sub(v);
        } else {
            *param = v;
        }
    }
    tag
}

/// The places that reading `number[=number]` passes: the end of the first
/// digits, the end of the blanks after them, the end of the second digits
/// and the end of the blanks after those.
pub open spec fn number_places(s: Seq<u8>) -> (int, int, int, int) {
    let d1 = run_end(s, 0, ByteClass::Digit);
    let b1 = run_end(s, d1, ByteClass::Blank);
    let v1 = run_end(s, b1 + 1, ByteClass::Digit);
    let b2 = run_end(s, v1, ByteClass::Blank);
    (d1, b1, v1, b2)
}

/// Whether `s` is a feature given by numbers: digits, alone or followed by
/// `=` and more digits, with blanks allowed after either and nothing else.
pub open spec fn is_feature_number(s: Seq<u8>) -> bool {
    let (d1, b1, v1, b2) = number_places(s);
    &&& in_class(ByteClass::Digit, at(s, 0))
    &&& (b1 >= s.len() || (at(s, b1) == 0x3D && in_class(ByteClass::Digit, at(s, b1 + 1)) && b2
        >= s.len()))
}

/// The tag that [`read_feature_number`] leaves: the first digits carried
/// on from `f`, or `f` where `s` does not start with a digit.
pub open spec fn feature_number_tag(s: Seq<u8>, f: u32) -> u32 {
    if in_class(ByteClass::Digit, at(s, 0)) {
        decimal_u32(s, 0, number_places(s).0, f)
    } else {
        f
    }
}

/// The value that [`read_feature_number`] leaves: the second digits
/// carried on from `v` where `=` and a digit follow the first, else `v`.
pub open spec fn feature_number_value(s: Seq<u8>, v: u32) -> u32 {
    let (d1, b1, v1, b2) = number_places(s);
    if in_class(ByteClass::Digit, at(s, 0)) && at(s, b1) == 0x3D && in_class(
        ByteClass::Digit,
        at(s, b1 + 1),
    ) {
        decimal_u32(s, b1 + 1, v1, v)
    } else {
        v
    }
}

/// Reads a feature given by numbers, `tag` or `tag=value`: says whether
/// `s` is one, and carries the tag on from `f` and the value on from `v`
/// as far as it could read them.
pub fn read_feature_number(s: &[u8], f: &mut Tag, v: &mut u32) -> (r: bool)
    ensures
        r == is_feature_number(s@),
        final(f).0 == feature_number_tag(s@, old(f).0),
        *final(v) == feature_number_value(s@, *old(v)),
{
    let len: usize = s.len();
    if !is_in_class(ByteClass::Digit, byte_at(s, 0)) {
        return false;
    }
    let d1: usize = scan(s, 0, ByteClass::Digit);
    proof {
        lemma_run_end(s@, 0, ByteClass::Digit);
    }
    *f = Tag::new(read_decimal_u32(s, 0, d1, f.to_raw()));
    let b1: usize = scan(s, d1, ByteClass::Blank);
    if b1 >= len {
        return true;
    }
    if byte_at(s, b1) != 0x3D {
        return false;
    }
    if !is_in_class(ByteClass::Digit, byte_at(s, b1 + 1)) {
        return false;
    }
    let v1: usize = scan(s, b1 + 1, ByteClass::Digit);
    proof {
        lemma_run_end(s@, b1 + 1, ByteClass::Digit);
    }
    *v = read_decimal_u32(s, b1 + 1, v1, *v);
    let b2: usize = scan(s, v1, ByteClass::Blank);
    b2 >= len
}

/// The value of the feature that `+tag=param` switches on: the parameter
/// counts alternates from zero and the feature's value counts them from
/// one, so a parameter that is not negative is raised by one; the result
/// is the parameter's 32 bits read as an unsigned number.
pub open spec fn plus_value(param: i32) -> u32 {
    let q = if param >= 0 {
        param.wrapping_add(1)
    } else {
        param
    };
    if q >= 0 {
        q as u32
    } else {
        (q + 0x1_0000_0000) as u32
    }
}

/// Computes [`plus_value`].
pub fn plus_value_of(param: i32) -> (r: u32)
    ensures
        r == plus_value(param),
{
    let q: i32 = if param >= 0 { param.wrapping_add(1) } else { param };
    if q >= 0 {
        q as u32
    } else {
        (q as i64 + 0x1_0000_0000) as u32
    }
}

/// What a token that starts with `+` or `-` spells. `+tag` switches a
/// feature on and `+tag=index` picks one of its alternates; `-tag`
/// switches a feature off.
pub open spec fn toggle_directive(t: Seq<u8>) -> Option<DirectiveView> {
    if at(t, 0) == 0x2B {
        let cp = t.skip(1);
        let tag = Tag(tag_from_bytes(cp.subrange(0, tag_end(cp))));
        if at(cp, tag_end(cp)) == 0x3D {
            Some(DirectiveView::NumericFeature { tag, value: plus_value(param_after(cp, 0)) })
        } else {
            Some(DirectiveView::BooleanToggle { tag, enabled: true })
        }
    } else if at(t, 0) == 0x2D {
        Some(DirectiveView::BooleanToggle { tag: Tag(tag_from_bytes(t.skip(1))), enabled: false })
    } else {
        None
    }
}

/// Reads a token that starts with `+` or `-`: see [`toggle_directive`].
pub fn read_toggle_directive(t: &[u8]) -> (r: Option<FeatureDirective>)
    ensures
        r.is_some() == toggle_directive(t@).is_some(),
        r.is_some() ==> r.unwrap()@ == toggle_directive(t@).unwrap(),
{
    let first: u8 = byte_at(t, 0);
    if first == 0x2B {
        let cp = slice_subrange(t, 1, t.len());
        assert(cp@ =~= t@.skip(1));
        let mut param: i32 = 0;
        let tag = read_tag_with_param(cp, &mut param);
        let end: usize = scan(cp, 0, ByteClass::InTag);
        if byte_at(cp, end) == 0x3D {
            Some(FeatureDirective::NumericFeature { tag, value: plus_value_of(param) })
        } else {
            Some(FeatureDirective::BooleanToggle { tag, enabled: true })
        }
    } else if first == 0x2D {
        let cp = slice_subrange(t, 1, t.len());
        assert(cp@ =~= t@.skip(1));
        Some(FeatureDirective::BooleanToggle { tag: Tag::from_bytes(cp), enabled: false })
    } else {
        None
    }
}

/// Whether the token is the word `vertical`, with nothing but blanks
/// after it.
pub open spec fn is_vertical(t: Seq<u8>) -> bool {
    KW_VERTICAL@.is_prefix_of(t) && run_end(t, 8, ByteClass::Blank) >= t.len()
}

/// Whether the token is a bare tag: four printable bytes, none of them a
/// space or `=`.
pub open spec fn is_bare_tag(t: Seq<u8>) -> bool {
    t.len() == 4 && run_end(t, 0, ByteClass::TagLetter) >= 4
}

/// What a token spells: a keyword with its value, a feature given by
/// numbers, a feature of the face named by its labels where a face is
/// given, `+tag` or `-tag`, `vertical`, or a bare tag, which is switched on.
/// Anything else is not recognised.
pub open spec fn token_directive(t: Seq<u8>, face: Option<&Face>) -> Result<
    DirectiveView,
    WarningKind,
> {
    if keyword_directive(t).is_some() {
        keyword_directive(t).unwrap()
    } else if is_feature_number(t) {
        Ok(
            DirectiveView::NumericFeature {
                tag: Tag(feature_number_tag(t, 0)),
                value: feature_number_value(t, 0),
            },
        )
    } else if face.is_some() && graphite_feature(face.unwrap(), t).is_some() {
        Ok(
            DirectiveView::NumericFeature {
                tag: Tag(graphite_feature(face.unwrap(), t).unwrap().0),
                value: graphite_feature(face.unwrap(), t).unwrap().1,
            },
        )
    } else {
        late_directive(t)
    }
}

/// The productions that come after the features of the face: `+tag` or
/// `-tag`, `vertical`, then a bare tag.
pub open spec fn late_directive(t: Seq<u8>) -> Result<DirectiveView, WarningKind> {
    if toggle_directive(t).is_some() {
        Ok(toggle_directive(t).unwrap())
    } else if is_vertical(t) {
        Ok(DirectiveView::VerticalFlag)
    } else if is_bare_tag(t) {
        Ok(DirectiveView::BooleanToggle { tag: Tag(tag_from_bytes(t)), enabled: true })
    } else {
        Err(WarningKind::UnrecognizedFeature)
    }
}

/// Reads the productions that come after the features of the face: see
/// [`late_directive`].
pub fn read_late_directive(t: &[u8]) -> (r: Result<FeatureDirective, WarningKind>)
    ensures
        outcome_matches(r, late_directive(t@)),
{
    match read_toggle_directive(t) {
        Some(d) => {
            return Ok(d);
        },
        None => {},
    }
    if starts_with(t, &KW_VERTICAL) {
        let b: usize = scan(t, 8, ByteClass::Blank);
        if b >= t.len() {
            return Ok(FeatureDirective::VerticalFlag);
        }
    }
    if t.len() == 4 && scan(t, 0, ByteClass::TagLetter) >= 4 {
        return Ok(FeatureDirective::BooleanToggle { tag: Tag::from_bytes(t), enabled: true });
    }
    Err(WarningKind::UnrecognizedFeature)
}

/// The first feature at or after `from` whose label is `name`.
pub open spec fn first_labelled(features: Seq<FeatureRef>, name: Seq<u8>, from: int) -> Option<
    int,
>
    decreases features.len() - from,
{
    if from < 0 || from >= features.len() {
        None
    } else if features[from].label@ == name {
        Some(from)
    } else {
        first_labelled(features, name, from + 1)
    }
}

/// The first setting of `f` at or after `from` whose label is `name`.
pub open spec fn first_setting_labelled(f: FeatureRef, name: Seq<u8>, from: int) -> Option<int>
    decreases f.settings@.len() - from,
{
    if from < 0 || from >= f.settings@.len() {
        None
    } else if f.settings@[from].label@ == name {
        Some(from)
    } else {
        first_setting_labelled(f, name, from + 1)
    }
}

/// A setting's value as the 32 bits that a feature carries.
pub open spec fn setting_bits(value: i16) -> u32 {
    if value >= 0 {
        value as u32
    } else {
        (value + 0x1_0000_0000) as u32
    }
}

/// The places of `feature=setting` in `t`: where the feature's label
/// starts and ends, and where the setting's label starts.
pub open spec fn named_places(t: Seq<u8>) -> (int, int, int) {
    let s0 = run_end(t, 0, ByteClass::Blank);
    let eq = run_end(t, s0, ByteClass::NotEquals);
    (s0, eq, run_end(t, eq + 1, ByteClass::Blank))
}

/// The feature of the face that `feature=setting` names by its labels:
/// the identifier of the first feature with that label, and the value of
/// its first setting with that label. Blanks before either label are
/// passed over. There is none where the face has no such feature, where
/// no setting is given, or where the feature has no such setting.
pub open spec fn graphite_feature(face: &Face, t: Seq<u8>) -> Option<(u32, u32)> {
    let (s0, eq, v0) = named_places(t);
    let fi = first_labelled(face.features@, t.subrange(s0, eq), 0);
    if fi.is_none() || eq >= t.len() || v0 >= t.len() {
        None
    } else {
        let f = face.features@[fi.unwrap()];
        let si = first_setting_labelled(f, t.subrange(v0, t.len() as int), 0);
        if si.is_none() {
            None
        } else {
            Some((f.id, setting_bits(f.settings@[si.unwrap()].value)))
        }
    }
}

/// Looks a feature up by its label.
fn find_labelled(face: &Face, name: &[u8]) -> (r: Option<usize>)
    ensures
        r.is_some() == first_labelled(face.features@, name@, 0).is_some(),
        r.is_some() ==> r.unwrap() == first_labelled(face.features@, name@, 0).unwrap(),
        r.is_some() ==> r.unwrap() < face.features@.len(),
{
    let mut i: usize = 0;
    while i < face.features.len()
        invariant
            i <= face.features@.len(),
            first_labelled(face.features@, name@, i as int) == first_labelled(
                face.features@,
                name@,
                0,
            ),
        decreases face.features@.len() - i,
    {
        if bytes_equal(face.features[i].label.as_slice(), name) {
            return Some(i);
        }
        i += 1;
    }
    None
}

/// Looks a setting up by its label.
fn find_setting_labelled(f: &FeatureRef, name: &[u8]) -> (r: Option<usize>)
    ensures
        r.is_some() == first_setting_labelled(*f, name@, 0).is_some(),
        r.is_some() ==> r.unwrap() == first_setting_labelled(*f, name@, 0).unwrap(),
        r.is_some() ==> r.unwrap() < f.settings@.len(),
{
    let mut i: usize = 0;
    while i < f.settings.len()
        invariant
            i <= f.settings@.len(),
            first_setting_labelled(*f, name@, i as int) == first_setting_labelled(*f, name@, 0),
        decreases f.settings@.len() - i,
    {
        if bytes_equal(f.settings[i].label.as_slice(), name) {
            return Some(i);
        }
        i += 1;
    }
    None
}

/// Looks up the feature of the face that `feature=setting` names: see
/// [`graphite_feature`].
pub fn find_graphite_feature(face: &Face, t: &[u8]) -> (r: Option<(Tag, u32)>)
    ensures
        r.is_some() == graphite_feature(face, t@).is_some(),
        r.is_some() ==> r.unwrap().0.0 == graphite_feature(face, t@).unwrap().0,
        r.is_some() ==> r.unwrap().1 == graphite_feature(face, t@).unwrap().1,
{
    let len: usize = t.len();
    let s0: usize = scan(t, 0, ByteClass::Blank);
    let eq: usize = scan(t, s0, ByteClass::NotEquals);
    let fi = match find_labelled(face, slice_subrange(t, s0, eq)) {
        Some(fi) => fi,
        None => {
            return None;
        },
    };
    if eq >= len {
        return None;
    }
    let v0: usize = scan(t, eq + 1, ByteClass::Blank);
    if v0 >= len {
        return None;
    }
    let f = &face.features[fi];
    match find_setting_labelled(f, slice_subrange(t, v0, len)) {
        Some(si) => {
            let value: i16 = f.settings[si].value;
            let bits: u32 = if value >= 0 {
                value as u32
            } else {
                (value as i64 + 0x1_0000_0000) as u32
            };
            Some((Tag::new(f.id), bits))
        },
        None => None,
    }
}

/// Reads the directive that a token spells: see [`token_directive`].
pub fn read_token(t: &[u8], face: Option<&Face>) -> (r: Result<FeatureDirective, WarningKind>)
    ensures
        outcome_matches(r, token_directive(t@, face)),
{
    match read_keyword_directive(t) {
        Some(r) => {
            return r;
        },
        None => {},
    }
    let mut tag = Tag::new(0);
    let mut value: u32 = 0;
    if read_feature_number(t, &mut tag, &mut value) {
        return Ok(FeatureDirective::NumericFeature { tag, value });
    }
    match face {
        Some(face) => {
            match find_graphite_feature(face, t) {
                Some((tag, value)) => {
                    return Ok(FeatureDirective::NumericFeature { tag, value });
                },
                None => {},
            }
        },
        None => {},
    }
    read_late_directive(t)
}

/// The length of a feature string: the place of its first zero byte, or
/// its whole length.
pub open spec fn c_len(s: Seq<u8>) -> int {
    run_end(s, 0, ByteClass::NonZero)
}

/// The feature string without its end: what stands before the first zero
/// byte.
pub open spec fn c_str(s: Seq<u8>) -> Seq<u8> {
    s.take(c_len(s))
}

/// Where the token after place `i` starts: one separator at `i` is passed
/// over, then blanks.
pub open spec fn token_start(s: Seq<u8>, i: int) -> int {
    run_end(
        s,
        if is_separator(at(s, i)) {
            i + 1
        } else {
            i
        },
        ByteClass::Blank,
    )
}

/// Where the token that starts at `a` stops: at the next separator, or at
/// the end.
pub open spec fn token_stop(s: Seq<u8>, a: int) -> int {
    run_end(s, a, ByteClass::InToken)
}

/// The outcomes of the tokens from place `i` on, each with the place where
/// its token starts and stops, in the order of the string.
pub open spec fn outcomes_from(s: Seq<u8>, i: int, face: Option<&Face>) -> Seq<
    (Result<DirectiveView, WarningKind>, int, int),
>
    decreases s.len() - i,
{
    let a = token_start(s, i);
    let e = token_stop(s, a);
    if i < 0 || a >= s.len() || e <= i || e > s.len() {
        Seq::empty()
    } else {
        seq![(token_directive(s.subrange(a, e), face), a, e)] + outcomes_from(s, e, face)
    }
}

/// The directives among a run of outcomes, in their order.
pub open spec fn directives_of(o: Seq<(Result<DirectiveView, WarningKind>, int, int)>) -> Seq<
    DirectiveView,
>
    decreases o.len(),
{
    if o.len() == 0 {
        Seq::empty()
    } else {
        let head = directives_of(o.drop_last());
        match o.last().0 {
            Ok(d) => head.push(d),
            Err(_) => head,
        }
    }
}

/// The warnings among a run of outcomes, in their order.
pub open spec fn warnings_of(o: Seq<(Result<DirectiveView, WarningKind>, int, int)>) -> Seq<
    ParseWarning,
>
    decreases o.len(),
{
    if o.len() == 0 {
        Seq::empty()
    } else {
        let head = warnings_of(o.drop_last());
        match o.last().0 {
            Ok(_) => head,
            Err(kind) => head.push(
                ParseWarning { kind, start: o.last().1 as usize, end: o.last().2 as usize },
            ),
        }
    }
}

/// A token that starts within the string stops after the place from which
/// it was looked for.
pub proof fn lemma_token_progress(s: Seq<u8>, i: int)
    requires
        0 <= i <= s.len(),
        token_start(s, i) < s.len(),
    ensures
        i <= token_start(s, i) <= token_stop(s, token_start(s, i)) <= s.len(),
        token_stop(s, token_start(s, i)) > i,
{
    let from = if is_separator(at(s, i)) {
        i + 1
    } else {
        i
    };
    lemma_run_end(s, from, ByteClass::Blank);
    let a = token_start(s, i);
    lemma_run_end(s, a, ByteClass::InToken);
}

/// What parsing a feature string gives: the directives that it spells and
/// the warnings about the tokens that spell none.
#[derive(Clone, Debug, PartialEq, Eq)]
pub struct ParseOutput {
    pub directives: Vec<FeatureDirective>,
    pub warnings: Vec<ParseWarning>,
}

/// The mathematical content of a run of directives.
pub open spec fn directive_views(v: Seq<FeatureDirective>) -> Seq<DirectiveView> {
    v.map_values(|d: FeatureDirective| d@)
}

/// The outcomes of all the tokens of a feature string.
pub open spec fn parse_outcomes(s: Seq<u8>, face: Option<&Face>) -> Seq<
    (Result<DirectiveView, WarningKind>, int, int),
> {
    outcomes_from(c_str(s), 0, face)
}

/// Parses a feature string for a font whose face offers features of its
/// own. Every token gives either a directive or a warning, in the order of
/// the string, and parsing never fails.
pub fn parse_with(s: &[u8], face: Option<&Face>) -> (out: ParseOutput)
    ensures
        directive_views(out.directives@) == directives_of(parse_outcomes(s@, face)),
        out.warnings@ == warnings_of(parse_outcomes(s@, face)),
        out.directives@.len() + out.warnings@.len() == parse_outcomes(s@, face).len(),
{
    let n: usize = scan(s, 0, ByteClass::NonZero);
    let cs = slice_subrange(s, 0, n);
    assert(cs@ =~= c_str(s@));
    let mut directives: Vec<FeatureDirective> = Vec::new();
    let mut warnings: Vec<ParseWarning> = Vec::new();
    let mut pos: usize = 0;
    let ghost mut done: Seq<(Result<DirectiveView, WarningKind>, int, int)> = Seq::empty();
    assert(directive_views(directives@) =~= directives_of(done));
    loop
        invariant
            cs@ == c_str(s@),
            cs@.len() == n,
            pos <= n,
            done + outcomes_from(cs@, pos as int, face) == outcomes_from(cs@, 0, face),
            directive_views(directives@) == directives_of(done),
            warnings@ == warnings_of(done),
            directives@.len() + warnings@.len() == done.len(),
        ensures
            directive_views(directives@) == directives_of(outcomes_from(cs@, 0, face)),
            warnings@ == warnings_of(outcomes_from(cs@, 0, face)),
            directives@.len() + warnings@.len() == outcomes_from(cs@, 0, face).len(),
        decreases n - pos,
    {
        let from: usize = if pos < n && is_in_class(ByteClass::InToken, cs[pos]) {
            pos
        } else if pos < n {
            pos + 1
        } else {
            pos
        };
        let a: usize = scan(cs, from, ByteClass::Blank);
        if a >= n {
            assert(outcomes_from(cs@, pos as int, face) =~= Seq::empty());
            assert(done + Seq::empty() =~= done);
            break ;
        }
        let e: usize = scan(cs, a, ByteClass::InToken);
        proof {
            lemma_token_progress(cs@, pos as int);
        }
        let t = slice_subrange(cs, a, e);
        let r = read_token(t, face);
        let ghost item = (token_directive(t@, face), a as int, e as int);
        let ghost before = done;
        proof {
            done = done.push(item);
            assert(done.drop_last() =~= before);
            assert(before + (seq![item] + outcomes_from(cs@, e as int, face)) =~= done
                + outcomes_from(cs@, e as int, face));
        }
        match r {
            Ok(d) => {
                let ghost old_dirs = directives@;
                directives.push(d);
                assert(directive_views(directives@) =~= directive_views(old_dirs).push(d@));
            },
            Err(kind) => {
                warnings.push(ParseWarning { kind, start: a, end: e });
            },
        }
        pos = e;
    }
    ParseOutput { directives, warnings }
}

/// Parses a feature string: see [`parse_with`], with no face to ask.
pub fn parse(s: &[u8]) -> (out: ParseOutput)
    ensures
        directive_views(out.directives@) == directives_of(parse_outcomes(s@, None)),
        out.warnings@ == warnings_of(parse_outcomes(s@, None)),
        out.directives@.len() + out.warnings@.len() == parse_outcomes(s@, None).len(),
{
    parse_with(s, None)
}

} // verus!
