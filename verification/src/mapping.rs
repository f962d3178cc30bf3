//! Text mappings and input encodings: the mapping that the name of a font
//! file asks for, the file that a mapping is loaded from, and the encoding
//! that a name stands for.

use vstd::prelude::*;
use crate::bytes::ByteClass;
use crate::bytes::copy_range;
use crate::bytes::run_end;
use crate::bytes::scan;
use crate::features::c_len;
use crate::features::c_str;

verus! {

/// Whether `needle` stands in `haystack` at the place `i`.
pub open spec fn occurs_at(haystack: Seq<u8>, needle: Seq<u8>, i: int) -> bool {
    0 <= i && i + needle.len() <= haystack.len() && haystack.subrange(i, i + needle.len())
        == needle
}

/// Whether `r` is the first place where `needle` stands in `haystack`, or
/// `None` where it stands nowhere.
pub open spec fn is_first_occurrence(haystack: Seq<u8>, needle: Seq<u8>, r: Option<usize>) -> bool {
    match r {
        Some(i) => occurs_at(haystack, needle, i as int) && forall|j: int|
            0 <= j < i ==> !#[trigger] occurs_at(haystack, needle, j),
        None => forall|j: int| !#[trigger] occurs_at(haystack, needle, j),
    }
}

/// Finds a byte string in another with `memchr::memmem::find`, which is
/// taken at its word, not proved: it returns the index of the first
/// occurrence of the needle in the haystack, and `None` where there is
/// none. Only a needle that is not empty is looked for.
#[verifier::external_body]
fn find_bytes(haystack: &[u8], needle: &[u8]) -> (r: Option<usize>)
    requires
        needle@.len() > 0,
    ensures
        is_first_occurrence(haystack@, needle@, r),
{
    memchr::memmem::find(haystack, needle)
}

/// What asks for a mapping in the name of a font file.
pub const MAPPING_OPTION: [u8; 9] = [0x3A, 0x6D, 0x61, 0x70, 0x70, 0x69, 0x6E, 0x67, 0x3D];

/// The name of a font file without the mapping that it asks for: how much
/// of the name is left, and the name of the mapping.
#[derive(Clone, Debug, PartialEq, Eq)]
pub struct TfmFontName {
    pub name_len: usize,
    pub mapping: Option<Vec<u8>>,
}

/// Where the name of the mapping starts, for an option that stands at
/// `pos`: after the option and the spaces and control characters that
/// follow it.
pub open spec fn mapping_start(s: Seq<u8>, pos: int) -> int {
    run_end(s, pos + 9, ByteClass::SpaceOrControl)
}

/// Looks for `:mapping=` in the name of a font file, which ends at its
/// first zero byte. Where it is found, the name ends there, and what
/// follows it, after spaces and control characters, names the mapping,
/// unless nothing follows. Where it is not found, the name is left whole.
pub fn check_for_tfm_font_mapping(name: &[u8]) -> (r: TfmFontName)
    ensures
        r.name_len <= c_len(name@),
        r.name_len == c_len(name@) ==> r.mapping.is_none() && is_first_occurrence(
            c_str(name@),
            MAPPING_OPTION@,
            None,
        ),
        r.name_len < c_len(name@) ==> {
            &&& is_first_occurrence(c_str(name@), MAPPING_OPTION@, Some(r.name_len))
            &&& r.mapping.is_some() == (mapping_start(c_str(name@), r.name_len as int) < c_len(
                name@,
            ))
            &&& r.mapping.is_some() ==> r.mapping.unwrap()@ == c_str(name@).skip(
                mapping_start(c_str(name@), r.name_len as int),
            )
        },
{
    let n: usize = scan(name, 0, ByteClass::NonZero);
    let s = vstd::slice::slice_subrange(name, 0, n);
    assert(s@ =~= c_str(name@));
    match find_bytes(s, vstd::array::array_as_slice(&MAPPING_OPTION)) {
        Some(pos) => {
            let start: usize = scan(s, pos + 9, ByteClass::SpaceOrControl);
            if start < n {
                let mapping = copy_range(s, start, n);
                assert(s@.subrange(start as int, n as int) =~= s@.skip(start as int));
                TfmFontName { name_len: pos, mapping: Some(mapping) }
            } else {
                TfmFontName { name_len: pos, mapping: None }
            }
        },
        None => TfmFontName { name_len: n, mapping: None },
    }
}

/// What a mapping file's name ends with.
pub const MAPPING_EXTENSION: [u8; 4] = [0x2E, 0x74, 0x65, 0x63];

/// The name of the file that the mapping `name` is loaded from: the name
/// with `.tec` after it.
pub fn mapping_file_name(name: &[u8]) -> (r: Vec<u8>)
    ensures
        r@ == name@ + MAPPING_EXTENSION@,
{
    let mut out: Vec<u8> = vstd::slice::slice_to_vec(name);
    out.push(0x2E);
    out.push(0x74);
    out.push(0x65);
    out.push(0x63);
    assert(out@ =~= name@ + MAPPING_EXTENSION@);
    out
}

/// The forms of text that a converter goes between.
pub const FORM_BYTES: u16 = 1;

pub const FORM_UTF16_BE: u16 = 3;

pub const FORM_UTF16_LE: u16 = 4;

/// How a mapping is made into a converter.
#[derive(Copy, Clone, Debug, PartialEq, Eq, Structural)]
pub struct ConverterForms {
    pub map_forward: bool,
    pub source: u16,
    pub target: u16,
}

/// How a mapping is made into a converter: a mapping of bytes is read
/// backwards, from UTF-16 to bytes; any other goes from UTF-16 to UTF-16.
/// UTF-16 is in the byte order of the machine.
pub fn converter_forms(byte_mapping: u8, big_endian: bool) -> (r: ConverterForms)
    ensures
        r.map_forward == (byte_mapping == 0),
        r.source == (if big_endian {
            FORM_UTF16_BE
        } else {
            FORM_UTF16_LE
        }),
        r.target == (if byte_mapping != 0 {
            FORM_BYTES
        } else {
            r.source
        }),
{
    let native: u16 = if big_endian { FORM_UTF16_BE } else { FORM_UTF16_LE };
    if byte_mapping != 0 {
        ConverterForms { map_forward: false, source: native, target: FORM_BYTES }
    } else {
        ConverterForms { map_forward: true, source: native, target: native }
    }
}

/// Why a warning about a mapping is given.
#[derive(Copy, Clone, Debug, PartialEq, Eq, Structural)]
pub enum MappingWarning {
    /// The mapping was loaded, and the loading of fonts is traced.
    Loaded,
    /// The mapping file was not found.
    NotFound,
    /// The mapping file was found, but no converter could be made of it.
    NotLoadable,
}

impl MappingWarning {
    /// The number that the warning is given under.
    pub fn code(self) -> (r: i32)
        ensures
            r == match self {
                MappingWarning::Loaded => 0int,
                MappingWarning::NotFound => 1int,
                MappingWarning::NotLoadable => 2int,
            },
    {
        match self {
            MappingWarning::Loaded => 0,
            MappingWarning::NotFound => 1,
            MappingWarning::NotLoadable => 2,
        }
    }
}

/// The warning that loading a mapping ends with, if any: given whether
/// the file was found, whether a converter could be made of it, and how
/// much the loading of fonts is traced.
pub fn load_mapping_warning(found: bool, loadable: bool, tracing_fonts: i32) -> (r: Option<
    MappingWarning,
>)
    ensures
        r == (if !found {
            Some(MappingWarning::NotFound)
        } else if !loadable {
            Some(MappingWarning::NotLoadable)
        } else if tracing_fonts > 1 {
            Some(MappingWarning::Loaded)
        } else {
            None
        }),
{
    if !found {
        Some(MappingWarning::NotFound)
    } else if !loadable {
        Some(MappingWarning::NotLoadable)
    } else if tracing_fonts > 1 {
        Some(MappingWarning::Loaded)
    } else {
        None
    }
}

/// The mapping that is waiting to be loaded for a font file, if any: it
/// is handed out once.
pub fn load_tfm_font_mapping(saved: &mut Option<Vec<u8>>) -> (r: Option<Vec<u8>>)
    ensures
        r == *old(saved),
        final(saved).is_none(),
{
    saved.take()
}

/// The character that a mapping of bytes gives: the first byte that the
/// converter wrote, or 0 where it wrote none.
pub fn apply_tfm_font_mapping(out_used: u32, first: u8) -> (r: i32)
    ensures
        r == (if out_used < 1 {
            0int
        } else {
            first as int
        }),
{
    if out_used < 1 {
        0
    } else {
        first as i32
    }
}

/// The modes of reading input.
pub const AUTO: i32 = 0;

pub const UTF8: i32 = 1;

pub const UTF16BE: i32 = 2;

pub const UTF16LE: i32 = 3;

pub const RAW: i32 = 4;

pub const ICUMAPPING: i32 = 5;

/// A letter in lower case; any other byte as it is.
pub open spec fn ascii_lower(b: u8) -> u8 {
    if 0x41 <= b <= 0x5A {
        (b + 0x20) as u8
    } else {
        b
    }
}

/// Whether two byte strings are the same but for the case of their
/// letters.
pub open spec fn same_ignoring_case(a: Seq<u8>, b: Seq<u8>) -> bool {
    a.len() == b.len() && forall|i: int|
        0 <= i < a.len() ==> ascii_lower(#[trigger] a[i]) == ascii_lower(b[i])
}

/// Whether two byte strings are the same but for the case of their
/// letters.
pub fn eq_ignore_ascii_case<const N: usize>(a: &[u8], b: &[u8; N]) -> (r: bool)
    ensures
        r == same_ignoring_case(a@, b@),
{
    if a.len() != N {
        return false;
    }
    let mut i: usize = 0;
    while i < N
        invariant
            i <= N,
            a@.len() == N,
            b@.len() == N,
            forall|j: int| 0 <= j < i ==> ascii_lower(#[trigger] a@[j]) == ascii_lower(b@[j]),
        decreases N - i,
    {
        let x: u8 = a[i];
        let y: u8 = b[i];
        let lx: u8 = if 0x41 <= x && x <= 0x5A { x + 0x20 } else { x };
        let ly: u8 = if 0x41 <= y && y <= 0x5A { y + 0x20 } else { y };
        if lx != ly {
            return false;
        }
        i += 1;
    }
    true
}

pub const NAME_AUTO: [u8; 4] = [0x61, 0x75, 0x74, 0x6F];

pub const NAME_UTF8: [u8; 4] = [0x75, 0x74, 0x66, 0x38];

pub const NAME_UTF16: [u8; 5] = [0x75, 0x74, 0x66, 0x31, 0x36];

pub const NAME_UTF16BE: [u8; 7] = [0x75, 0x74, 0x66, 0x31, 0x36, 0x62, 0x65];

pub const NAME_UTF16LE: [u8; 7] = [0x75, 0x74, 0x66, 0x31, 0x36, 0x6C, 0x65];

pub const NAME_BYTES: [u8; 5] = [0x62, 0x79, 0x74, 0x65, 0x73];

/// The mode that a built-in name of an encoding stands for, in either
/// case: `auto`, `utf8`, `utf16` in the byte order of the machine,
/// `utf16be`, `utf16le` or `bytes`. `None` for any other name.
pub open spec fn builtin_encoding(name: Seq<u8>, big_endian: bool) -> Option<i32> {
    if same_ignoring_case(name, NAME_AUTO@) {
        Some(AUTO)
    } else if same_ignoring_case(name, NAME_UTF8@) {
        Some(UTF8)
    } else if same_ignoring_case(name, NAME_UTF16@) {
        Some(
            if big_endian {
                UTF16BE
            } else {
                UTF16LE
            },
        )
    } else if same_ignoring_case(name, NAME_UTF16BE@) {
        Some(UTF16BE)
    } else if same_ignoring_case(name, NAME_UTF16LE@) {
        Some(UTF16LE)
    } else if same_ignoring_case(name, NAME_BYTES@) {
        Some(RAW)
    } else {
        None
    }
}

/// The mode of reading input that a name stands for, and what goes with
/// it.
#[derive(Copy, Clone, Debug, PartialEq, Eq, Structural)]
pub struct EncodingMode {
    pub mode: i32,
    /// Whether the name is to be kept, as the name of the converter.
    pub keep_name: bool,
    /// Whether a warning about an unknown encoding is due.
    pub unknown: bool,
}

/// The mode of reading input that a name stands for. A built-in name
/// stands for its mode. For any other name `converter_opens` says whether
/// the conversion service knows it: a name that it knows is read through
/// its converter, and the name is kept; a name that it does not know is
/// read as raw bytes, with a warning.
pub fn get_encoding_mode_and_info(name: &[u8], big_endian: bool, converter_opens: bool) -> (r:
    EncodingMode)
    ensures
        builtin_encoding(name@, big_endian).is_some() ==> r == (EncodingMode {
            mode: builtin_encoding(name@, big_endian).unwrap(),
            keep_name: false,
            unknown: false,
        }),
        builtin_encoding(name@, big_endian).is_none() && converter_opens ==> r == (EncodingMode {
            mode: ICUMAPPING,
            keep_name: true,
            unknown: false,
        }),
        builtin_encoding(name@, big_endian).is_none() && !converter_opens ==> r == (EncodingMode {
            mode: RAW,
            keep_name: false,
            unknown: true,
        }),
{
    let builtin = if eq_ignore_ascii_case(name, &NAME_AUTO) {
        Some(AUTO)
    } else if eq_ignore_ascii_case(name, &NAME_UTF8) {
        Some(UTF8)
    } else if eq_ignore_ascii_case(name, &NAME_UTF16) {
        Some(if big_endian { UTF16BE } else { UTF16LE })
    } else if eq_ignore_ascii_case(name, &NAME_UTF16BE) {
        Some(UTF16BE)
    } else if eq_ignore_ascii_case(name, &NAME_UTF16LE) {
        Some(UTF16LE)
    } else if eq_ignore_ascii_case(name, &NAME_BYTES) {
        Some(RAW)
    } else {
        None
    };
    match builtin {
        Some(mode) => EncodingMode { mode, keep_name: false, unknown: false },
        None => if converter_opens {
            EncodingMode { mode: ICUMAPPING, keep_name: true, unknown: false }
        } else {
            EncodingMode { mode: RAW, keep_name: false, unknown: true }
        },
    }
}

/// Whether a name of an encoding is built in, so that the conversion
/// service need not be asked about it.
pub fn is_builtin_encoding(name: &[u8], big_endian: bool) -> (r: bool)
    ensures
        r == builtin_encoding(name@, big_endian).is_some(),
{
    eq_ignore_ascii_case(name, &NAME_AUTO) || eq_ignore_ascii_case(name, &NAME_UTF8)
        || eq_ignore_ascii_case(name, &NAME_UTF16) || eq_ignore_ascii_case(name, &NAME_UTF16BE)
        || eq_ignore_ascii_case(name, &NAME_UTF16LE) || eq_ignore_ascii_case(name, &NAME_BYTES)
}

} // verus!
