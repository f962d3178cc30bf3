//! The name of a font as a document gives it: `name/variant:features`, or
//! `[file:index]:features` for a font named by its file.

use vstd::prelude::*;
use crate::bytes::ByteClass;
use crate::bytes::at;
use crate::bytes::byte_at;
use crate::bytes::lemma_run_end;
use crate::bytes::run_end;
use crate::bytes::scan;
use crate::features::c_str;
use crate::features::decimal_i32;
use crate::features::read_decimal_i32;

verus! {

/// Where the parts of a font name lie, as places in the name, and the
/// index of the face within its file.
#[derive(Copy, Clone, Debug, PartialEq, Eq, Structural)]
pub struct FontNameParts {
    /// Where the name proper ends and the variant starts; the place of
    /// `feat` where there is no variant.
    pub var: usize,
    /// Where the variant ends and the features start; the place of `end`
    /// where there are no features.
    pub feat: usize,
    /// Where the name ends.
    pub end: usize,
    /// The index of the face; 0 where none is given.
    pub index: i32,
}

/// The parts of a name that is not given by a file: the features start at
/// the first `:`, and the variant at the first `/` before that.
pub open spec fn family_parts(s: Seq<u8>) -> FontNameParts {
    let feat = run_end(s, 0, ByteClass::NotColon);
    let stop = run_end(s, 0, ByteClass::InFamily);
    FontNameParts {
        var: (if stop < feat {
            stop
        } else {
            feat
        }) as usize,
        feat: feat as usize,
        end: s.len() as usize,
        index: 0,
    }
}

/// The parts of a name that is given by a file, `[file:index]:features`.
/// The file's name ends at the first `]`, or at the first `:` before that,
/// which brings the index; the features start at the first `:` after the
/// `]`. Where the `]` is missing, so are the features.
pub open spec fn file_parts(s: Seq<u8>) -> FontNameParts {
    let stop = run_end(s, 1, ByteClass::InFileName);
    let close = run_end(s, stop, ByteClass::NotRightBracket);
    let feat = if close < s.len() {
        run_end(s, close + 1, ByteClass::NotColon)
    } else {
        s.len() as int
    };
    FontNameParts {
        var: (if stop < s.len() {
            stop
        } else {
            feat
        }) as usize,
        feat: feat as usize,
        end: s.len() as usize,
        index: if at(s, stop) == 0x3A {
            decimal_i32(s, stop + 1, run_end(s, stop + 1, ByteClass::Digit), 0)
        } else {
            0
        },
    }
}

/// The parts of a font name, which ends at its first zero byte.
pub open spec fn font_name_parts(name: Seq<u8>) -> FontNameParts {
    if at(c_str(name), 0) == 0x5B {
        file_parts(c_str(name))
    } else {
        family_parts(c_str(name))
    }
}

/// Splits a font name into its parts: see [`font_name_parts`].
#[allow(non_snake_case)]
pub fn splitFontName(name: &[u8]) -> (r: FontNameParts)
    ensures
        r == font_name_parts(name@),
        r.var <= r.feat <= r.end <= name@.len(),
{
    let n: usize = scan(name, 0, ByteClass::NonZero);
    let s = vstd::slice::slice_subrange(name, 0, n);
    assert(s@ =~= c_str(name@));
    if byte_at(s, 0) == 0x5B {
        let stop: usize = scan(s, 1, ByteClass::InFileName);
        let close: usize = scan(s, stop, ByteClass::NotRightBracket);
        let feat: usize = if close < n {
            scan(s, close + 1, ByteClass::NotColon)
        } else {
            n
        };
        let var: usize = if stop < n { stop } else { feat };
        let index: i32 = if byte_at(s, stop) == 0x3A {
            let d1: usize = scan(s, stop + 1, ByteClass::Digit);
            proof {
                lemma_run_end(s@, stop + 1, ByteClass::Digit);
            }
            read_decimal_i32(s, stop + 1, d1, 0)
        } else {
            0
        };
        FontNameParts { var, feat, end: n, index }
    } else {
        let feat: usize = scan(s, 0, ByteClass::NotColon);
        let stop: usize = scan(s, 0, ByteClass::InFamily);
        let var: usize = if stop < feat { stop } else { feat };
        FontNameParts { var, feat, end: n, index: 0 }
    }
}

} // verus!
