//! Byte strings: the classes of bytes that the readers of this crate scan
//! over, and the scanning, comparing and copying that they share.

use vstd::prelude::*;

verus! {

/// The classes of bytes that the readers scan over.
#[derive(Copy, Clone, Debug, PartialEq, Eq, Structural)]
pub enum ByteClass {
    /// A space or a tab.
    Blank,
    /// An ASCII decimal digit.
    Digit,
    /// An ASCII hexadecimal digit of either case.
    Hex,
    /// Any byte but zero.
    NonZero,
    /// Any byte but the separators `:`, `;` and `,`.
    InToken,
    /// Any byte but the separators and `=`.
    InTag,
    /// Any byte but `=`.
    NotEquals,
    /// A printable ASCII byte other than the space and `=`.
    TagLetter,
    /// Any byte but `}`.
    NotRightBrace,
    /// Any byte but `,`.
    NotComma,
    /// Any byte but the ASCII white space: space, tab, line feed, form
    /// feed and carriage return.
    NotWhitespace,
    /// Any byte but `:`.
    NotColon,
    /// Any byte but `]`.
    NotRightBracket,
    /// Any byte but `/` and `:`.
    InFamily,
    /// Any byte but `:` and `]`.
    InFileName,
    /// A space or a control character: any byte up to 0x20.
    SpaceOrControl,
}

/// Whether `b` separates two tokens.
pub open spec fn is_separator(b: u8) -> bool {
    b == 0x3A || b == 0x3B || b == 0x2C
}

/// Whether `b` belongs to the class `c`.
pub open spec fn in_class(c: ByteClass, b: u8) -> bool {
    match c {
        ByteClass::Blank => b == 0x20 || b == 0x09,
        ByteClass::Digit => 0x30 <= b <= 0x39,
        ByteClass::Hex => (0x30 <= b <= 0x39) || (0x41 <= b <= 0x46) || (0x61 <= b <= 0x66),
        ByteClass::NonZero => b != 0,
        ByteClass::InToken => !is_separator(b),
        ByteClass::InTag => !is_separator(b) && b != 0x3D,
        ByteClass::NotEquals => b != 0x3D,
        ByteClass::TagLetter => 0x21 <= b <= 0x7E && b != 0x3D,
        ByteClass::NotRightBrace => b != 0x7D,
        ByteClass::NotComma => b != 0x2C,
        ByteClass::NotWhitespace => !(b == 0x20 || b == 0x09 || b == 0x0A || b == 0x0C || b
            == 0x0D),
        ByteClass::NotColon => b != 0x3A,
        ByteClass::NotRightBracket => b != 0x5D,
        ByteClass::InFamily => b != 0x2F && b != 0x3A,
        ByteClass::InFileName => b != 0x3A && b != 0x5D,
        ByteClass::SpaceOrControl => b <= 0x20,
    }
}

/// Whether `b` belongs to the class `c`.
pub fn is_in_class(c: ByteClass, b: u8) -> (r: bool)
    ensures
        r == in_class(c, b),
{
    match c {
        ByteClass::Blank => b == 0x20 || b == 0x09,
        ByteClass::Digit => 0x30 <= b && b <= 0x39,
        ByteClass::Hex => (0x30 <= b && b <= 0x39) || (0x41 <= b && b <= 0x46) || (0x61 <= b && b
            <= 0x66),
        ByteClass::NonZero => b != 0,
        ByteClass::InToken => !(b == 0x3A || b == 0x3B || b == 0x2C),
        ByteClass::InTag => !(b == 0x3A || b == 0x3B || b == 0x2C) && b != 0x3D,
        ByteClass::NotEquals => b != 0x3D,
        ByteClass::TagLetter => 0x21 <= b && b <= 0x7E && b != 0x3D,
        ByteClass::NotRightBrace => b != 0x7D,
        ByteClass::NotComma => b != 0x2C,
        ByteClass::NotWhitespace => !(b == 0x20 || b == 0x09 || b == 0x0A || b == 0x0C || b
            == 0x0D),
        ByteClass::NotColon => b != 0x3A,
        ByteClass::NotRightBracket => b != 0x5D,
        ByteClass::InFamily => b != 0x2F && b != 0x3A,
        ByteClass::InFileName => b != 0x3A && b != 0x5D,
        ByteClass::SpaceOrControl => b <= 0x20,
    }
}

/// The byte at `i`, or zero where `s` has none.
pub open spec fn at(s: Seq<u8>, i: int) -> u8 {
    if 0 <= i < s.len() {
        s[i]
    } else {
        0
    }
}

/// The byte at `i`, or zero where `s` has none.
pub fn byte_at(s: &[u8], i: usize) -> (b: u8)
    ensures
        b == at(s@, i as int),
{
    if i < s.len() {
        s[i]
    } else {
        0
    }
}

/// Where the run of bytes of class `c` that starts at `i` ends: the first
/// place at or after `i` that holds no byte of the class.
pub open spec fn run_end(s: Seq<u8>, i: int, c: ByteClass) -> int
    decreases s.len() - i,
{
    if 0 <= i < s.len() && in_class(c, s[i]) {
        run_end(s, i + 1, c)
    } else {
        i
    }
}

/// A run ends within the string, at a byte outside the class, and holds
/// bytes of the class only.
pub proof fn lemma_run_end(s: Seq<u8>, i: int, c: ByteClass)
    requires
        0 <= i <= s.len(),
    ensures
        i <= run_end(s, i, c) <= s.len(),
        run_end(s, i, c) < s.len() ==> !in_class(c, s[run_end(s, i, c)]),
        forall|j: int| i <= j < run_end(s, i, c) ==> in_class(c, #[trigger] s[j]),
    decreases s.len() - i,
{
    if i < s.len() && in_class(c, s[i]) {
        lemma_run_end(s, i + 1, c);
    }
}

/// Where the run of bytes of class `c` that starts at `i` ends.
pub fn scan(s: &[u8], i: usize, c: ByteClass) -> (r: usize)
    requires
        i <= s@.len(),
    ensures
        r == run_end(s@, i as int, c),
        i <= r <= s@.len(),
{
    let mut j: usize = i;
    while j < s.len() && is_in_class(c, s[j])
        invariant
            i <= j <= s@.len(),
            run_end(s@, j as int, c) == run_end(s@, i as int, c),
        decreases s@.len() - j,
    {
        j += 1;
    }
    j
}

/// A run that holds a byte of the class at `j` does not end before it.
pub proof fn lemma_run_reaches(s: Seq<u8>, i: int, j: int, c: ByteClass)
    requires
        0 <= i <= j <= s.len(),
        forall|k: int| i <= k < j ==> in_class(c, #[trigger] s[k]),
    ensures
        run_end(s, i, c) == run_end(s, j, c),
    decreases j - i,
{
    if i < j {
        assert(in_class(c, s[i]));
        lemma_run_reaches(s, i + 1, j, c);
    }
}

/// Whether `t` starts with the bytes of `kw`.
pub fn starts_with<const N: usize>(t: &[u8], kw: &[u8; N]) -> (r: bool)
    ensures
        r == kw@.is_prefix_of(t@),
{
    if t.len() < N {
        return false;
    }
    let mut i: usize = 0;
    while i < N
        invariant
            i <= N <= t@.len(),
            kw@.len() == N,
            forall|j: int| 0 <= j < i ==> t@[j] == kw@[j],
        decreases N - i,
    {
        if t[i] != kw[i] {
            return false;
        }
        i += 1;
    }
    assert(t@.subrange(0, N as int) =~= kw@);
    true
}

/// A copy of the bytes of `t` from `from` on.
pub fn copy_from(t: &[u8], from: usize) -> (r: Vec<u8>)
    requires
        from <= t@.len(),
    ensures
        r@ == t@.skip(from as int),
{
    let mut r: Vec<u8> = Vec::new();
    let mut i: usize = from;
    assert(r@ =~= t@.subrange(from as int, i as int));
    while i < t.len()
        invariant
            from <= i <= t@.len(),
            r@ == t@.subrange(from as int, i as int),
        decreases t@.len() - i,
    {
        r.push(t[i]);
        i += 1;
        assert(r@ =~= t@.subrange(from as int, i as int));
    }
    assert(t@.subrange(from as int, t@.len() as int) =~= t@.skip(from as int));
    r
}

/// Whether two byte strings are equal.
pub fn bytes_equal(a: &[u8], b: &[u8]) -> (r: bool)
    ensures
        r == (a@ == b@),
{
    if a.len() != b.len() {
        return false;
    }
    let mut i: usize = 0;
    while i < a.len()
        invariant
            i <= a@.len(),
            a@.len() == b@.len(),
            forall|j: int| 0 <= j < i ==> a@[j] == b@[j],
        decreases a@.len() - i,
    {
        if a[i] != b[i] {
            return false;
        }
        i += 1;
    }
    assert(a@ =~= b@);
    true
}

/// A copy of the bytes of `t` from `from` to `to`.
pub fn copy_range(t: &[u8], from: usize, to: usize) -> (r: Vec<u8>)
    requires
        from <= to <= t@.len(),
    ensures
        r@ == t@.subrange(from as int, to as int),
{
    let mut r: Vec<u8> = Vec::new();
    let mut i: usize = from;
    assert(r@ =~= t@.subrange(from as int, i as int));
    while i < to
        invariant
            from <= i <= to <= t@.len(),
            r@ == t@.subrange(from as int, i as int),
        decreases to - i,
    {
        r.push(t[i]);
        i += 1;
        assert(r@ =~= t@.subrange(from as int, i as int));
    }
    r
}

/// A copy of a byte string.
pub fn copy_bytes(v: &Vec<u8>) -> (r: Vec<u8>)
    ensures
        r@ == v@,
{
    let mut r: Vec<u8> = Vec::new();
    let mut i: usize = 0;
    while i < v.len()
        invariant
            i <= v@.len(),
            r@ == v@.take(i as int),
        decreases v@.len() - i,
    {
        r.push(v[i]);
        i += 1;
        assert(r@ =~= v@.take(i as int));
    }
    assert(v@.take(v@.len() as int) =~= v@);
    r
}

} // verus!
