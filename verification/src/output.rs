//! Printing: what goes to the terminal, to the log, to the files that the
//! document writes, to the string pool and to the buffer of an error's
//! context, character by character.
//!
//! Nothing is written here. A [`Printer`] gathers what is to be written,
//! in order, and keeps the counts that decide where lines are broken.

use vstd::prelude::*;

verus! {

/// Where printing goes.
#[derive(Copy, Clone, Debug, PartialEq, Eq, Structural)]
pub enum Selector {
    File0,
    File1,
    File2,
    File3,
    File4,
    File5,
    File6,
    File7,
    File8,
    File9,
    File10,
    File11,
    File12,
    File13,
    File14,
    File15,
    NoPrint,
    TermOnly,
    LogOnly,
    TermAndLog,
    Pseudo,
    NewString,
}

impl Selector {
    /// The number of the selector: 0 to 15 for the files, then 16 to 21.
    pub open spec fn code_spec(self) -> int {
        match self {
            Selector::File0 => 0,
            Selector::File1 => 1,
            Selector::File2 => 2,
            Selector::File3 => 3,
            Selector::File4 => 4,
            Selector::File5 => 5,
            Selector::File6 => 6,
            Selector::File7 => 7,
            Selector::File8 => 8,
            Selector::File9 => 9,
            Selector::File10 => 10,
            Selector::File11 => 11,
            Selector::File12 => 12,
            Selector::File13 => 13,
            Selector::File14 => 14,
            Selector::File15 => 15,
            Selector::NoPrint => 16,
            Selector::TermOnly => 17,
            Selector::LogOnly => 18,
            Selector::TermAndLog => 19,
            Selector::Pseudo => 20,
            Selector::NewString => 21,
        }
    }

    /// The number of the selector.
    pub fn code(self) -> (r: u8)
        ensures
            r == self.code_spec(),
    {
        match self {
            Selector::File0 => 0,
            Selector::File1 => 1,
            Selector::File2 => 2,
            Selector::File3 => 3,
            Selector::File4 => 4,
            Selector::File5 => 5,
            Selector::File6 => 6,
            Selector::File7 => 7,
            Selector::File8 => 8,
            Selector::File9 => 9,
            Selector::File10 => 10,
            Selector::File11 => 11,
            Selector::File12 => 12,
            Selector::File13 => 13,
            Selector::File14 => 14,
            Selector::File15 => 15,
            Selector::NoPrint => 16,
            Selector::TermOnly => 17,
            Selector::LogOnly => 18,
            Selector::TermAndLog => 19,
            Selector::Pseudo => 20,
            Selector::NewString => 21,
        }
    }
}

/// One thing to be written.
#[derive(Copy, Clone, Debug, PartialEq, Eq, Structural)]
pub enum Emit {
    /// A character for the warning that is being gathered.
    Warn(u16),
    /// A character for the terminal.
    Term(u16),
    /// A character for the log.
    Log(u16),
    /// A character for one of the files that the document writes.
    File(u8, u16),
    /// A character for the buffer of an error's context, at a place.
    Trick(usize, u16),
    /// A character for the string pool.
    Pool(u16),
}

/// The line feed.
pub const NEW_LINE: u16 = 10;

/// The counts and settings of printing, and what was gathered to be
/// written.
#[derive(Clone, Debug, PartialEq, Eq)]
pub struct Printer {
    pub selector: Selector,
    /// How many characters stand on the terminal's line.
    pub term_offset: i32,
    /// How many characters stand on the log's line.
    pub file_offset: i32,
    /// How many characters were printed; the count stops at the largest
    /// value.
    pub tally: i32,
    /// The length at which lines are broken.
    pub max_print_line: i32,
    pub trick_count: i32,
    pub error_line: i32,
    pub doing_special: bool,
    pub new_line_char: i32,
    pub escape_char: i32,
    /// How many characters the string pool holds, and how many it can.
    pub pool_ptr: i32,
    pub pool_size: i32,
    /// What is to be written, in order.
    pub out: Vec<Emit>,
}

/// The mathematical content of a [`Printer`].
pub struct PrinterView {
    pub selector: Selector,
    pub term_offset: int,
    pub file_offset: int,
    pub tally: int,
    pub max_print_line: int,
    pub trick_count: int,
    pub error_line: int,
    pub doing_special: bool,
    pub new_line_char: int,
    pub escape_char: int,
    pub pool_ptr: int,
    pub pool_size: int,
    pub out: Seq<Emit>,
}

impl View for Printer {
    type V = PrinterView;

    open spec fn view(&self) -> PrinterView {
        PrinterView {
            selector: self.selector,
            term_offset: self.term_offset as int,
            file_offset: self.file_offset as int,
            tally: self.tally as int,
            max_print_line: self.max_print_line as int,
            trick_count: self.trick_count as int,
            error_line: self.error_line as int,
            doing_special: self.doing_special,
            new_line_char: self.new_line_char as int,
            escape_char: self.escape_char as int,
            pool_ptr: self.pool_ptr as int,
            pool_size: self.pool_size as int,
            out: self.out@,
        }
    }
}

impl PrinterView {
    /// The invariant of printing: the lines of the terminal and of the log
    /// are shorter than the length at which they are broken.
    pub open spec fn wf(self) -> bool {
        &&& 0 <= self.term_offset < self.max_print_line <= i32::MAX
        &&& 0 <= self.file_offset < self.max_print_line
        &&& 0 <= self.tally <= i32::MAX
        &&& 0 < self.error_line <= i32::MAX
        &&& 0 <= self.pool_ptr <= self.pool_size <= i32::MAX
    }

    /// The state with one more character counted.
    pub open spec fn counted(self) -> PrinterView {
        PrinterView {
            tally: if self.tally < i32::MAX {
                self.tally + 1
            } else {
                self.tally
            },
            ..self
        }
    }

    /// The terminal's line after a character: broken where it is full.
    pub open spec fn term_put(self, incr: bool) -> PrinterView {
        let offset = if incr {
            self.term_offset + 1
        } else {
            self.term_offset
        };
        if offset == self.max_print_line {
            PrinterView { term_offset: 0, out: self.out.push(Emit::Term(NEW_LINE)), ..self }
        } else {
            PrinterView { term_offset: offset, ..self }
        }
    }

    /// The log's line after a character: broken where it is full.
    pub open spec fn log_put(self, incr: bool) -> PrinterView {
        let offset = if incr {
            self.file_offset + 1
        } else {
            self.file_offset
        };
        if offset == self.max_print_line {
            PrinterView { file_offset: 0, out: self.out.push(Emit::Log(NEW_LINE)), ..self }
        } else {
            PrinterView { file_offset: offset, ..self }
        }
    }

    /// The state with more to be written.
    pub open spec fn emit(self, e: Seq<Emit>) -> PrinterView {
        PrinterView { out: self.out + e, ..self }
    }

    /// The state after one character was printed as it is. It goes where
    /// the selector says, and to the warning that is being gathered if it
    /// goes to the terminal or the log; `incr` says whether it takes room
    /// on the line.
    pub open spec fn raw(self, s: u16, incr: bool) -> PrinterView {
        (match self.selector {
            Selector::TermAndLog => self.emit(
                seq![Emit::Warn(s), Emit::Term(s), Emit::Log(s)],
            ).term_put(incr).log_put(incr),
            Selector::LogOnly => self.emit(seq![Emit::Warn(s), Emit::Log(s)]).log_put(incr),
            Selector::TermOnly => self.emit(seq![Emit::Warn(s), Emit::Term(s)]).term_put(incr),
            Selector::NoPrint => self,
            Selector::Pseudo => if self.tally < self.trick_count {
                self.emit(seq![Emit::Trick((self.tally % self.error_line) as usize, s)])
            } else {
                self
            },
            Selector::NewString => if self.pool_ptr < self.pool_size {
                PrinterView { pool_ptr: self.pool_ptr + 1, ..self.emit(seq![Emit::Pool(s)]) }
            } else {
                self
            },
            _ => self.emit(seq![Emit::File(self.selector.code_spec() as u8, s)]),
        }).counted()
    }

    /// The state after the line was ended.
    pub open spec fn ln(self) -> PrinterView {
        match self.selector {
            Selector::TermAndLog => PrinterView {
                term_offset: 0,
                file_offset: 0,
                ..self.emit(
                    seq![Emit::Warn(NEW_LINE), Emit::Term(NEW_LINE), Emit::Log(NEW_LINE)],
                )
            },
            Selector::LogOnly => PrinterView {
                file_offset: 0,
                ..self.emit(seq![Emit::Warn(NEW_LINE), Emit::Log(NEW_LINE)])
            },
            Selector::TermOnly => PrinterView {
                term_offset: 0,
                ..self.emit(seq![Emit::Warn(NEW_LINE), Emit::Term(NEW_LINE)])
            },
            Selector::NoPrint | Selector::Pseudo | Selector::NewString => self,
            _ => self.emit(seq![Emit::File(self.selector.code_spec() as u8, NEW_LINE)]),
        }
    }

    /// The state after a run of characters was printed as they are, each
    /// with its say on whether it takes room on the line.
    pub open spec fn raws(self, units: Seq<(u16, bool)>) -> PrinterView
        decreases units.len(),
    {
        if units.len() == 0 {
            self
        } else {
            self.raws(units.drop_last()).raw(units.last().0, units.last().1)
        }
    }

    /// The state after the character `s` was printed: see [`char_units`].
    pub open spec fn chr(self, s: int) -> PrinterView {
        if ends_line(self, s) {
            self.ln()
        } else {
            self.raws(char_units(self, s))
        }
    }

    /// The state after a run of characters was printed.
    pub open spec fn chars(self, text: Seq<int>) -> PrinterView
        decreases text.len(),
    {
        if text.len() == 0 {
            self
        } else {
            self.chars(text.drop_last()).chr(text.last())
        }
    }
}

/// Whether printing the character `s` ends the line: it is the character
/// that stands for the end of a line, the selector is a file, the
/// terminal or the log, and the character is not taken as it is for the
/// string pool.
pub open spec fn ends_line(v: PrinterView, s: int) -> bool {
    s == v.new_line_char && v.selector.code_spec() < 20
}

/// The digit `d` in lower-case hexadecimal.
pub open spec fn hex_digit_lower(d: int) -> u16 {
    if d < 10 {
        (0x30 + d) as u16
    } else {
        (0x61 + d - 10) as u16
    }
}

/// What is printed for the character `s`, as characters printed as they
/// are. For the string pool, outside a special, the character goes as
/// UTF-16. Else control characters go as `^^` and a letter or two
/// hexadecimal digits, unless in a special; ASCII goes as it is; and the
/// rest goes as UTF-8, of which only the last byte takes room on the
/// line, except to the buffer of an error's context, which takes the
/// character as it is.
pub open spec fn char_units(v: PrinterView, s: int) -> Seq<(u16, bool)> {
    if v.selector == Selector::NewString && !v.doing_special {
        if s >= 0x10000 {
            seq![
                ((0xD800 + (s - 0x10000) / 1024) as u16, true),
                ((0xDC00 + (s - 0x10000) % 1024) as u16, true),
            ]
        } else {
            seq![(s as u16, true)]
        }
    } else if s < 32 && !v.doing_special {
        seq![(0x5Eu16, true), (0x5Eu16, true), ((s + 64) as u16, true)]
    } else if s < 127 {
        seq![(s as u16, true)]
    } else if s == 127 {
        if !v.doing_special {
            seq![(0x5Eu16, true), (0x5Eu16, true), (0x3Fu16, true)]
        } else {
            seq![(s as u16, true)]
        }
    } else if s < 160 && !v.doing_special {
        seq![
            (0x5Eu16, true),
            (0x5Eu16, true),
            (hex_digit_lower(s / 16), true),
            (hex_digit_lower(s % 16), true),
        ]
    } else if v.selector == Selector::Pseudo {
        seq![((s % 0x10000) as u16, true)]
    } else if s < 2048 {
        seq![((192 + s / 64) as u16, false), ((128 + s % 64) as u16, true)]
    } else if s < 0x10000 {
        seq![
            ((224 + s / 4096) as u16, false),
            ((128 + s % 4096 / 64) as u16, false),
            ((128 + s % 64) as u16, true),
        ]
    } else {
        seq![
            ((240 + s / 0x40000) as u16, false),
            ((128 + s % 0x40000 / 4096) as u16, false),
            ((128 + s % 4096 / 64) as u16, false),
            ((128 + s % 64) as u16, true),
        ]
    }
}

impl Printer {
    /// A printer with nothing gathered and nothing counted.
    pub fn new(selector: Selector, max_print_line: i32, error_line: i32, pool_size: i32) -> (r:
        Printer)
        requires
            max_print_line > 0,
            error_line > 0,
            pool_size >= 0,
        ensures
            r@.wf(),
            r@ == (PrinterView {
                selector,
                term_offset: 0,
                file_offset: 0,
                tally: 0,
                max_print_line: max_print_line as int,
                trick_count: 0,
                error_line: error_line as int,
                doing_special: false,
                new_line_char: -1,
                escape_char: 0x5C,
                pool_ptr: 0,
                pool_size: pool_size as int,
                out: Seq::empty(),
            }),
    {
        Printer {
            selector,
            term_offset: 0,
            file_offset: 0,
            tally: 0,
            max_print_line,
            trick_count: 0,
            error_line,
            doing_special: false,
            new_line_char: -1,
            escape_char: 0x5C,
            pool_ptr: 0,
            pool_size,
            out: Vec::new(),
        }
    }

    fn term_put(&mut self, incr: bool)
        requires
            old(self)@.wf(),
        ensures
            final(self)@ == old(self)@.term_put(incr),
            final(self)@.wf(),
    {
        if incr {
            self.term_offset = self.term_offset + 1;
        }
        if self.term_offset == self.max_print_line {
            self.out.push(Emit::Term(NEW_LINE));
            self.term_offset = 0;
        }
    }

    fn log_put(&mut self, incr: bool)
        requires
            old(self)@.wf(),
        ensures
            final(self)@ == old(self)@.log_put(incr),
            final(self)@.wf(),
    {
        if incr {
            self.file_offset = self.file_offset + 1;
        }
        if self.file_offset == self.max_print_line {
            self.out.push(Emit::Log(NEW_LINE));
            self.file_offset = 0;
        }
    }

    /// Prints one character as it is: see [`PrinterView::raw`].
    pub fn print_raw_char(&mut self, s: u16, incr_offset: bool)
        requires
            old(self)@.wf(),
        ensures
            final(self)@ == old(self)@.raw(s, incr_offset),
            final(self)@.wf(),
    {
        let ghost before = self@;
        match self.selector {
            Selector::TermAndLog => {
                self.out.push(Emit::Warn(s));
                self.out.push(Emit::Term(s));
                self.out.push(Emit::Log(s));
                assert(self@ == before.emit(seq![Emit::Warn(s), Emit::Term(s), Emit::Log(s)])) by {
                    assert(self.out@ =~= before.out + seq![
                        Emit::Warn(s),
                        Emit::Term(s),
                        Emit::Log(s),
                    ]);
                }
                self.term_put(incr_offset);
                self.log_put(incr_offset);
            },
            Selector::LogOnly => {
                self.out.push(Emit::Warn(s));
                self.out.push(Emit::Log(s));
                assert(self@ == before.emit(seq![Emit::Warn(s), Emit::Log(s)])) by {
                    assert(self.out@ =~= before.out + seq![Emit::Warn(s), Emit::Log(s)]);
                }
                self.log_put(incr_offset);
            },
            Selector::TermOnly => {
                self.out.push(Emit::Warn(s));
                self.out.push(Emit::Term(s));
                assert(self@ == before.emit(seq![Emit::Warn(s), Emit::Term(s)])) by {
                    assert(self.out@ =~= before.out + seq![Emit::Warn(s), Emit::Term(s)]);
                }
                self.term_put(incr_offset);
            },
            Selector::NoPrint => {},
            Selector::Pseudo => {
                if self.tally < self.trick_count {
                    self.out.push(Emit::Trick((self.tally % self.error_line) as usize, s));
                    assert(self.out@ =~= before.out + seq![
                        Emit::Trick((before.tally % before.error_line) as usize, s),
                    ]);
                }
            },
            Selector::NewString => {
                if self.pool_ptr < self.pool_size {
                    self.out.push(Emit::Pool(s));
                    self.pool_ptr = self.pool_ptr + 1;
                    assert(self.out@ =~= before.out + seq![Emit::Pool(s)]);
                }
            },
            _ => {
                self.out.push(Emit::File(self.selector.code(), s));
                assert(self.out@ =~= before.out + seq![
                    Emit::File(before.selector.code_spec() as u8, s),
                ]);
            },
        }
        if self.tally < i32::MAX {
            self.tally = self.tally + 1;
        }
    }

    /// Ends the line: see [`PrinterView::ln`].
    pub fn print_ln(&mut self)
        requires
            old(self)@.wf(),
        ensures
            final(self)@ == old(self)@.ln(),
            final(self)@.wf(),
    {
        let ghost before = self@;
        match self.selector {
            Selector::TermAndLog => {
                self.out.push(Emit::Warn(NEW_LINE));
                self.out.push(Emit::Term(NEW_LINE));
                self.out.push(Emit::Log(NEW_LINE));
                self.term_offset = 0;
                self.file_offset = 0;
                assert(self.out@ =~= before.out + seq![
                    Emit::Warn(NEW_LINE),
                    Emit::Term(NEW_LINE),
                    Emit::Log(NEW_LINE),
                ]);
            },
            Selector::LogOnly => {
                self.out.push(Emit::Warn(NEW_LINE));
                self.out.push(Emit::Log(NEW_LINE));
                self.file_offset = 0;
                assert(self.out@ =~= before.out + seq![Emit::Warn(NEW_LINE), Emit::Log(NEW_LINE)]);
            },
            Selector::TermOnly => {
                self.out.push(Emit::Warn(NEW_LINE));
                self.out.push(Emit::Term(NEW_LINE));
                self.term_offset = 0;
                assert(self.out@ =~= before.out + seq![
                    Emit::Warn(NEW_LINE),
                    Emit::Term(NEW_LINE),
                ]);
            },
            Selector::NoPrint | Selector::Pseudo | Selector::NewString => {},
            _ => {
                self.out.push(Emit::File(self.selector.code(), NEW_LINE));
                assert(self.out@ =~= before.out + seq![
                    Emit::File(before.selector.code_spec() as u8, NEW_LINE),
                ]);
            },
        }
    }
}

/// The largest character.
pub const BIGGEST_USV: i32 = 0x10FFFF;

/// The largest character that is a string of its own.
pub const BIGGEST_CHAR: i32 = 0xFFFF;

/// Printing one more character as it is comes after printing the others.
pub proof fn lemma_raws_push(v: PrinterView, units: Seq<(u16, bool)>, u: (u16, bool))
    ensures
        v.raws(units.push(u)) == v.raws(units).raw(u.0, u.1),
        v.raws(Seq::empty()) == v,
{
    assert(units.push(u).drop_last() =~= units);
}

/// Printing one more character comes after printing the others.
pub proof fn lemma_chars_push(v: PrinterView, text: Seq<int>, c: int)
    ensures
        v.chars(text.push(c)) == v.chars(text).chr(c),
        v.chars(Seq::empty()) == v,
{
    assert(text.push(c).drop_last() =~= text);
}

/// The characters of a byte string.
pub open spec fn byte_chars(s: Seq<u8>) -> Seq<int> {
    Seq::new(s.len(), |i: int| s[i] as int)
}

/// The lower-case hexadecimal digit for `d`.
fn hex_lower(d: i32) -> (r: u16)
    requires
        0 <= d < 16,
    ensures
        r == hex_digit_lower(d as int),
{
    if d < 10 {
        (0x30 + d) as u16
    } else {
        (0x61 + d - 10) as u16
    }
}

impl Printer {
    /// What is printed for the character `s`: see [`char_units`].
    pub fn units_of(&self, s: i32) -> (r: Vec<(u16, bool)>)
        requires
            0 <= s <= BIGGEST_USV,
        ensures
            r@ == char_units(self@, s as int),
    {
        let mut out: Vec<(u16, bool)> = Vec::new();
        let to_pool = match self.selector {
            Selector::NewString => true,
            _ => false,
        };
        let to_context = match self.selector {
            Selector::Pseudo => true,
            _ => false,
        };
        if to_pool && !self.doing_special {
            if s >= 0x10000 {
                out.push(((0xD800 + (s - 0x10000) / 1024) as u16, true));
                out.push(((0xDC00 + (s - 0x10000) % 1024) as u16, true));
            } else {
                out.push((s as u16, true));
            }
        } else if s < 32 && !self.doing_special {
            out.push((0x5E, true));
            out.push((0x5E, true));
            out.push(((s + 64) as u16, true));
        } else if s < 127 {
            out.push((s as u16, true));
        } else if s == 127 {
            if !self.doing_special {
                out.push((0x5E, true));
                out.push((0x5E, true));
                out.push((0x3F, true));
            } else {
                out.push((s as u16, true));
            }
        } else if s < 160 && !self.doing_special {
            out.push((0x5E, true));
            out.push((0x5E, true));
            out.push((hex_lower(s / 16), true));
            out.push((hex_lower(s % 16), true));
        } else if to_context {
            out.push(((s % 0x10000) as u16, true));
        } else if s < 2048 {
            out.push(((192 + s / 64) as u16, false));
            out.push(((128 + s % 64) as u16, true));
        } else if s < 0x10000 {
            out.push(((224 + s / 4096) as u16, false));
            out.push(((128 + s % 4096 / 64) as u16, false));
            out.push(((128 + s % 64) as u16, true));
        } else {
            out.push(((240 + s / 0x40000) as u16, false));
            out.push(((128 + s % 0x40000 / 4096) as u16, false));
            out.push(((128 + s % 4096 / 64) as u16, false));
            out.push(((128 + s % 64) as u16, true));
        }
        assert(out@ =~= char_units(self@, s as int));
        out
    }

    /// Prints a run of characters as they are.
    pub fn print_raw_chars(&mut self, units: &[(u16, bool)])
        requires
            old(self)@.wf(),
        ensures
            final(self)@ == old(self)@.raws(units@),
            final(self)@.wf(),
    {
        let mut i: usize = 0;
        proof {
            lemma_raws_push(self@, Seq::empty(), (0u16, false));
            assert(units@.take(0) =~= Seq::<(u16, bool)>::empty());
        }
        while i < units.len()
            invariant
                i <= units@.len(),
                self@.wf(),
                self@ == old(self)@.raws(units@.take(i as int)),
            decreases units@.len() - i,
        {
            proof {
                lemma_raws_push(old(self)@, units@.take(i as int), units@[i as int]);
                assert(units@.take(i + 1) =~= units@.take(i as int).push(units@[i as int]));
            }
            self.print_raw_char(units[i].0, units[i].1);
            i += 1;
        }
        assert(units@.take(i as int) =~= units@);
    }

    /// Prints the bytes of `s` as they are, each taking room on the line.
    pub fn print_utf8_str(&mut self, s: &[u8])
        requires
            old(self)@.wf(),
        ensures
            final(self)@ == old(self)@.raws(Seq::new(s@.len(), |i: int| (s@[i] as u16, true))),
            final(self)@.wf(),
    {
        let ghost all = Seq::new(s@.len(), |i: int| (s@[i] as u16, true));
        let mut i: usize = 0;
        proof {
            lemma_raws_push(self@, Seq::empty(), (0u16, false));
            assert(all.take(0) =~= Seq::<(u16, bool)>::empty());
        }
        while i < s.len()
            invariant
                i <= s@.len(),
                self@.wf(),
                all == Seq::new(s@.len(), |i: int| (s@[i] as u16, true)),
                self@ == old(self)@.raws(all.take(i as int)),
            decreases s@.len() - i,
        {
            proof {
                lemma_raws_push(old(self)@, all.take(i as int), (s@[i as int] as u16, true));
                assert(all.take(i + 1) =~= all.take(i as int).push((s@[i as int] as u16, true)));
            }
            self.print_raw_char(s[i] as u16, true);
            i += 1;
        }
        assert(all.take(i as int) =~= all);
    }

    /// Prints the character `s`: see [`PrinterView::chr`].
    pub fn print_char(&mut self, s: i32)
        requires
            old(self)@.wf(),
            0 <= s <= BIGGEST_USV,
        ensures
            final(self)@ == old(self)@.chr(s as int),
            final(self)@.wf(),
    {
        if s == self.new_line_char && self.selector.code() < 20 {
            self.print_ln();
        } else {
            let units = self.units_of(s);
            self.print_raw_chars(units.as_slice());
        }
    }

    /// Prints the bytes of `s` as characters.
    pub fn print_str(&mut self, s: &[u8])
        requires
            old(self)@.wf(),
        ensures
            final(self)@ == old(self)@.chars(byte_chars(s@)),
            final(self)@.wf(),
    {
        let mut i: usize = 0;
        proof {
            lemma_chars_push(self@, Seq::empty(), 0);
            assert(byte_chars(s@).take(0) =~= Seq::<int>::empty());
        }
        while i < s.len()
            invariant
                i <= s@.len(),
                self@.wf(),
                self@ == old(self)@.chars(byte_chars(s@).take(i as int)),
            decreases s@.len() - i,
        {
            proof {
                lemma_chars_push(old(self)@, byte_chars(s@).take(i as int), s@[i as int] as int);
                assert(byte_chars(s@).take(i + 1) =~= byte_chars(s@).take(i as int).push(
                    s@[i as int] as int,
                ));
            }
            self.print_char(s[i] as i32);
            i += 1;
        }
        assert(byte_chars(s@).take(i as int) =~= byte_chars(s@));
    }

    /// Prints a run of characters.
    pub fn print_chars(&mut self, text: &[i32])
        requires
            old(self)@.wf(),
            forall|i: int| 0 <= i < text@.len() ==> 0 <= #[trigger] text@[i] <= BIGGEST_USV,
        ensures
            final(self)@ == old(self)@.chars(text@.map_values(|c: i32| c as int)),
            final(self)@.wf(),
    {
        let ghost all = text@.map_values(|c: i32| c as int);
        let mut i: usize = 0;
        proof {
            lemma_chars_push(self@, Seq::empty(), 0);
            assert(all.take(0) =~= Seq::<int>::empty());
        }
        while i < text.len()
            invariant
                i <= text@.len(),
                self@.wf(),
                all == text@.map_values(|c: i32| c as int),
                forall|i: int| 0 <= i < text@.len() ==> 0 <= #[trigger] text@[i] <= BIGGEST_USV,
                self@ == old(self)@.chars(all.take(i as int)),
            decreases text@.len() - i,
        {
            proof {
                lemma_chars_push(old(self)@, all.take(i as int), text@[i as int] as int);
                assert(all.take(i + 1) =~= all.take(i as int).push(text@[i as int] as int));
            }
            self.print_char(text[i]);
            i += 1;
        }
        assert(all.take(i as int) =~= all);
    }
}

/// The decimal digits of a number that is not negative, as characters.
pub open spec fn nat_text(n: int) -> Seq<int>
    decreases n,
{
    if n < 10 {
        seq![0x30 + n]
    } else {
        nat_text(n / 10).push(0x30 + n % 10)
    }
}

/// A number in decimal, as characters: a `-` for a negative number, then
/// the digits of its magnitude.
pub open spec fn int_text(n: int) -> Seq<int> {
    if n < 0 {
        seq![0x2Dint] + nat_text(-n)
    } else {
        nat_text(n)
    }
}

/// The characters for the digits `dig[0 .. k]`, the last first: a digit
/// of ten or more is a letter from `A`.
pub open spec fn digs_text(dig: Seq<u8>, k: int) -> Seq<int>
    decreases k,
{
    if k <= 0 {
        Seq::empty()
    } else {
        seq![
            if dig[k - 1] < 10 {
                0x30 + dig[k - 1]
            } else {
                0x41 - 10 + dig[k - 1]
            },
        ] + digs_text(dig, k - 1)
    }
}

/// The characters for the digits `dig[0 .. k]`, the last first.
pub fn the_digs(dig: &[u8], k: usize) -> (r: Vec<i32>)
    requires
        k <= dig@.len(),
    ensures
        r@.map_values(|c: i32| c as int) == digs_text(dig@, k as int),
        forall|i: int| 0 <= i < r@.len() ==> 0 <= #[trigger] r@[i] <= BIGGEST_USV,
{
    let mut out: Vec<i32> = Vec::new();
    let mut j: usize = k;
    assert(out@.map_values(|c: i32| c as int) + digs_text(dig@, j as int) =~= digs_text(
        dig@,
        k as int,
    ));
    while j > 0
        invariant
            j <= k <= dig@.len(),
            out@.map_values(|c: i32| c as int) + digs_text(dig@, j as int) == digs_text(
                dig@,
                k as int,
            ),
            forall|i: int| 0 <= i < out@.len() ==> 0 <= #[trigger] out@[i] <= BIGGEST_USV,
        decreases j,
    {
        let d: u8 = dig[j - 1];
        let c: i32 = if d < 10 { 0x30 + d as i32 } else { 0x41 - 10 + d as i32 };
        let ghost before = out@.map_values(|c: i32| c as int);
        out.push(c);
        assert(out@.map_values(|c: i32| c as int) =~= before.push(c as int));
        assert(before.push(c as int) + digs_text(dig@, j - 1) =~= before + (seq![c as int]
            + digs_text(dig@, j - 1)));
        j -= 1;
    }
    assert(out@.map_values(|c: i32| c as int) + Seq::<int>::empty() =~= out@.map_values(
        |c: i32| c as int,
    ));
    out
}

/// The digits of a number that is not negative, the last first.
pub open spec fn digits_reversed(n: int) -> Seq<u8>
    decreases n,
{
    if n < 10 {
        seq![n as u8]
    } else {
        seq![(n % 10) as u8] + digits_reversed(n / 10)
    }
}

/// Printing digits the last first gives the number in decimal.
proof fn lemma_digs_text(n: int)
    requires
        0 <= n,
    ensures
        digs_text(digits_reversed(n), digits_reversed(n).len() as int) == nat_text(n),
        forall|i: int| 0 <= i < digits_reversed(n).len() ==> #[trigger] digits_reversed(n)[i] < 10,
        1 <= digits_reversed(n).len(),
    decreases n,
{
    let d = digits_reversed(n);
    if n < 10 {
        assert(digs_text(d, 0) =~= Seq::<int>::empty());
        assert(digs_text(d, 1) =~= seq![0x30 + n]);
    } else {
        lemma_digs_text(n / 10);
        let rest = digits_reversed(n / 10);
        assert(d.subrange(1, d.len() as int) =~= rest);
        assert(digs_text(d, d.len() as int) =~= nat_text(n / 10).push(0x30 + n % 10)) by {
            lemma_digs_text_first(d, d.len() as int);
        }
    }
}

/// The characters of a run of digits that starts with one more digit are
/// those of the rest, then the character of that digit.
proof fn lemma_digs_text_first(dig: Seq<u8>, k: int)
    requires
        1 <= k <= dig.len(),
    ensures
        digs_text(dig, k) == digs_text(dig.subrange(1, dig.len() as int), k - 1).push(
            if dig[0] < 10 {
                0x30 + dig[0]
            } else {
                0x41 - 10 + dig[0]
            },
        ),
    decreases k,
{
    let rest = dig.subrange(1, dig.len() as int);
    if k == 1 {
        assert(digs_text(dig, 0) =~= Seq::<int>::empty());
        assert(digs_text(rest, 0) =~= Seq::<int>::empty());
        assert(digs_text(dig, 1) =~= seq![
            if dig[0] < 10 {
                0x30 + dig[0]
            } else {
                0x41 - 10 + dig[0]
            },
        ]);
    } else {
        lemma_digs_text_first(dig, k - 1);
        assert(rest[k - 2] == dig[k - 1]);
        let c = if dig[0] < 10 {
            0x30 + dig[0]
        } else {
            0x41 - 10 + dig[0]
        };
        let h = if dig[k - 1] < 10 {
            0x30 + dig[k - 1]
        } else {
            0x41 - 10 + dig[k - 1]
        };
        assert(digs_text(dig, k) =~= seq![h] + digs_text(dig, k - 1));
        assert(digs_text(rest, k - 1) =~= seq![h] + digs_text(rest, k - 2));
        assert(seq![h] + digs_text(rest, k - 2).push(c) =~= (seq![h] + digs_text(rest, k - 2)).push(
            c,
        ));
    }
}

/// The decimal digits of `n`, the last first.
pub fn digits_of(n: u32) -> (r: Vec<u8>)
    ensures
        r@ == digits_reversed(n as int),
{
    let mut out: Vec<u8> = Vec::new();
    let mut m: u32 = n;
    assert(out@ + digits_reversed(m as int) =~= digits_reversed(n as int));
    while m >= 10
        invariant
            out@ + digits_reversed(m as int) == digits_reversed(n as int),
        decreases m,
    {
        let ghost before = out@;
        out.push((m % 10) as u8);
        assert(before.push((m % 10) as u8) + digits_reversed(m as int / 10) =~= before + (seq![
            (m % 10) as u8,
        ] + digits_reversed(m as int / 10)));
        m = m / 10;
    }
    let ghost before = out@;
    out.push(m as u8);
    assert(before.push(m as u8) =~= before + digits_reversed(m as int));
    out
}

impl Printer {
    /// Prints the digits `dig[0 .. k]`, the last first: see
    /// [`digs_text`].
    pub fn print_the_digs(&mut self, dig: &[u8], k: usize)
        requires
            old(self)@.wf(),
            k <= dig@.len(),
        ensures
            final(self)@ == old(self)@.chars(digs_text(dig@, k as int)),
            final(self)@.wf(),
    {
        let text = the_digs(dig, k);
        self.print_chars(text.as_slice());
    }

    /// Prints a number in decimal: see [`int_text`].
    pub fn print_int(&mut self, n: i32)
        requires
            old(self)@.wf(),
        ensures
            final(self)@ == old(self)@.chars(int_text(n as int)),
            final(self)@.wf(),
    {
        let ghost before = self@;
        let magnitude: u32 = if n < 0 {
            (-(n as i64)) as u32
        } else {
            n as u32
        };
        if n < 0 {
            self.print_char(0x2D);
        }
        let dig = digits_of(magnitude);
        proof {
            lemma_digs_text(magnitude as int);
            lemma_chars_push(before, Seq::empty(), 0x2D);
            assert(Seq::<int>::empty().push(0x2Dint) =~= seq![0x2Dint]);
        }
        let ghost mid = self@;
        self.print_the_digs(dig.as_slice(), dig.len());
        proof {
            lemma_chars_concat(before, seq![0x2Dint], nat_text(magnitude as int));
        }
    }
}

/// Printing two runs of characters one after the other prints the runs
/// joined.
pub proof fn lemma_chars_concat(v: PrinterView, a: Seq<int>, b: Seq<int>)
    ensures
        v.chars(a + b) == v.chars(a).chars(b),
    decreases b.len(),
{
    if b.len() == 0 {
        assert(a + b =~= a);
    } else {
        lemma_chars_concat(v, a, b.drop_last());
        assert((a + b).drop_last() =~= a + b.drop_last());
        assert((a + b).last() == b.last());
    }
}

/// How many code units the character at `i` of a word takes: two for a
/// surrogate pair, else one.
pub open spec fn word_width(text: Seq<u16>, i: int) -> int {
    if 0xD800 <= text[i] < 0xDC00 && i + 1 < text.len() && 0xDC00 <= text[i + 1] < 0xE000 {
        2
    } else {
        1
    }
}

/// The character at `i` of a word: a surrogate pair gives the character
/// that it encodes; the first half of a pair without its second half gives
/// a full stop where `dot` says so; anything else gives itself.
pub open spec fn word_char(text: Seq<u16>, i: int, dot: bool) -> int {
    if word_width(text, i) == 2 {
        0x10000 + (text[i] - 0xD800) * 1024 + (text[i + 1] - 0xDC00)
    } else if dot && 0xD800 <= text[i] < 0xDC00 {
        0x2E
    } else {
        text[i] as int
    }
}

/// The characters of a word of UTF-16 code units, from the place `i` on.
pub open spec fn word_chars(text: Seq<u16>, i: int, dot: bool) -> Seq<int>
    decreases text.len() - i,
{
    if i < 0 || i >= text.len() {
        Seq::empty()
    } else {
        seq![word_char(text, i, dot)] + word_chars(text, i + word_width(text, i), dot)
    }
}

/// The characters of a word of UTF-16 code units: see [`word_chars`].
pub fn decode_word(text: &[u16], dot: bool) -> (r: Vec<i32>)
    ensures
        r@.map_values(|c: i32| c as int) == word_chars(text@, 0, dot),
        forall|i: int| 0 <= i < r@.len() ==> 0 <= #[trigger] r@[i] <= BIGGEST_USV,
{
    let mut out: Vec<i32> = Vec::new();
    let mut i: usize = 0;
    assert(out@.map_values(|c: i32| c as int) + word_chars(text@, 0, dot) =~= word_chars(
        text@,
        0,
        dot,
    ));
    while i < text.len()
        invariant
            i <= text@.len(),
            out@.map_values(|c: i32| c as int) + word_chars(text@, i as int, dot) == word_chars(
                text@,
                0,
                dot,
            ),
            forall|i: int| 0 <= i < out@.len() ==> 0 <= #[trigger] out@[i] <= BIGGEST_USV,
        decreases text@.len() - i,
    {
        let u: u16 = text[i];
        let c: i32;
        let width: usize;
        if 0xD800 <= u && u < 0xDC00 && i + 1 < text.len() && 0xDC00 <= text[i + 1] && text[i + 1]
            < 0xE000 {
            c = 0x10000 + (u as i32 - 0xD800) * 1024 + (text[i + 1] as i32 - 0xDC00);
            width = 2;
        } else if dot && 0xD800 <= u && u < 0xDC00 {
            c = 0x2E;
            width = 1;
        } else {
            c = u as i32;
            width = 1;
        }
        let ghost before = out@.map_values(|c: i32| c as int);
        let ghost rest = word_chars(text@, i + width, dot);
        out.push(c);
        assert(out@.map_values(|c: i32| c as int) =~= before.push(c as int));
        assert(before.push(c as int) + rest =~= before + (seq![c as int] + rest));
        i += width;
    }
    assert(out@.map_values(|c: i32| c as int) + Seq::<int>::empty() =~= out@.map_values(
        |c: i32| c as int,
    ));
    out
}

/// The three question marks that stand for a string that does not exist.
pub const UNKNOWN_STRING: [u8; 3] = [0x3F, 0x3F, 0x3F];

/// The sizes of a font in mathematics.
pub const TEXT_SIZE: i32 = 0;

pub const SCRIPT_SIZE: i32 = 0x100;

pub const SCRIPT_SCRIPT_SIZE: i32 = 0x200;

pub const NAME_TEXTFONT: [u8; 8] = [0x74, 0x65, 0x78, 0x74, 0x66, 0x6F, 0x6E, 0x74];

pub const NAME_SCRIPTFONT: [u8; 10] = [0x73, 0x63, 0x72, 0x69, 0x70, 0x74, 0x66, 0x6F, 0x6E, 0x74];

pub const NAME_SCRIPTSCRIPTFONT: [u8; 16] = [
    0x73, 0x63, 0x72, 0x69, 0x70, 0x74, 0x73, 0x63, 0x72, 0x69, 0x70, 0x74, 0x66, 0x6F, 0x6E, 0x74,
];

impl PrinterView {
    /// The state after the string with the number `s` was printed, where
    /// `str_ptr` is the number of strings and `text` is the string itself
    /// if it is not a single character. A number that is no string's gives
    /// three question marks; a number up to 0xFFFF is the character with
    /// that number; any other gives the characters of the string.
    pub open spec fn string(self, s: int, str_ptr: int, text: Seq<u16>) -> PrinterView {
        if s >= str_ptr || s < 0 {
            self.chars(byte_chars(UNKNOWN_STRING@))
        } else if s <= BIGGEST_CHAR {
            self.chr(s)
        } else {
            self.chars(word_chars(text, 0, false))
        }
    }

    /// Whether something stands on the line of the terminal or of the log
    /// that printing goes to.
    pub open spec fn mid_line(self) -> bool {
        (self.term_offset > 0 && self.selector.code_spec() % 2 != 0) || (self.file_offset > 0
            && self.selector.code_spec() >= 18)
    }

    /// The state at the start of a line: the line is ended if something
    /// stands on it.
    pub open spec fn fresh_line(self) -> PrinterView {
        if self.mid_line() {
            self.ln()
        } else {
            self
        }
    }

    /// The state after the escape character was printed, if there is one.
    pub open spec fn escape(self) -> PrinterView {
        if 0 <= self.escape_char <= BIGGEST_USV {
            self.chr(self.escape_char)
        } else {
            self
        }
    }
}

/// The name of the family of fonts of a size.
pub open spec fn size_name(s: int) -> Seq<u8> {
    if s == TEXT_SIZE {
        NAME_TEXTFONT@
    } else if s == SCRIPT_SIZE {
        NAME_SCRIPTFONT@
    } else {
        NAME_SCRIPTSCRIPTFONT@
    }
}

impl Printer {
    /// Prints the string with the number `s`: see [`PrinterView::string`].
    pub fn print(&mut self, s: i32, str_ptr: i32, text: &[u16])
        requires
            old(self)@.wf(),
        ensures
            final(self)@ == old(self)@.string(s as int, str_ptr as int, text@),
            final(self)@.wf(),
    {
        if s >= str_ptr || s < 0 {
            self.print_str(vstd::array::array_as_slice(&UNKNOWN_STRING));
        } else if s <= BIGGEST_CHAR {
            self.print_char(s);
        } else {
            let chars = decode_word(text, false);
            self.print_chars(chars.as_slice());
        }
    }

    /// Prints a word of UTF-16 code units, with a full stop for the first
    /// half of a surrogate pair that lacks its second half.
    pub fn print_native_word(&mut self, text: &[u16])
        requires
            old(self)@.wf(),
        ensures
            final(self)@ == old(self)@.chars(word_chars(text@, 0, true)),
            final(self)@.wf(),
    {
        let chars = decode_word(text, true);
        self.print_chars(chars.as_slice());
    }

    fn fresh_line(&mut self)
        requires
            old(self)@.wf(),
        ensures
            final(self)@ == old(self)@.fresh_line(),
            final(self)@.wf(),
    {
        let code: u8 = self.selector.code();
        if (self.term_offset > 0 && code % 2 != 0) || (self.file_offset > 0 && code >= 18) {
            self.print_ln();
        }
    }

    /// Prints a string at the start of a line.
    pub fn print_nl(&mut self, s: i32, str_ptr: i32, text: &[u16])
        requires
            old(self)@.wf(),
        ensures
            final(self)@ == old(self)@.fresh_line().string(s as int, str_ptr as int, text@),
            final(self)@.wf(),
    {
        self.fresh_line();
        self.print(s, str_ptr, text);
    }

    /// Prints the bytes of `s` at the start of a line.
    pub fn print_nl_cstr(&mut self, s: &[u8])
        requires
            old(self)@.wf(),
        ensures
            final(self)@ == old(self)@.fresh_line().chars(byte_chars(s@)),
            final(self)@.wf(),
    {
        self.fresh_line();
        self.print_str(s);
    }

    fn escape(&mut self)
        requires
            old(self)@.wf(),
        ensures
            final(self)@ == old(self)@.escape(),
            final(self)@.wf(),
    {
        let c: i32 = self.escape_char;
        if c >= 0 && c <= BIGGEST_USV {
            self.print_char(c);
        }
    }

    /// Prints a string after the escape character.
    pub fn print_esc(&mut self, s: i32, str_ptr: i32, text: &[u16])
        requires
            old(self)@.wf(),
        ensures
            final(self)@ == old(self)@.escape().string(s as int, str_ptr as int, text@),
            final(self)@.wf(),
    {
        self.escape();
        self.print(s, str_ptr, text);
    }

    /// Prints the bytes of `s` after the escape character.
    pub fn print_esc_cstr(&mut self, s: &[u8])
        requires
            old(self)@.wf(),
        ensures
            final(self)@ == old(self)@.escape().chars(byte_chars(s@)),
            final(self)@.wf(),
    {
        self.escape();
        self.print_str(s);
    }

    /// Prints the name of the family of fonts of a size: `textfont`,
    /// `scriptfont` or `scriptscriptfont`, after the escape character.
    pub fn print_size(&mut self, s: i32)
        requires
            old(self)@.wf(),
        ensures
            final(self)@ == old(self)@.escape().chars(byte_chars(size_name(s as int))),
            final(self)@.wf(),
    {
        if s == TEXT_SIZE {
            self.print_esc_cstr(vstd::array::array_as_slice(&NAME_TEXTFONT));
        } else if s == SCRIPT_SIZE {
            self.print_esc_cstr(vstd::array::array_as_slice(&NAME_SCRIPTFONT));
        } else {
            self.print_esc_cstr(vstd::array::array_as_slice(&NAME_SCRIPTSCRIPTFONT));
        }
    }

    /// Prints the name of a command that writes, and the stream that it
    /// writes to: its number where that is less than 16, `*` for 16 and
    /// `-` for any other.
    pub fn print_write_whatsit(&mut self, name: &[u8], stream: i32)
        requires
            old(self)@.wf(),
        ensures
            final(self)@ == old(self)@.escape().chars(byte_chars(name@)).chars(
                if stream < 16 {
                    int_text(stream as int)
                } else if stream == 16 {
                    seq![0x2Aint]
                } else {
                    seq![0x2Dint]
                },
            ),
            final(self)@.wf(),
    {
        self.print_esc_cstr(name);
        let ghost mid = self@;
        proof {
            lemma_chars_push(mid, Seq::empty(), 0x2A);
            lemma_chars_push(mid, Seq::empty(), 0x2D);
            assert(Seq::<int>::empty().push(0x2Aint) =~= seq![0x2Aint]);
            assert(Seq::<int>::empty().push(0x2Dint) =~= seq![0x2Dint]);
        }
        if stream < 16 {
            self.print_int(stream);
        } else if stream == 16 {
            self.print_char(0x2A);
        } else {
            self.print_char(0x2D);
        }
    }
}

/// The sum of the two quotation marks: taking one from it gives the other.
pub const BOTH_QUOTES: u16 = 73;

/// Whether a character is a quotation mark, single or double.
pub open spec fn is_quote(c: u16) -> bool {
    c == 0x22 || c == 0x27
}

/// The first quotation mark of a name from the place `i` on, or 0 where
/// it has none.
pub open spec fn first_quote(name: Seq<u16>, i: int) -> u16
    decreases name.len() - i,
{
    if i < 0 || i >= name.len() {
        0
    } else if is_quote(name[i]) {
        name[i]
    } else {
        first_quote(name, i + 1)
    }
}

/// Whether a name holds a space from the place `i` on.
pub open spec fn has_space(name: Seq<u16>, i: int) -> bool
    decreases name.len() - i,
{
    if i < 0 || i >= name.len() {
        false
    } else {
        name[i] == 0x20 || has_space(name, i + 1)
    }
}

/// The quotation mark that a file name is put in: none, written 0, for a
/// name without spaces and quotation marks; else the one that is not the
/// first one in the name, and the double one where the name has none.
pub open spec fn opening_quote(name: Seq<u16>) -> u16 {
    if first_quote(name, 0) != 0 {
        (BOTH_QUOTES - first_quote(name, 0)) as u16
    } else if has_space(name, 0) {
        0x22
    } else {
        0
    }
}

/// What is printed for a name from the place `i` on, inside the quotation
/// mark `q`: where the name holds that mark, the quotation is closed and
/// opened again with the other mark; at the end it is closed.
pub open spec fn quoted_from(name: Seq<u16>, i: int, q: u16) -> Seq<int>
    decreases name.len() - i,
{
    if i < 0 || i >= name.len() {
        if q != 0 {
            seq![q as int]
        } else {
            Seq::empty()
        }
    } else if name[i] == q && q <= BOTH_QUOTES {
        seq![q as int, BOTH_QUOTES - q, name[i] as int] + quoted_from(
            name,
            i + 1,
            (BOTH_QUOTES - q) as u16,
        )
    } else {
        seq![name[i] as int] + quoted_from(name, i + 1, q)
    }
}

/// What is printed for a file name: the name, in quotation marks if need
/// be.
pub open spec fn file_name_text(name: Seq<u16>) -> Seq<int> {
    let q = opening_quote(name);
    if q != 0 {
        seq![q as int] + quoted_from(name, 0, q)
    } else {
        quoted_from(name, 0, q)
    }
}

/// What is printed for a file name: see [`file_name_text`].
pub fn quote_file_name(name: &[u16]) -> (r: Vec<i32>)
    ensures
        r@.map_values(|c: i32| c as int) == file_name_text(name@),
        forall|i: int| 0 <= i < r@.len() ==> 0 <= #[trigger] r@[i] <= BIGGEST_USV,
{
    let mut must_quote = false;
    let mut quote_char: u16 = 0;
    let mut j: usize = 0;
    while (!must_quote || quote_char == 0) && j < name.len()
        invariant
            j <= name@.len(),
            quote_char == 0 ==> first_quote(name@, 0) == first_quote(name@, j as int),
            quote_char == 0 ==> (has_space(name@, 0) == (must_quote || has_space(name@, j as int))),
            quote_char != 0 ==> must_quote && is_quote(first_quote(name@, 0)) && quote_char
                == BOTH_QUOTES - first_quote(name@, 0),
        decreases name@.len() - j,
    {
        if name[j] == 0x20 {
            must_quote = true;
        } else if name[j] == 0x22 || name[j] == 0x27 {
            must_quote = true;
            quote_char = BOTH_QUOTES - name[j];
        }
        j += 1;
    }
    let mut out: Vec<i32> = Vec::new();
    if must_quote {
        if quote_char == 0 {
            quote_char = 0x22;
        }
        out.push(quote_char as i32);
    }
    assert(quote_char == opening_quote(name@));
    let ghost head = out@.map_values(|c: i32| c as int);
    assert(head + quoted_from(name@, 0, quote_char) =~= file_name_text(name@));
    let mut i: usize = 0;
    while i < name.len()
        invariant
            i <= name@.len(),
            quote_char == 0 || is_quote(quote_char) || quote_char == BOTH_QUOTES,
            out@.map_values(|c: i32| c as int) + quoted_from(name@, i as int, quote_char)
                == file_name_text(name@),
            forall|i: int| 0 <= i < out@.len() ==> 0 <= #[trigger] out@[i] <= BIGGEST_USV,
        decreases name@.len() - i,
    {
        let c: u16 = name[i];
        let ghost before = out@.map_values(|c: i32| c as int);
        if c == quote_char {
            let q: u16 = quote_char;
            out.push(q as i32);
            quote_char = BOTH_QUOTES - quote_char;
            out.push(quote_char as i32);
            out.push(c as i32);
            assert(out@.map_values(|c: i32| c as int) =~= before + seq![
                q as int,
                BOTH_QUOTES - q,
                c as int,
            ]);
            assert((before + seq![q as int, BOTH_QUOTES - q, c as int]) + quoted_from(
                name@,
                i + 1,
                quote_char,
            ) =~= before + (seq![q as int, BOTH_QUOTES - q, c as int] + quoted_from(
                name@,
                i + 1,
                quote_char,
            )));
        } else {
            out.push(c as i32);
            assert(out@.map_values(|c: i32| c as int) =~= before + seq![c as int]);
            assert((before + seq![c as int]) + quoted_from(name@, i + 1, quote_char) =~= before
                + (seq![c as int] + quoted_from(name@, i + 1, quote_char)));
        }
        i += 1;
    }
    let ghost before = out@.map_values(|c: i32| c as int);
    if quote_char != 0 {
        out.push(quote_char as i32);
        assert(out@.map_values(|c: i32| c as int) =~= before + seq![quote_char as int]);
    } else {
        assert(before + Seq::<int>::empty() =~= before);
    }
    out
}

/// The three parts of a file name, one after the other.
pub fn join_file_name(area: &[u16], name: &[u16], ext: &[u16]) -> (r: Vec<u16>)
    ensures
        r@ == area@ + name@ + ext@,
{
    let mut out: Vec<u16> = vstd::slice::slice_to_vec(area);
    let mut i: usize = 0;
    while i < name.len()
        invariant
            i <= name@.len(),
            out@ == area@ + name@.take(i as int),
        decreases name@.len() - i,
    {
        out.push(name[i]);
        i += 1;
        assert(out@ =~= area@ + name@.take(i as int));
    }
    assert(name@.take(i as int) =~= name@);
    let mut i: usize = 0;
    while i < ext.len()
        invariant
            i <= ext@.len(),
            out@ == area@ + name@ + ext@.take(i as int),
        decreases ext@.len() - i,
    {
        out.push(ext[i]);
        i += 1;
        assert(out@ =~= area@ + name@ + ext@.take(i as int));
    }
    assert(ext@.take(i as int) =~= ext@);
    out
}

impl Printer {
    /// Prints a file name of three parts, its area, its name and its
    /// extension, in quotation marks if need be: see [`file_name_text`].
    pub fn print_file_name(&mut self, name: &[u16], area: &[u16], ext: &[u16])
        requires
            old(self)@.wf(),
        ensures
            final(self)@ == old(self)@.chars(file_name_text(area@ + name@ + ext@)),
            final(self)@.wf(),
    {
        let whole = join_file_name(area, name, ext);
        let text = quote_file_name(whole.as_slice());
        self.print_chars(text.as_slice());
    }
}

/// Where the names of control sequences lie in the table of equivalents.
pub const ACTIVE_BASE: usize = 0x1;

pub const SINGLE_BASE: usize = 0x110001;

pub const NULL_CS: usize = 0x220001;

pub const HASH_BASE: usize = 0x220002;

pub const PRIM_EQTB_BASE: usize = 0x226603;

pub const FROZEN_NULL_FONT: usize = 0x223aa6;

pub const UNDEFINED_CONTROL_SEQUENCE: usize = 0x226603;

pub const EQTB_SIZE: usize = 0x886f92;

/// What is printed for a control sequence.
#[derive(Copy, Clone, Debug, PartialEq, Eq, Structural)]
pub enum CsText {
    /// An active character: the character itself.
    Active(usize),
    /// A control sequence of one character: the escape character and the
    /// character, and a space after a letter.
    Single(usize),
    /// The empty control sequence: `\csname\endcsname`.
    NullCs,
    /// A place that holds no control sequence: `\IMPOSSIBLE.`.
    Impossible,
    /// A primitive: the escape character and its name from the table of
    /// primitives at this place.
    Primitive(usize),
    /// A control sequence with a name: the escape character and its name
    /// from the hash table at this place; `\NONEXISTENT.` where the name
    /// is no string.
    Named(usize),
}

/// What is printed for the control sequence at the place `p`, where
/// `eqtb_top` is the last place of the table.
pub open spec fn cs_text(p: int, eqtb_top: int) -> CsText {
    if p < HASH_BASE {
        if p >= SINGLE_BASE {
            if p == NULL_CS {
                CsText::NullCs
            } else {
                CsText::Single((p - SINGLE_BASE) as usize)
            }
        } else if p < ACTIVE_BASE {
            CsText::Impossible
        } else {
            CsText::Active((p - 1) as usize)
        }
    } else if (p >= UNDEFINED_CONTROL_SEQUENCE && p <= EQTB_SIZE) || p > eqtb_top {
        CsText::Impossible
    } else if p >= PRIM_EQTB_BASE && p < FROZEN_NULL_FONT {
        CsText::Primitive((p - PRIM_EQTB_BASE) as usize)
    } else {
        CsText::Named(p as usize)
    }
}

/// What is printed for the control sequence at the place `p`: see
/// [`cs_text`].
pub fn print_cs(p: usize, eqtb_top: usize) -> (r: CsText)
    ensures
        r == cs_text(p as int, eqtb_top as int),
{
    if p < HASH_BASE {
        if p >= SINGLE_BASE {
            if p == NULL_CS {
                CsText::NullCs
            } else {
                CsText::Single(p - SINGLE_BASE)
            }
        } else if p < ACTIVE_BASE {
            CsText::Impossible
        } else {
            CsText::Active(p - 1)
        }
    } else if (p >= UNDEFINED_CONTROL_SEQUENCE && p <= EQTB_SIZE) || p > eqtb_top {
        CsText::Impossible
    } else if p >= PRIM_EQTB_BASE && p < FROZEN_NULL_FONT {
        CsText::Primitive(p - PRIM_EQTB_BASE)
    } else {
        CsText::Named(p)
    }
}

/// What is printed for the control sequence at the place `p` where the
/// place is known to hold one, and no space is wanted after it.
pub open spec fn sprint_cs_text(p: int) -> CsText {
    if p < HASH_BASE {
        if p < SINGLE_BASE {
            CsText::Active((p - 1) as usize)
        } else if p < NULL_CS {
            CsText::Single((p - SINGLE_BASE) as usize)
        } else {
            CsText::NullCs
        }
    } else if p >= PRIM_EQTB_BASE && p < FROZEN_NULL_FONT {
        CsText::Primitive((p - PRIM_EQTB_BASE) as usize)
    } else {
        CsText::Named(p as usize)
    }
}

/// What is printed for the control sequence at the place `p` where the
/// place is known to hold one: see [`sprint_cs_text`].
pub fn sprint_cs(p: usize) -> (r: CsText)
    requires
        p >= ACTIVE_BASE,
    ensures
        r == sprint_cs_text(p as int),
{
    if p < HASH_BASE {
        if p < SINGLE_BASE {
            CsText::Active(p - 1)
        } else if p < NULL_CS {
            CsText::Single(p - SINGLE_BASE)
        } else {
            CsText::NullCs
        }
    } else if p >= PRIM_EQTB_BASE && p < FROZEN_NULL_FONT {
        CsText::Primitive(p - PRIM_EQTB_BASE)
    } else {
        CsText::Named(p)
    }
}

/// The innermost level at or below `level` at which a source file is
/// open: the level itself where the stack names a file there, else the
/// next one down that has one, and 0 where none has.
pub open spec fn source_level(names: Seq<i32>, level: int) -> int
    decreases level,
{
    if level <= 0 || level >= names.len() {
        0
    } else if names[level] != 0 {
        level
    } else {
        source_level(names, level - 1)
    }
}

/// The file and the line that a message is about: the number of the
/// string that names the file, and the number of the line.
#[derive(Copy, Clone, Debug, PartialEq, Eq, Structural)]
pub struct SourcePlace {
    pub file: i32,
    pub line: i32,
}

/// The file and the line that a message is about, if a source file is
/// open: the innermost open file, and the line that is being read in it,
/// which for a file that is not the innermost input is the line at which
/// the next input was opened. `names` and `lines` are the stacks of the
/// names and of the lines of the inputs, `in_open` is the number of open
/// inputs and `line` the line of the innermost one.
pub fn diagnostic_print_file_line(names: &[i32], lines: &[i32], in_open: usize, line: i32) -> (r:
    Option<SourcePlace>)
    requires
        in_open < names@.len(),
        in_open < lines@.len(),
    ensures
        r.is_some() == (source_level(names@, in_open as int) != 0),
        r.is_some() ==> r.unwrap().file == names@[source_level(names@, in_open as int)],
        r.is_some() ==> r.unwrap().line == (if source_level(names@, in_open as int) == in_open {
            line
        } else {
            lines@[source_level(names@, in_open as int) + 1]
        }),
{
    let mut level: usize = in_open;
    while level > 0 && names[level] == 0
        invariant
            level <= in_open < names@.len(),
            source_level(names@, level as int) == source_level(names@, in_open as int),
        decreases level,
    {
        level -= 1;
    }
    if level == 0 {
        None
    } else {
        let source_line: i32 = if level != in_open { lines[level + 1] } else { line };
        Some(SourcePlace { file: names[level], line: source_line })
    }
}

} // verus!
