//! The auxiliary files of a bibliography run: the stack of the files that
//! are open, the commands that their lines spell, and the checks made when
//! the last of them has been read.

use vstd::prelude::*;
use crate::bytes::ByteClass;
use crate::bytes::at;
use crate::bytes::byte_at;
use crate::bytes::copy_range;
use crate::bytes::run_end;
use crate::bytes::scan;
use crate::bytes::starts_with;

verus! {

/// How deep auxiliary files may be nested.
pub const AUX_STACK_SIZE: usize = 20;

/// An open input file: the number of the string that names it, the handle
/// of the input, and the number of the line that was read last.
#[derive(Copy, Clone, Debug, PartialEq, Eq, Structural)]
pub struct File {
    pub name: usize,
    pub file: usize,
    pub line: u32,
}

/// The stack of the auxiliary files that are open, the innermost last.
pub struct AuxData {
    pub aux: Vec<File>,
}

impl View for AuxData {
    type V = Seq<File>;

    open spec fn view(&self) -> Seq<File> {
        self.aux@
    }
}

impl AuxData {
    /// The empty stack.
    pub fn new() -> (r: AuxData)
        ensures
            r@.len() == 0,
    {
        AuxData { aux: Vec::new() }
    }

    /// Puts a file on the stack.
    pub fn push_file(&mut self, file: File)
        ensures
            final(self)@ == old(self)@.push(file),
    {
        self.aux.push(file);
    }

    /// Takes the innermost file off the stack, and says whether it was the
    /// last.
    pub fn pop_file(&mut self) -> (r: (File, bool))
        requires
            old(self)@.len() > 0,
        ensures
            r.0 == old(self)@.last(),
            final(self)@ == old(self)@.drop_last(),
            r.1 == (old(self)@.len() == 1),
    {
        let out = self.aux.pop().unwrap();
        (out, self.aux.len() == 0)
    }

    /// The innermost file.
    pub fn top_file(&self) -> (r: &File)
        requires
            self@.len() > 0,
        ensures
            *r == self@.last(),
    {
        &self.aux[self.aux.len() - 1]
    }

    /// The innermost file, for writing: what is written to it is written
    /// to the stack.
    pub fn top_file_mut(&mut self) -> (r: &mut File)
        requires
            old(self)@.len() > 0,
        ensures
            *r == old(self)@.last(),
            final(self)@ == old(self)@.update(old(self)@.len() - 1, *final(r)),
    {
        let n: usize = self.aux.len();
        &mut self.aux[n - 1]
    }

    /// How many files are open.
    pub fn ptr(&self) -> (r: usize)
        ensures
            r == self@.len(),
    {
        self.aux.len()
    }
}

/// Closes the innermost auxiliary file: takes it off the stack and hands
/// it back to be closed, with its name if it was the last one.
pub fn pop_the_aux_stack(aux: &mut AuxData) -> (r: (File, Option<usize>))
    requires
        old(aux)@.len() > 0,
    ensures
        r.0 == old(aux)@.last(),
        final(aux)@ == old(aux)@.drop_last(),
        r.1 == (if old(aux)@.len() == 1 {
            Some(old(aux)@.last().name)
        } else {
            None
        }),
{
    let (file, last) = aux.pop_file();
    if last {
        (file, Some(file.name))
    } else {
        (file, None)
    }
}

/// The commands of an auxiliary file.
#[derive(Copy, Clone, Debug, PartialEq, Eq, Structural)]
pub enum AuxCommand {
    Data,
    Style,
    Citation,
    Input,
}

/// What stands in the braces of a command: its arguments, or what is
/// wrong with them and where.
#[derive(Debug, PartialEq)]
pub enum CmdArgs<T> {
    Args(T),
    NoRightBrace(usize),
    WhitespaceInArg(usize),
    StuffAfterRightBrace(usize),
}

/// A command with what stands in its braces.
#[derive(Debug, PartialEq)]
pub enum AuxKind {
    Data(CmdArgs<Vec<Vec<u8>>>),
    Style(CmdArgs<Vec<u8>>),
    Citation(CmdArgs<Vec<Vec<u8>>>),
    Input(CmdArgs<Vec<u8>>),
}

/// A command of an auxiliary file, and the place where its name ends.
#[derive(Debug, PartialEq)]
pub struct AuxCmd {
    pub offset: usize,
    pub kind: AuxKind,
}

pub const CMD_BIBDATA: [u8; 8] = [0x5C, 0x62, 0x69, 0x62, 0x64, 0x61, 0x74, 0x61];

pub const CMD_BIBSTYLE: [u8; 9] = [0x5C, 0x62, 0x69, 0x62, 0x73, 0x74, 0x79, 0x6C, 0x65];

pub const CMD_CITATION: [u8; 9] = [0x5C, 0x63, 0x69, 0x74, 0x61, 0x74, 0x69, 0x6F, 0x6E];

pub const CMD_INPUT: [u8; 7] = [0x5C, 0x40, 0x69, 0x6E, 0x70, 0x75, 0x74];

/// The command that a line starts with, and the length of its name: the
/// name must be followed by `{`.
pub open spec fn command_of(line: Seq<u8>) -> Option<(AuxCommand, int)> {
    if CMD_BIBDATA@.is_prefix_of(line) && at(line, 8) == 0x7B {
        Some((AuxCommand::Data, 8))
    } else if CMD_BIBSTYLE@.is_prefix_of(line) && at(line, 9) == 0x7B {
        Some((AuxCommand::Style, 9))
    } else if CMD_CITATION@.is_prefix_of(line) && at(line, 9) == 0x7B {
        Some((AuxCommand::Citation, 9))
    } else if CMD_INPUT@.is_prefix_of(line) && at(line, 7) == 0x7B {
        Some((AuxCommand::Input, 7))
    } else {
        None
    }
}

/// What is found in the braces that open before the place `start`.
pub enum ArgStatus {
    /// The braces close at the end of the line and hold no white space.
    Fine,
    /// No `}` follows; the place is the end of the line.
    NoRightBrace(int),
    /// The braces hold white space; the place is where they open.
    Whitespace(int),
    /// Something follows the `}`; the place is the one after the `}`.
    StuffAfter(int),
}

/// Where the braces that open before `start` close: at the first `}`, or
/// at the end of a line that has none.
pub open spec fn brace_close(line: Seq<u8>, start: int) -> int {
    run_end(line, start, ByteClass::NotRightBrace)
}

/// What is found in the braces that open before `start`. A missing `}` is
/// found first, then what follows the `}`, then white space in the braces.
pub open spec fn arg_status(line: Seq<u8>, start: int) -> ArgStatus {
    let close = brace_close(line, start);
    if close >= line.len() {
        ArgStatus::NoRightBrace(line.len() as int)
    } else if close + 1 < line.len() {
        ArgStatus::StuffAfter(close + 1)
    } else if run_end(line, start, ByteClass::NotWhitespace) < close {
        ArgStatus::Whitespace(start)
    } else {
        ArgStatus::Fine
    }
}

/// The pieces of `s` between its commas, from the place `i` on.
pub open spec fn pieces_from(s: Seq<u8>, i: int) -> Seq<Seq<u8>>
    decreases s.len() - i,
{
    let c = run_end(s, i, ByteClass::NotComma);
    if i < 0 || c < i || c >= s.len() {
        seq![s.subrange(i, s.len() as int)]
    } else {
        seq![s.subrange(i, c)] + pieces_from(s, c + 1)
    }
}

/// The byte strings of a list of arguments.
pub open spec fn arg_views(v: Seq<Vec<u8>>) -> Seq<Seq<u8>> {
    v.map_values(|a: Vec<u8>| a@)
}

/// Whether what was read of a single argument is what the line holds.
pub open spec fn single_matches(a: CmdArgs<Vec<u8>>, line: Seq<u8>, start: int) -> bool {
    match a {
        CmdArgs::Args(v) => arg_status(line, start) == ArgStatus::Fine && v@ == line.subrange(
            start,
            brace_close(line, start),
        ),
        CmdArgs::NoRightBrace(n) => arg_status(line, start) == ArgStatus::NoRightBrace(n as int),
        CmdArgs::WhitespaceInArg(n) => arg_status(line, start) == ArgStatus::Whitespace(n as int),
        CmdArgs::StuffAfterRightBrace(n) => arg_status(line, start) == ArgStatus::StuffAfter(
            n as int,
        ),
    }
}

/// Whether what was read of a list of arguments is what the line holds:
/// the arguments are the pieces between the commas.
pub open spec fn list_matches(a: CmdArgs<Vec<Vec<u8>>>, line: Seq<u8>, start: int) -> bool {
    match a {
        CmdArgs::Args(v) => arg_status(line, start) == ArgStatus::Fine && arg_views(v@)
            == pieces_from(line.subrange(start, brace_close(line, start)), 0),
        CmdArgs::NoRightBrace(n) => arg_status(line, start) == ArgStatus::NoRightBrace(n as int),
        CmdArgs::WhitespaceInArg(n) => arg_status(line, start) == ArgStatus::Whitespace(n as int),
        CmdArgs::StuffAfterRightBrace(n) => arg_status(line, start) == ArgStatus::StuffAfter(
            n as int,
        ),
    }
}

/// Whether a command that was read is the one that the line spells.
pub open spec fn command_matches(cmd: AuxCmd, line: Seq<u8>) -> bool {
    let (c, n) = command_of(line).unwrap();
    &&& command_of(line).is_some()
    &&& cmd.offset == n
    &&& match cmd.kind {
        AuxKind::Data(a) => c == AuxCommand::Data && list_matches(a, line, n + 1),
        AuxKind::Style(a) => c == AuxCommand::Style && single_matches(a, line, n + 1),
        AuxKind::Citation(a) => c == AuxCommand::Citation && list_matches(a, line, n + 1),
        AuxKind::Input(a) => c == AuxCommand::Input && single_matches(a, line, n + 1),
    }
}

/// The places of the braces' contents, or what is wrong with them.
fn check_braces(line: &[u8], start: usize) -> (r: Result<usize, (u8, usize)>)
    requires
        start <= line@.len(),
    ensures
        match r {
            Ok(close) => arg_status(line@, start as int) == ArgStatus::Fine && close
                == brace_close(line@, start as int) && start <= close < line@.len(),
            Err((0, n)) => arg_status(line@, start as int) == ArgStatus::NoRightBrace(n as int),
            Err((1, n)) => arg_status(line@, start as int) == ArgStatus::StuffAfter(n as int),
            Err((_, n)) => arg_status(line@, start as int) == ArgStatus::Whitespace(n as int),
        },
{
    let len: usize = line.len();
    let close: usize = scan(line, start, ByteClass::NotRightBrace);
    if close >= len {
        Err((0, len))
    } else if close + 1 < len {
        Err((1, close + 1))
    } else if scan(line, start, ByteClass::NotWhitespace) < close {
        Err((2, start))
    } else {
        Ok(close)
    }
}

/// Reads a single argument in the braces that open before `start`.
fn read_single(line: &[u8], start: usize) -> (r: CmdArgs<Vec<u8>>)
    requires
        start <= line@.len(),
    ensures
        single_matches(r, line@, start as int),
{
    match check_braces(line, start) {
        Ok(close) => CmdArgs::Args(copy_range(line, start, close)),
        Err((0, n)) => CmdArgs::NoRightBrace(n),
        Err((1, n)) => CmdArgs::StuffAfterRightBrace(n),
        Err((_, n)) => CmdArgs::WhitespaceInArg(n),
    }
}

/// The pieces of `s` between its commas.
pub fn split_at_commas(s: &[u8]) -> (r: Vec<Vec<u8>>)
    ensures
        arg_views(r@) == pieces_from(s@, 0),
{
    let mut out: Vec<Vec<u8>> = Vec::new();
    let mut pos: usize = 0;
    let len: usize = s.len();
    assert(arg_views(out@) + pieces_from(s@, 0) =~= pieces_from(s@, 0));
    loop
        invariant_except_break
            arg_views(out@) + pieces_from(s@, pos as int) == pieces_from(s@, 0),
        invariant
            pos <= len,
            len == s@.len(),
        ensures
            arg_views(out@) == pieces_from(s@, 0),
        decreases len - pos,
    {
        let c: usize = scan(s, pos, ByteClass::NotComma);
        let ghost before = out@;
        if c >= len {
            out.push(copy_range(s, pos, len));
            assert(arg_views(out@) =~= arg_views(before) + seq![s@.subrange(pos as int, len as int)]);
            break ;
        }
        out.push(copy_range(s, pos, c));
        assert(arg_views(out@) =~= arg_views(before) + seq![s@.subrange(pos as int, c as int)]);
        assert(arg_views(out@) + pieces_from(s@, c + 1) =~= arg_views(before) + (seq![
            s@.subrange(pos as int, c as int),
        ] + pieces_from(s@, c + 1)));
        pos = c + 1;
    }
    out
}

/// Reads a list of arguments in the braces that open before `start`.
fn read_list(line: &[u8], start: usize) -> (r: CmdArgs<Vec<Vec<u8>>>)
    requires
        start <= line@.len(),
    ensures
        list_matches(r, line@, start as int),
{
    match check_braces(line, start) {
        Ok(close) => CmdArgs::Args(
            split_at_commas(vstd::slice::slice_subrange(line, start, close)),
        ),
        Err((0, n)) => CmdArgs::NoRightBrace(n),
        Err((1, n)) => CmdArgs::StuffAfterRightBrace(n),
        Err((_, n)) => CmdArgs::WhitespaceInArg(n),
    }
}

/// Reads the command that a line of an auxiliary file spells, if it
/// spells one: `\bibdata{..}`, `\bibstyle{..}`, `\citation{..}` or
/// `\@input{..}`, with what stands in its braces.
pub fn aux_parser(line: &[u8]) -> (r: Option<AuxCmd>)
    ensures
        r.is_some() == command_of(line@).is_some(),
        r.is_some() ==> command_matches(r.unwrap(), line@),
{
    let len: usize = line.len();
    if starts_with(line, &CMD_BIBDATA) && byte_at(line, 8) == 0x7B {
        Some(AuxCmd { offset: 8, kind: AuxKind::Data(read_list(line, 9)) })
    } else if starts_with(line, &CMD_BIBSTYLE) && byte_at(line, 9) == 0x7B {
        Some(AuxCmd { offset: 9, kind: AuxKind::Style(read_single(line, 10)) })
    } else if starts_with(line, &CMD_CITATION) && byte_at(line, 9) == 0x7B {
        Some(AuxCmd { offset: 9, kind: AuxKind::Citation(read_list(line, 10)) })
    } else if starts_with(line, &CMD_INPUT) && byte_at(line, 7) == 0x7B {
        Some(AuxCmd { offset: 7, kind: AuxKind::Input(read_single(line, 8)) })
    } else {
        None
    }
}

/// What can be missing when the last auxiliary file has been read.
#[derive(Copy, Clone, Debug, PartialEq, Eq, Structural)]
pub enum AuxEndProblem {
    /// No `\citation` command was found.
    NoCitationCommands,
    /// `\citation` commands were found, but they name no key.
    NoCiteKeys,
    /// No `\bibdata` command was found.
    NoBibdataCommand,
    /// A `\bibdata` command was found, but no database file was opened.
    NoDatabaseFiles,
    /// No `\bibstyle` command was found.
    NoBibstyleCommand,
    /// A `\bibstyle` command was found, but no style file was opened.
    NoStyleFile,
}

/// What was seen while the auxiliary files were read.
#[derive(Copy, Clone, Debug, PartialEq, Eq, Structural)]
pub struct AuxSeen {
    pub citation_seen: bool,
    pub num_cites: usize,
    pub all_entries: bool,
    pub bib_seen: bool,
    pub num_bibs: usize,
    pub bst_seen: bool,
    pub bst_open: bool,
}

/// The problem with the citations, if there is one.
pub open spec fn citation_problem(seen: AuxSeen) -> Option<AuxEndProblem> {
    if !seen.citation_seen {
        Some(AuxEndProblem::NoCitationCommands)
    } else if seen.num_cites == 0 && !seen.all_entries {
        Some(AuxEndProblem::NoCiteKeys)
    } else {
        None
    }
}

/// The problem with the databases, if there is one.
pub open spec fn database_problem(seen: AuxSeen) -> Option<AuxEndProblem> {
    if !seen.bib_seen {
        Some(AuxEndProblem::NoBibdataCommand)
    } else if seen.num_bibs == 0 {
        Some(AuxEndProblem::NoDatabaseFiles)
    } else {
        None
    }
}

/// The problem with the style, if there is one.
pub open spec fn style_problem(seen: AuxSeen) -> Option<AuxEndProblem> {
    if !seen.bst_seen {
        Some(AuxEndProblem::NoBibstyleCommand)
    } else if !seen.bst_open {
        Some(AuxEndProblem::NoStyleFile)
    } else {
        None
    }
}

/// The problems in the order in which they are reported: citations,
/// databases, style.
pub open spec fn aux_end_problems(seen: AuxSeen) -> Seq<AuxEndProblem> {
    let a = match citation_problem(seen) {
        Some(p) => seq![p],
        None => Seq::empty(),
    };
    let b = match database_problem(seen) {
        Some(p) => a.push(p),
        None => a,
    };
    match style_problem(seen) {
        Some(p) => b.push(p),
        None => b,
    }
}

/// Checks, when the last auxiliary file has been read, that citations,
/// databases and a style were found, and lists what was not.
pub fn last_check_for_aux_errors(seen: AuxSeen) -> (r: Vec<AuxEndProblem>)
    ensures
        r@ == aux_end_problems(seen),
{
    let mut out: Vec<AuxEndProblem> = Vec::new();
    if !seen.citation_seen {
        out.push(AuxEndProblem::NoCitationCommands);
    } else if seen.num_cites == 0 && !seen.all_entries {
        out.push(AuxEndProblem::NoCiteKeys);
    }
    if !seen.bib_seen {
        out.push(AuxEndProblem::NoBibdataCommand);
    } else if seen.num_bibs == 0 {
        out.push(AuxEndProblem::NoDatabaseFiles);
    }
    if !seen.bst_seen {
        out.push(AuxEndProblem::NoBibstyleCommand);
    } else if !seen.bst_open {
        out.push(AuxEndProblem::NoStyleFile);
    }
    assert(out@ =~= aux_end_problems(seen));
    out
}

} // verus!
