//! The locale-aware text-boundary service as the engine sees it: its
//! status codes, and a break iterator that hands on the boundaries that
//! the service reports, in increasing order and once through.

use vstd::prelude::*;

verus! {

/// The status that stands for success without a warning.
pub const U_ZERO_ERROR: i32 = 0;

/// The value that an iterator reports when it has no more boundaries.
pub const DONE: i32 = -1;

/// Whether a status stands for success: zero does, and so do the negative
/// codes, which are warnings.
pub open spec fn u_success(code: i32) -> bool {
    code <= U_ZERO_ERROR
}

/// Whether a status stands for success: see [`u_success`].
#[allow(non_snake_case)]
pub fn U_SUCCESS(code: i32) -> (r: bool)
    ensures
        r == u_success(code),
{
    code <= U_ZERO_ERROR
}

/// A status of the service that stands for a failure or a warning.
#[derive(Debug, PartialEq, Eq, Structural)]
pub struct IcuErr(pub i32);

impl IcuErr {
    /// The error with the given status code.
    pub fn from_raw(err: i32) -> (r: IcuErr)
        ensures
            r.0 == err,
    {
        IcuErr(err)
    }

    /// The error's status code.
    pub fn into_raw(self) -> (r: i32)
        ensures
            r == self.0,
    {
        self.0
    }
}

impl Default for IcuErr {
    /// The error with the status -1.
    fn default() -> (r: IcuErr)
        ensures
            r.0 == -1,
    {
        IcuErr(-1)
    }
}

/// The kinds of boundaries that the service finds.
#[derive(Copy, Clone, Debug, PartialEq, Eq, Structural)]
pub enum UBreakIteratorType {
    Character,
    Word,
    Line,
    Sentence,
    Title,
    Count,
}

/// The service's iterator over the boundaries of a text: what it was
/// opened for and the text that it stands on.
#[derive(Clone, Debug, PartialEq, Eq)]
pub struct UBreakIterator {
    pub kind: UBreakIteratorType,
    pub locale: Vec<u8>,
    pub text_len: usize,
}

/// The service's converter between an encoding and UTF-16, by the name of
/// the encoding.
#[derive(Clone, Debug, PartialEq, Eq)]
pub struct UConverter {
    pub name: Vec<u8>,
}

/// An iterator over the line-break opportunities of a text. It hands on
/// the boundaries that the service reports, and holds them to the rule
/// that they increase and lie within the text: a report that breaks the
/// rule ends the iteration, as the service's own end mark does.
#[derive(Clone, Debug, PartialEq, Eq)]
pub struct BreakIterator {
    pub raw: UBreakIterator,
    /// The boundary handed on last; -1 before the first.
    pub last: i32,
    /// Whether the end has been reached.
    pub finished: bool,
}

/// The mathematical content of a [`BreakIterator`].
pub struct BreakIteratorView {
    pub locale: Seq<u8>,
    pub text_len: nat,
    pub last: int,
    pub finished: bool,
}

impl View for BreakIterator {
    type V = BreakIteratorView;

    open spec fn view(&self) -> BreakIteratorView {
        BreakIteratorView {
            locale: self.raw.locale@,
            text_len: self.raw.text_len as nat,
            last: self.last as int,
            finished: self.finished,
        }
    }
}

impl BreakIteratorView {
    /// Whether a reported boundary is handed on: the iteration has not
    /// ended, and the boundary lies after the last one and within the text.
    pub open spec fn accepts(self, reported: int) -> bool {
        !self.finished && self.last < reported <= self.text_len
    }

    /// The iterator after a boundary was reported to it.
    pub open spec fn after(self, reported: int) -> BreakIteratorView {
        if self.accepts(reported) {
            BreakIteratorView { last: reported, ..self }
        } else {
            BreakIteratorView { finished: true, ..self }
        }
    }

    /// What the iterator hands on for a reported boundary.
    pub open spec fn hands_on(self, reported: int) -> int {
        if self.accepts(reported) {
            reported
        } else {
            DONE as int
        }
    }
}

impl BreakIterator {
    /// The invariant of an iterator: the last boundary lies within the
    /// text.
    pub open spec fn wf(&self) -> bool {
        -1 <= self.last <= self.raw.text_len
    }

    /// An iterator for the line breaks of a locale, given the status with
    /// which the service opened its own: an iterator on the empty text
    /// where the status stands for success, else the error.
    pub fn new(locale: &[u8], status: i32) -> (r: Result<BreakIterator, IcuErr>)
        ensures
            r.is_ok() == u_success(status),
            r.is_ok() ==> r.unwrap()@ == (BreakIteratorView {
                locale: locale@,
                text_len: 0,
                last: -1,
                finished: false,
            }),
            r.is_ok() ==> r.unwrap().wf() && r.unwrap().raw.kind == UBreakIteratorType::Line,
            r.is_err() ==> r.unwrap_err().0 == status,
    {
        if U_SUCCESS(status) {
            Ok(
                BreakIterator {
                    raw: UBreakIterator {
                        kind: UBreakIteratorType::Line,
                        locale: vstd::slice::slice_to_vec(locale),
                        text_len: 0,
                    },
                    last: -1,
                    finished: false,
                },
            )
        } else {
            Err(IcuErr::from_raw(status))
        }
    }

    /// Puts the iterator on a new text of `text_len` code units, given the
    /// status with which the service took the text. The iteration starts
    /// again where the status stands for success; else nothing changes.
    pub fn set_text(&mut self, text_len: usize, status: i32) -> (r: Result<(), IcuErr>)
        requires
            old(self).wf(),
        ensures
            final(self).wf(),
            r.is_ok() == u_success(status),
            r.is_ok() ==> final(self)@ == (BreakIteratorView {
                locale: old(self)@.locale,
                text_len: text_len as nat,
                last: -1,
                finished: false,
            }),
            r.is_ok() ==> final(self).raw.kind == old(self).raw.kind,
            r.is_err() ==> *final(self) == *old(self) && r.unwrap_err().0 == status,
    {
        if U_SUCCESS(status) {
            self.raw.text_len = text_len;
            self.last = -1;
            self.finished = false;
            Ok(())
        } else {
            Err(IcuErr::from_raw(status))
        }
    }

    /// Hands on the boundary that the service reported: the boundary where
    /// it lies after the last one and within the text, else the end mark,
    /// after which every call gives the end mark.
    pub fn next(&mut self, reported: i32) -> (r: i32)
        requires
            old(self).wf(),
        ensures
            final(self).wf(),
            final(self)@ == old(self)@.after(reported as int),
            final(self).raw == old(self).raw,
            r == old(self)@.hands_on(reported as int),
            r == DONE || (old(self)@.last < r <= old(self)@.text_len),
            old(self)@.finished ==> r == DONE,
    {
        if !self.finished && self.last < reported && reported >= 0 && reported as usize
            <= self.raw.text_len {
            self.last = reported;
            reported
        } else {
            self.finished = true;
            DONE
        }
    }
}

/// The boundaries handed on for a run of reports, in order.
pub open spec fn boundaries(it: BreakIteratorView, reports: Seq<int>) -> Seq<int>
    decreases reports.len(),
{
    if reports.len() == 0 {
        Seq::empty()
    } else {
        seq![it.hands_on(reports[0])] + boundaries(it.after(reports[0]), reports.drop_first())
    }
}

/// Whatever the service reports, the boundaries handed on increase up to
/// the first end mark, lie within the text, and are followed by end marks
/// only.
pub proof fn lemma_boundaries_increase(it: BreakIteratorView, reports: Seq<int>, i: int, j: int)
    requires
        0 <= i < j < reports.len(),
        -1 <= it.last <= it.text_len,
    ensures
        boundaries(it, reports).len() == reports.len(),
        boundaries(it, reports)[i] == DONE ==> boundaries(it, reports)[j] == DONE,
        boundaries(it, reports)[j] != DONE ==> it.last < boundaries(it, reports)[i] < boundaries(
            it,
            reports,
        )[j] <= it.text_len,
    decreases reports.len(),
{
    let rest = reports.drop_first();
    let next = it.after(reports[0]);
    lemma_boundaries_len(next, rest);
    lemma_boundaries_len(it, reports);
    let b = boundaries(it, reports);
    let br = boundaries(next, rest);
    assert(b[j] == br[j - 1]);
    if i == 0 {
        lemma_boundaries_after(next, rest, j - 1);
    } else {
        assert(b[i] == br[i - 1]);
        lemma_boundaries_increase(next, rest, i - 1, j - 1);
    }
}

proof fn lemma_boundaries_len(it: BreakIteratorView, reports: Seq<int>)
    ensures
        boundaries(it, reports).len() == reports.len(),
    decreases reports.len(),
{
    if reports.len() > 0 {
        lemma_boundaries_len(it.after(reports[0]), reports.drop_first());
    }
}

/// Every boundary handed on lies after the iterator's last one, and a
/// finished iterator hands on end marks only.
proof fn lemma_boundaries_after(it: BreakIteratorView, reports: Seq<int>, k: int)
    requires
        0 <= k < reports.len(),
    ensures
        boundaries(it, reports).len() == reports.len(),
        it.finished ==> boundaries(it, reports)[k] == DONE,
        boundaries(it, reports)[k] != DONE ==> it.last < boundaries(it, reports)[k] <= it.text_len,
    decreases reports.len(),
{
    lemma_boundaries_len(it, reports);
    let rest = reports.drop_first();
    let next = it.after(reports[0]);
    lemma_boundaries_len(next, rest);
    if k > 0 {
        assert(boundaries(it, reports)[k] == boundaries(next, rest)[k - 1]);
        lemma_boundaries_after(next, rest, k - 1);
    }
}

} // verus!
