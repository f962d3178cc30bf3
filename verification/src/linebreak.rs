//! Line breaking: one way of asking for the next break of a paragraph,
//! whether the breaks come from the locale's rules or from the Graphite
//! tables of the font.
//!
//! The services that find the breaks are not part of this crate. Starting
//! a paragraph is therefore a dialogue: each function says what is to be
//! done next, and takes what came of it.

use vstd::prelude::*;
use crate::bytes::bytes_equal;
use crate::icu::BreakIterator;
use crate::icu::BreakIteratorView;
use crate::icu::IcuErr;
use crate::icu::u_success;

verus! {

/// The locale that asks for the breaks of the font's Graphite tables.
pub const GRAPHITE_LOCALE: [u8; 1] = [0x47];

/// The locale that is opened where the one asked for cannot be.
pub const FALLBACK_LOCALE: [u8; 5] = [0x65, 0x6E, 0x5F, 0x75, 0x73];

/// Where the breaks of the paragraph come from.
#[derive(Clone, Debug, PartialEq, Eq)]
pub enum BreakIteratorState {
    /// Nowhere: no paragraph was started, or starting it failed.
    Unset,
    /// From the rules of a locale, through an iterator that was opened for
    /// the locale with the number `locale_id`.
    Locale { locale_id: i32, iterator: BreakIterator },
    /// From the Graphite tables of the font of the engine `engine`.
    Graphite { engine: usize },
}

/// The line breaker of a session: where its breaks come from, and how
/// many iterators it has asked to be opened.
#[derive(Clone, Debug, PartialEq, Eq)]
pub struct LineBreaker {
    pub state: BreakIteratorState,
    pub opens: usize,
}

/// What is to be done next to start a paragraph.
#[derive(Copy, Clone, Debug, PartialEq, Eq, Structural)]
pub enum StartStep {
    /// Ask the font's engine to break the text by its Graphite tables, and
    /// report to [`LineBreaker::graphite_started`].
    InitGraphite,
    /// Open an iterator for the locale asked for, and report to
    /// [`LineBreaker::locale_opened`].
    OpenLocale,
    /// Warn that the locale could not be opened, with this status; open an
    /// iterator for the fallback locale, and report to
    /// [`LineBreaker::fallback_opened`].
    OpenFallback { status: i32 },
    /// Hand the text to the iterator, and report to
    /// [`LineBreaker::text_set`].
    SetText,
    /// Nothing: the paragraph is started.
    Started,
}

/// One more, held at the largest count.
pub open spec fn counted(n: usize) -> usize {
    if n < usize::MAX {
        (n + 1) as usize
    } else {
        n
    }
}

impl LineBreaker {
    /// The invariant of a line breaker: that of its iterator.
    pub open spec fn wf(&self) -> bool {
        match self.state {
            BreakIteratorState::Locale { locale_id, iterator } => iterator.wf(),
            _ => true,
        }
    }

    /// Whether the breaks come from an iterator opened for `locale_id`.
    pub open spec fn has_locale(&self, locale_id: i32) -> bool {
        match self.state {
            BreakIteratorState::Locale { locale_id: id, iterator } => id == locale_id,
            _ => false,
        }
    }

    /// A line breaker that has started no paragraph.
    pub fn new() -> (r: LineBreaker)
        ensures
            r.state == BreakIteratorState::Unset,
            r.opens == 0,
            r.wf(),
    {
        LineBreaker { state: BreakIteratorState::Unset, opens: 0 }
    }

    fn count_open(&mut self)
        ensures
            final(self).opens == counted(old(self).opens),
            final(self).state == old(self).state,
    {
        if self.opens < usize::MAX {
            self.opens = self.opens + 1;
        }
    }

    /// Starts a paragraph in a font and a locale. For a font with Graphite
    /// tables and the locale `G` the font's engine is asked first; else
    /// the locale's rules are used: see [`LineBreaker::start_locale`].
    pub fn linebreak_start(&mut self, font_is_graphite: bool, locale: &[u8], locale_id: i32) -> (r:
        StartStep)
        requires
            old(self).wf(),
        ensures
            final(self).wf(),
            font_is_graphite && locale@ == GRAPHITE_LOCALE@ ==> r == StartStep::InitGraphite
                && *final(self) == *old(self),
            !(font_is_graphite && locale@ == GRAPHITE_LOCALE@) ==> start_locale_spec(
                *old(self),
                locale_id,
                *final(self),
                r,
            ),
    {
        if font_is_graphite && bytes_equal(locale, vstd::array::array_as_slice(&GRAPHITE_LOCALE)) {
            StartStep::InitGraphite
        } else {
            self.start_locale(locale_id)
        }
    }

    /// Takes what came of asking the font's engine. Where the engine took
    /// up the text, the breaks come from it and the paragraph is started;
    /// else the locale's rules are used.
    pub fn graphite_started(&mut self, ok: bool, engine: usize, locale_id: i32) -> (r: StartStep)
        requires
            old(self).wf(),
        ensures
            final(self).wf(),
            ok ==> r == StartStep::Started && final(self).state == (BreakIteratorState::Graphite {
                engine,
            }) && final(self).opens == old(self).opens,
            !ok ==> start_locale_spec(*old(self), locale_id, *final(self), r),
    {
        if ok {
            self.state = BreakIteratorState::Graphite { engine };
            StartStep::Started
        } else {
            self.start_locale(locale_id)
        }
    }

    /// Starts a paragraph by the rules of a locale: see
    /// [`start_locale_spec`].
    pub fn start_locale(&mut self, locale_id: i32) -> (r: StartStep)
        requires
            old(self).wf(),
        ensures
            final(self).wf(),
            start_locale_spec(*old(self), locale_id, *final(self), r),
    {
        let keep = match &self.state {
            BreakIteratorState::Locale { locale_id: id, iterator } => *id == locale_id,
            _ => false,
        };
        if keep {
            StartStep::SetText
        } else {
            self.state = BreakIteratorState::Unset;
            self.count_open();
            StartStep::OpenLocale
        }
    }

    /// Takes what came of opening an iterator for the locale asked for:
    /// the status that the service gave. With success the breaks come from
    /// the new iterator, which is to be given the text; else the fallback
    /// locale is to be opened, after a warning.
    pub fn locale_opened(&mut self, locale: &[u8], locale_id: i32, status: i32) -> (r: StartStep)
        ensures
            u_success(status) ==> {
                &&& r == StartStep::SetText
                &&& final(self).has_locale(locale_id)
                &&& final(self).opens == old(self).opens
                &&& final(self).iterator_view() == fresh_iterator(locale@)
            },
            !u_success(status) ==> {
                &&& r == (StartStep::OpenFallback { status })
                &&& final(self).state == BreakIteratorState::Unset
                &&& final(self).opens == counted(old(self).opens)
            },
            final(self).wf(),
    {
        match BreakIterator::new(locale, status) {
            Ok(iterator) => {
                self.state = BreakIteratorState::Locale { locale_id, iterator };
                StartStep::SetText
            },
            Err(e) => {
                self.state = BreakIteratorState::Unset;
                self.count_open();
                StartStep::OpenFallback { status: e.into_raw() }
            },
        }
    }

    /// Takes what came of opening an iterator for the fallback locale.
    /// With success the breaks come from the new iterator, under the
    /// number of the locale asked for. A failure is final: there is no way
    /// left to break lines, and the error carries the status.
    pub fn fallback_opened(&mut self, locale_id: i32, status: i32) -> (r: Result<StartStep, IcuErr>)
        ensures
            r.is_ok() == u_success(status),
            final(self).opens == old(self).opens,
            r.is_ok() ==> {
                &&& r.unwrap() == StartStep::SetText
                &&& final(self).has_locale(locale_id)
                &&& final(self).iterator_view() == fresh_iterator(FALLBACK_LOCALE@)
            },
            r.is_err() ==> r.unwrap_err().0 == status && final(self).state
                == BreakIteratorState::Unset,
            final(self).wf(),
    {
        match BreakIterator::new(vstd::array::array_as_slice(&FALLBACK_LOCALE), status) {
            Ok(iterator) => {
                self.state = BreakIteratorState::Locale { locale_id, iterator };
                Ok(StartStep::SetText)
            },
            Err(e) => {
                self.state = BreakIteratorState::Unset;
                Err(e)
            },
        }
    }

    /// The iterator from which the breaks come.
    pub open spec fn iterator_view(&self) -> BreakIteratorView {
        match self.state {
            BreakIteratorState::Locale { locale_id, iterator } => iterator@,
            _ => fresh_iterator(Seq::empty()),
        }
    }

    /// Takes what came of handing the text to the iterator: the length of
    /// the text and the status that the service gave. With success the
    /// iterator stands at the start of the text; a failure leaves it as it
    /// was. Either way the paragraph is started.
    pub fn text_set(&mut self, text_len: usize, status: i32) -> (r: StartStep)
        requires
            old(self).wf(),
        ensures
            final(self).wf(),
            r == StartStep::Started,
            final(self).opens == old(self).opens,
            match old(self).state {
                BreakIteratorState::Locale { locale_id, iterator } => {
                    &&& final(self).has_locale(locale_id)
                    &&& final(self).iterator_view() == (if u_success(status) {
                        BreakIteratorView {
                            text_len: text_len as nat,
                            last: -1,
                            finished: false,
                            ..iterator@
                        }
                    } else {
                        iterator@
                    })
                },
                _ => final(self).state == old(self).state,
            },
    {
        match &mut self.state {
            BreakIteratorState::Locale { locale_id, iterator } => {
                let _ = iterator.set_text(text_len, status);
            },
            _ => {},
        }
        StartStep::Started
    }

    /// Whether the next break is to be asked of the locale's iterator;
    /// else it is to be asked of the font's engine.
    pub fn asks_iterator(&self) -> (r: bool)
        ensures
            r == (self.state is Locale),
    {
        match &self.state {
            BreakIteratorState::Locale { locale_id, iterator } => true,
            _ => false,
        }
    }

    /// The next break of the paragraph, given what the service that
    /// [`LineBreaker::asks_iterator`] names has reported. The font's
    /// engine is taken at its word; the iterator's reports are handed on
    /// as [`BreakIterator::next`] hands them on.
    pub fn linebreak_next(&mut self, reported: i32) -> (r: i32)
        requires
            old(self).wf(),
        ensures
            final(self).wf(),
            final(self).opens == old(self).opens,
            match old(self).state {
                BreakIteratorState::Locale { locale_id, iterator } => {
                    &&& r == iterator@.hands_on(reported as int)
                    &&& final(self).has_locale(locale_id)
                    &&& final(self).iterator_view() == iterator@.after(reported as int)
                },
                _ => r == reported && final(self).state == old(self).state,
            },
    {
        match &mut self.state {
            BreakIteratorState::Locale { locale_id, iterator } => iterator.next(reported),
            _ => reported,
        }
    }
}

/// An iterator for a locale that has just been opened.
pub open spec fn fresh_iterator(locale: Seq<u8>) -> BreakIteratorView {
    BreakIteratorView { locale, text_len: 0, last: -1, finished: false }
}

/// What starting a paragraph by the rules of a locale does. An iterator
/// that was opened for the same locale is kept, and is to be given the
/// text. Any other source of breaks is dropped, and an iterator is to be
/// opened for the locale, which is counted.
pub open spec fn start_locale_spec(
    before: LineBreaker,
    locale_id: i32,
    after: LineBreaker,
    step: StartStep,
) -> bool {
    if before.has_locale(locale_id) {
        step == StartStep::SetText && after == before
    } else {
        &&& step == StartStep::OpenLocale
        &&& after.state == BreakIteratorState::Unset
        &&& after.opens == counted(before.opens)
    }
}

/// A paragraph in another locale has the iterator opened anew, and a
/// paragraph in the same locale has not: after an iterator was opened for
/// one locale, starting in that locale asks for no iterator, and starting
/// in any other drops the iterator and asks for one more.
pub proof fn lemma_locale_switch_reopens(
    before: LineBreaker,
    held: i32,
    asked: i32,
    after: LineBreaker,
    step: StartStep,
)
    requires
        before.has_locale(held),
        start_locale_spec(before, asked, after, step),
    ensures
        asked == held ==> after == before && step == StartStep::SetText,
        asked != held ==> after.state == BreakIteratorState::Unset && after.opens == counted(
            before.opens,
        ) && step == StartStep::OpenLocale,
{
}

} // verus!
