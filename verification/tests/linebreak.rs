use xetex_shaping::icu::{BreakIterator, IcuErr, DONE, U_SUCCESS};
use xetex_shaping::linebreak::{BreakIteratorState, LineBreaker, StartStep};

fn start_locale(breaker: &mut LineBreaker, locale: &[u8], id: i32, text_len: usize) {
    match breaker.linebreak_start(false, locale, id) {
        StartStep::OpenLocale => {
            assert_eq!(breaker.locale_opened(locale, id, 0), StartStep::SetText);
        }
        StartStep::SetText => {}
        other => panic!("unexpected step {:?}", other),
    }
    assert_eq!(breaker.text_set(text_len, 0), StartStep::Started);
}

#[test]
fn breaks_increase_and_end_with_the_sentinel() {
    let mut breaker = LineBreaker::new();
    start_locale(&mut breaker, b"en_us", 1, 11);
    assert!(breaker.asks_iterator());
    assert_eq!(breaker.linebreak_next(6), 6);
    assert_eq!(breaker.linebreak_next(11), 11);
    assert_eq!(breaker.linebreak_next(-1), -1);
    assert_eq!(breaker.linebreak_next(5), -1);
}

#[test]
fn reports_out_of_order_end_the_iteration() {
    let mut it = BreakIterator::new(b"en_us", 0).unwrap();
    assert_eq!(it.set_text(11, 0), Ok(()));
    assert_eq!(it.next(6), 6);
    assert_eq!(it.next(6), DONE);
    assert_eq!(it.next(11), DONE);
    assert_eq!(it.set_text(3, 0), Ok(()));
    assert_eq!(it.next(4), DONE);
    assert_eq!(it.set_text(3, 7), Err(IcuErr::from_raw(7)));
    assert_eq!(it.next(2), DONE);
}

#[test]
fn another_locale_opens_the_iterator_anew() {
    let mut breaker = LineBreaker::new();
    start_locale(&mut breaker, b"en_us", 1, 11);
    assert_eq!(breaker.opens, 1);
    start_locale(&mut breaker, b"en_us", 1, 5);
    assert_eq!(breaker.opens, 1);
    assert_eq!(breaker.linebreak_start(false, b"de_de", 2), StartStep::OpenLocale);
    assert_eq!(breaker.state, BreakIteratorState::Unset);
    assert_eq!(breaker.opens, 2);
    assert_eq!(breaker.locale_opened(b"de_de", 2, 0), StartStep::SetText);
    match &breaker.state {
        BreakIteratorState::Locale { locale_id, iterator } => {
            assert_eq!(*locale_id, 2);
            assert_eq!(iterator.raw.locale, b"de_de");
        }
        other => panic!("unexpected state {:?}", other),
    }
}

#[test]
fn failed_locale_falls_back_and_failed_fallback_is_final() {
    let mut breaker = LineBreaker::new();
    assert_eq!(breaker.linebreak_start(false, b"xx", 3), StartStep::OpenLocale);
    assert_eq!(breaker.locale_opened(b"xx", 3, 4), StartStep::OpenFallback { status: 4 });
    assert_eq!(breaker.opens, 2);
    assert_eq!(breaker.fallback_opened(3, -128), Ok(StartStep::SetText));
    match &breaker.state {
        BreakIteratorState::Locale { locale_id, iterator } => {
            assert_eq!(*locale_id, 3);
            assert_eq!(iterator.raw.locale, b"en_us");
        }
        other => panic!("unexpected state {:?}", other),
    }
    let mut breaker = LineBreaker::new();
    assert_eq!(breaker.linebreak_start(false, b"xx", 3), StartStep::OpenLocale);
    assert_eq!(breaker.locale_opened(b"xx", 3, 4), StartStep::OpenFallback { status: 4 });
    assert_eq!(breaker.fallback_opened(3, 2), Err(IcuErr::from_raw(2)));
    assert_eq!(breaker.state, BreakIteratorState::Unset);
}

#[test]
fn graphite_breaks_are_asked_of_the_engine() {
    let mut breaker = LineBreaker::new();
    assert_eq!(breaker.linebreak_start(true, b"G", 9), StartStep::InitGraphite);
    assert_eq!(breaker.graphite_started(true, 5, 9), StartStep::Started);
    assert_eq!(breaker.state, BreakIteratorState::Graphite { engine: 5 });
    assert!(!breaker.asks_iterator());
    assert_eq!(breaker.linebreak_next(4), 4);
    assert_eq!(breaker.opens, 0);
    let mut breaker = LineBreaker::new();
    assert_eq!(breaker.linebreak_start(true, b"G", 9), StartStep::InitGraphite);
    assert_eq!(breaker.graphite_started(false, 5, 9), StartStep::OpenLocale);
    assert_eq!(breaker.linebreak_start(false, b"G", 9), StartStep::OpenLocale);
    assert_eq!(breaker.linebreak_start(true, b"en", 9), StartStep::OpenLocale);
}

#[test]
fn status_codes() {
    assert!(U_SUCCESS(0));
    assert!(U_SUCCESS(-128));
    assert!(!U_SUCCESS(1));
    assert_eq!(IcuErr::default().into_raw(), -1);
    assert_eq!(IcuErr::from_raw(5).into_raw(), 5);
}
