use xetex_shaping::font_name::splitFontName;
use xetex_shaping::features::{
    parse, parse_with, read_common_features, read_feature_number, read_rgb_a, read_tag_with_param, Decimal,
    FeatureDirective, ParseWarning, StyleKind, StyleValue, WarningKind,
};
use xetex_shaping::graphite2::{Face, FeatureRef, FeatureSetting};
use xetex_shaping::harfbuzz::Tag;

fn tag(s: &[u8]) -> Tag {
    Tag::from_bytes(s)
}

fn to_f64(d: &Decimal) -> f64 {
    let mut val = 0.0;
    for digit in &d.int_digits {
        val = val * 10.0 + *digit as f64;
    }
    let mut dec = 10.0;
    for digit in &d.frac_digits {
        val += *digit as f64 / dec;
        dec *= 10.0;
    }
    if d.negative {
        -val
    } else {
        val
    }
}

fn number(d: &FeatureDirective, kind: StyleKind) -> f64 {
    match d {
        FeatureDirective::StyleAdjust { kind: k, value: StyleValue::Number(n) } if *k == kind => {
            to_f64(n)
        }
        other => panic!("not a number of that kind: {:?}", other),
    }
}

#[test]
fn tag_is_four_bytes_padded_with_spaces() {
    assert_eq!(tag(b"latn").to_raw(), 0x6C61746E);
    assert_eq!(tag(b"ab").to_raw(), 0x61622020);
    assert_eq!(tag(b"abcdef").to_raw(), 0x61626364);
    assert_eq!(tag(b"").to_raw(), 0);
    assert_eq!(tag(b"a\0cd").to_raw(), 0x61202020);
}

#[test]
fn extend_and_embolden_parse_to_style_adjustments() {
    let out = parse(b"extend=150.5");
    assert!(out.warnings.is_empty());
    assert_eq!(out.directives.len(), 1);
    assert_eq!(number(&out.directives[0], StyleKind::Extend), 150.5);

    let out = parse(b"embolden=-0.25");
    assert!(out.warnings.is_empty());
    assert_eq!(out.directives.len(), 1);
    assert_eq!(number(&out.directives[0], StyleKind::Embolden), -0.25);
}

#[test]
fn unknown_token_gives_one_warning_and_no_directive() {
    let out = parse(b"foobar=1");
    assert!(out.directives.is_empty());
    assert_eq!(
        out.warnings,
        vec![ParseWarning { kind: WarningKind::UnrecognizedFeature, start: 0, end: 8 }]
    );
}

#[test]
fn font_spec_features_parse_in_order() {
    let spec = b"Arial:script=latn;language=EN;+liga;-kern;embolden=0.5";
    let parts = splitFontName(spec);
    assert_eq!((parts.var, parts.feat, parts.end), (5, 5, spec.len()));
    let out = parse(&spec[parts.feat..parts.end]);
    assert!(out.warnings.is_empty());
    assert_eq!(out.directives.len(), 5);
    assert_eq!(out.directives[0], FeatureDirective::Script(tag(b"latn")));
    assert_eq!(out.directives[1], FeatureDirective::Language(b"EN".to_vec()));
    assert_eq!(
        out.directives[2],
        FeatureDirective::BooleanToggle { tag: tag(b"liga"), enabled: true }
    );
    assert_eq!(
        out.directives[3],
        FeatureDirective::BooleanToggle { tag: tag(b"kern"), enabled: false }
    );
    assert_eq!(number(&out.directives[4], StyleKind::Embolden), 0.5);
}

#[test]
fn parsing_is_total() {
    for s in [
        &b""[..],
        b":",
        b";;",
        b"=",
        b"+",
        b"-",
        b"color=",
        b"color=12345",
        b"script",
        b"extend=",
        b"\0script=latn",
        b"   ",
        b"1=",
        b"9999999999999=99999999999999",
        b"+liga=-99999999999",
        b"vertical ",
    ] {
        let out = parse(s);
        assert!(out.directives.len() + out.warnings.len() <= s.len() + 1);
    }
}

#[test]
fn empty_token_between_separators_gives_a_warning() {
    let out = parse(b";;");
    assert!(out.directives.is_empty());
    assert_eq!(
        out.warnings,
        vec![ParseWarning { kind: WarningKind::UnrecognizedFeature, start: 1, end: 1 }]
    );
}

#[test]
fn string_ends_at_first_zero_byte() {
    let out = parse(b"+liga\0;+kern");
    assert_eq!(
        out.directives,
        vec![FeatureDirective::BooleanToggle { tag: tag(b"liga"), enabled: true }]
    );
}

#[test]
fn keyword_without_value_gives_missing_value() {
    let out = parse(b"script;language=EN");
    assert_eq!(
        out.warnings,
        vec![ParseWarning { kind: WarningKind::MissingValue, start: 0, end: 6 }]
    );
    assert_eq!(out.directives, vec![FeatureDirective::Language(b"EN".to_vec())]);
}

#[test]
fn blanks_after_separators_are_skipped() {
    let out = parse(b":  shaper=ot, \tmapping=foo");
    assert_eq!(
        out.directives,
        vec![
            FeatureDirective::ShaperOverride(b"ot".to_vec()),
            FeatureDirective::Mapping(b"foo".to_vec()),
        ]
    );
}

#[test]
fn color_takes_six_or_eight_digits() {
    let out = parse(b"color=FF8000");
    assert_eq!(
        out.directives,
        vec![FeatureDirective::StyleAdjust {
            kind: StyleKind::Color,
            value: StyleValue::Rgba(0xFF8000FF)
        }]
    );
    let out = parse(b"color=ff800080");
    assert_eq!(
        out.directives,
        vec![FeatureDirective::StyleAdjust {
            kind: StyleKind::Color,
            value: StyleValue::Rgba(0xFF800080)
        }]
    );
    let out = parse(b"color=FF80008");
    assert!(out.directives.is_empty());
    assert_eq!(
        out.warnings,
        vec![ParseWarning { kind: WarningKind::BadColor, start: 0, end: 13 }]
    );
    let out = parse(b"color=FF80");
    assert_eq!(out.warnings[0].kind, WarningKind::BadColor);
}

#[test]
fn read_rgb_a_uses_up_what_it_reads() {
    let mut cp: &[u8] = b"12AbCd;rest";
    assert_eq!(read_rgb_a(&mut cp), 0x12ABCDFF);
    assert_eq!(cp, b";rest");

    let mut cp: &[u8] = b"12AbCd7f";
    assert_eq!(read_rgb_a(&mut cp), 0x12ABCD7F);
    assert_eq!(cp, b"");

    let mut cp: &[u8] = b"12AbCd7z";
    assert_eq!(read_rgb_a(&mut cp), 0x12ABCDFF);
    assert_eq!(cp, b"z");

    let mut cp: &[u8] = b"12g";
    assert_eq!(read_rgb_a(&mut cp), 0x000000FF);
    assert_eq!(cp, b"g");
}

#[test]
fn plus_tag_with_index_counts_from_one() {
    let out = parse(b"+salt=2;+liga=0;+ss01=-1");
    assert_eq!(
        out.directives,
        vec![
            FeatureDirective::NumericFeature { tag: tag(b"salt"), value: 3 },
            FeatureDirective::NumericFeature { tag: tag(b"liga"), value: 1 },
            FeatureDirective::NumericFeature { tag: tag(b"ss01"), value: 0xFFFFFFFF },
        ]
    );
}

#[test]
fn read_tag_with_param_reads_sign_and_digits() {
    let mut param = 0;
    let t = read_tag_with_param(b"salt=-12;x", &mut param);
    assert_eq!(t, tag(b"salt"));
    assert_eq!(param, -12);

    let mut param = 7;
    let t = read_tag_with_param(b"liga", &mut param);
    assert_eq!(t, tag(b"liga"));
    assert_eq!(param, 7);
}

#[test]
fn numeric_feature_with_and_without_value() {
    let out = parse(b"1234=5;77 ;8= 9");
    assert_eq!(
        out.directives,
        vec![
            FeatureDirective::NumericFeature { tag: Tag::new(1234), value: 5 },
            FeatureDirective::NumericFeature { tag: Tag::new(77), value: 0 },
        ]
    );
    assert_eq!(
        out.warnings,
        vec![ParseWarning { kind: WarningKind::UnrecognizedFeature, start: 11, end: 15 }]
    );
}

#[test]
fn read_feature_number_carries_on_from_what_it_is_given() {
    let mut f = Tag::new(0);
    let mut v = 0;
    assert!(read_feature_number(b"12 = 3", &mut f, &mut v) == false);
    assert_eq!(f.to_raw(), 12);
    let mut f = Tag::new(1);
    let mut v = 2;
    assert!(read_feature_number(b"2=39 ", &mut f, &mut v));
    assert_eq!(f.to_raw(), 12);
    assert_eq!(v, 239);
    let mut f = Tag::new(5);
    let mut v = 6;
    assert!(!read_feature_number(b"x", &mut f, &mut v));
    assert_eq!((f.to_raw(), v), (5, 6));
}

#[test]
fn vertical_and_bare_tags() {
    let out = parse(b"vertical;liga;vertical x;li=a;toolong");
    assert_eq!(
        out.directives,
        vec![
            FeatureDirective::VerticalFlag,
            FeatureDirective::BooleanToggle { tag: tag(b"liga"), enabled: true },
        ]
    );
    assert_eq!(out.warnings.len(), 3);
}

#[test]
fn graphite_features_are_found_by_their_labels() {
    let face = Face {
        features: vec![
            FeatureRef {
                id: 1001,
                label: b"Capitals".to_vec(),
                settings: vec![
                    FeatureSetting { value: 0, label: b"Normal".to_vec() },
                    FeatureSetting { value: 2, label: b"Small".to_vec() },
                ],
            },
            FeatureRef { id: 1002, label: b"Digits".to_vec(), settings: vec![] },
        ],
    };
    let out = parse_with(b"Capitals=Small;Digits=Old;Capitals;Width=1", Some(&face));
    assert_eq!(
        out.directives,
        vec![FeatureDirective::NumericFeature { tag: Tag::new(1001), value: 2 }]
    );
    assert_eq!(out.warnings.len(), 3);
    let out = parse(b"Capitals=Small");
    assert!(out.directives.is_empty());
}

#[test]
fn common_features_are_read_on_their_own() {
    assert_eq!(read_common_features(b"script=latn"), None);
    assert_eq!(read_common_features(b"+liga"), None);
    assert_eq!(read_common_features(b"slant"), Some(Err(WarningKind::MissingValue)));
    assert_eq!(
        read_common_features(b"mapping=tex-text"),
        Some(Ok(FeatureDirective::Mapping(b"tex-text".to_vec())))
    );
    match read_common_features(b"letterspace= *12.50x") {
        Some(Ok(d)) => assert_eq!(number(&d, StyleKind::Letterspace), 12.5),
        other => panic!("unexpected {:?}", other),
    }
    match read_common_features(b"slant=.5") {
        Some(Ok(d)) => assert_eq!(number(&d, StyleKind::Slant), 0.5),
        other => panic!("unexpected {:?}", other),
    }
    match read_common_features(b"extend=abc") {
        Some(Ok(d)) => assert_eq!(number(&d, StyleKind::Extend), 0.0),
        other => panic!("unexpected {:?}", other),
    }
}
