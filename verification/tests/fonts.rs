use xetex_shaping::features::{parse, Decimal, FeatureDirective};
use xetex_shaping::font_name::{splitFontName, FontNameParts};
use xetex_shaping::graphite2::{Face, FeatureRef, FeatureSetting};
use xetex_shaping::harfbuzz::{Feature, Tag};
use xetex_shaping::mapping::{
    apply_tfm_font_mapping, check_for_tfm_font_mapping, converter_forms, get_encoding_mode_and_info,
    is_builtin_encoding, load_mapping_warning, load_tfm_font_mapping, mapping_file_name,
    ConverterForms, EncodingMode, MappingWarning, TfmFontName, AUTO, ICUMAPPING, RAW, UTF16BE,
    UTF16LE, UTF8,
};
use xetex_shaping::metrics::{letters_to_probe, ot_get_font_metrics, FontMetrics, GlyphProbe};
use xetex_shaping::settings::{has_opentype_directive, resolve, FontSettings};

#[test]
fn family_name_splits_at_slash_and_colon() {
    assert_eq!(
        splitFontName(b"Arial/B:script=latn;+liga"),
        FontNameParts { var: 5, feat: 7, end: 25, index: 0 }
    );
    assert_eq!(splitFontName(b"Arial"), FontNameParts { var: 5, feat: 5, end: 5, index: 0 });
    assert_eq!(splitFontName(b"Arial:a/b"), FontNameParts { var: 5, feat: 5, end: 9, index: 0 });
    assert_eq!(splitFontName(b"A/B/C"), FontNameParts { var: 1, feat: 5, end: 5, index: 0 });
    assert_eq!(splitFontName(b""), FontNameParts { var: 0, feat: 0, end: 0, index: 0 });
    assert_eq!(splitFontName(b"Ab\0:x"), FontNameParts { var: 2, feat: 2, end: 2, index: 0 });
}

#[test]
fn file_name_splits_at_brackets() {
    assert_eq!(
        splitFontName(b"[font.ttc:12]:+liga"),
        FontNameParts { var: 9, feat: 13, end: 19, index: 12 }
    );
    assert_eq!(
        splitFontName(b"[font.otf]:+liga"),
        FontNameParts { var: 9, feat: 10, end: 16, index: 0 }
    );
    assert_eq!(splitFontName(b"[font.otf]"), FontNameParts { var: 9, feat: 10, end: 10, index: 0 });
    assert_eq!(splitFontName(b"[font.otf"), FontNameParts { var: 9, feat: 9, end: 9, index: 0 });
    assert_eq!(
        splitFontName(b"[a:1:2]x:y:z"),
        FontNameParts { var: 2, feat: 8, end: 12, index: 1 }
    );
    assert_eq!(splitFontName(b"[a:7"), FontNameParts { var: 2, feat: 4, end: 4, index: 7 });
}

#[test]
fn later_directives_replace_and_features_gather() {
    let out = parse(b"script=latn;+liga;script=grek;extend=1.5;-kern;extend=2;color=102030;vertical;language=a;language=b;shaper=ot;mapping=m;12=3");
    assert!(out.warnings.is_empty());
    let s = resolve(&out.directives);
    assert_eq!(s.script, Tag::from_bytes(b"grek"));
    assert_eq!(s.language, Some(b"b".to_vec()));
    assert_eq!(s.shaper, Some(b"ot".to_vec()));
    assert_eq!(s.mapping, Some(b"m".to_vec()));
    assert_eq!(
        s.extend,
        Some(Decimal { negative: false, int_digits: vec![2], frac_digits: vec![] })
    );
    assert_eq!(s.slant, None);
    assert_eq!(s.color, Some(0x102030FF));
    assert!(s.vertical);
    assert_eq!(
        s.features,
        vec![
            Feature { tag: Tag::from_bytes(b"liga"), value: 1, start: 0, end: u32::MAX },
            Feature { tag: Tag::from_bytes(b"kern"), value: 0, start: 0, end: u32::MAX },
            Feature { tag: Tag::new(12), value: 3, start: 0, end: u32::MAX },
        ]
    );
    assert_eq!(resolve(&[]), FontSettings::new());
}

#[test]
fn opentype_directives_are_noticed() {
    assert!(has_opentype_directive(&parse(b"extend=2;+liga").directives));
    assert!(has_opentype_directive(&[FeatureDirective::Script(Tag::new(1))]));
    assert!(!has_opentype_directive(&parse(b"extend=2;color=FFFFFF;vertical;mapping=x").directives));
    assert!(!has_opentype_directive(&[]));
}

#[test]
fn unstated_heights_fall_back() {
    let stated = FontMetrics { ascent: 65537, descent: 20000, x_height: 0, cap_height: 0, slant: 5 };
    let none = GlyphProbe { glyph_id: 0, height: 777 };
    let x = GlyphProbe { glyph_id: 91, height: 30000 };
    let cap = GlyphProbe { glyph_id: 59, height: 45000 };
    assert_eq!(letters_to_probe(stated), (true, true));
    assert_eq!(
        ot_get_font_metrics(stated, none, none),
        FontMetrics { ascent: 65537, descent: 20000, x_height: 32768, cap_height: 65537, slant: 5 }
    );
    assert_eq!(
        ot_get_font_metrics(stated, x, cap),
        FontMetrics { ascent: 65537, descent: 20000, x_height: 30000, cap_height: 45000, slant: 5 }
    );
    let full = FontMetrics { x_height: 1, cap_height: 2, ..stated };
    assert_eq!(letters_to_probe(full), (false, false));
    assert_eq!(ot_get_font_metrics(full, x, cap), full);
    let negative = FontMetrics { ascent: -3, ..stated };
    assert_eq!(ot_get_font_metrics(negative, none, none).x_height, -1);
}

#[test]
fn mapping_is_cut_off_the_file_name() {
    assert_eq!(
        check_for_tfm_font_mapping(b"cmr10:mapping= tex-text"),
        TfmFontName { name_len: 5, mapping: Some(b"tex-text".to_vec()) }
    );
    assert_eq!(
        check_for_tfm_font_mapping(b"cmr10:mapping=a:mapping=b"),
        TfmFontName { name_len: 5, mapping: Some(b"a:mapping=b".to_vec()) }
    );
    assert_eq!(
        check_for_tfm_font_mapping(b"cmr10:mapping=  "),
        TfmFontName { name_len: 5, mapping: None }
    );
    assert_eq!(check_for_tfm_font_mapping(b"cmr10"), TfmFontName { name_len: 5, mapping: None });
    assert_eq!(
        check_for_tfm_font_mapping(b"cmr10\0:mapping=x"),
        TfmFontName { name_len: 5, mapping: None }
    );
    assert_eq!(check_for_tfm_font_mapping(b":mapping"), TfmFontName { name_len: 8, mapping: None });
}

#[test]
fn mapping_files_and_warnings() {
    assert_eq!(mapping_file_name(b"tex-text"), b"tex-text.tec");
    assert_eq!(load_mapping_warning(false, false, 5), Some(MappingWarning::NotFound));
    assert_eq!(load_mapping_warning(true, false, 5), Some(MappingWarning::NotLoadable));
    assert_eq!(load_mapping_warning(true, true, 2), Some(MappingWarning::Loaded));
    assert_eq!(load_mapping_warning(true, true, 1), None);
    assert_eq!(MappingWarning::Loaded.code(), 0);
    assert_eq!(MappingWarning::NotFound.code(), 1);
    assert_eq!(MappingWarning::NotLoadable.code(), 2);
    assert_eq!(
        converter_forms(1, false),
        ConverterForms { map_forward: false, source: 4, target: 1 }
    );
    assert_eq!(converter_forms(0, true), ConverterForms { map_forward: true, source: 3, target: 3 });
    let mut saved = Some(b"m".to_vec());
    assert_eq!(load_tfm_font_mapping(&mut saved), Some(b"m".to_vec()));
    assert_eq!(load_tfm_font_mapping(&mut saved), None);
    assert_eq!(apply_tfm_font_mapping(0, 65), 0);
    assert_eq!(apply_tfm_font_mapping(1, 65), 65);
    assert_eq!(apply_tfm_font_mapping(2, 200), 200);
}

#[test]
fn encodings_by_name() {
    let builtin = |mode| EncodingMode { mode, keep_name: false, unknown: false };
    assert_eq!(get_encoding_mode_and_info(b"auto", false, false), builtin(AUTO));
    assert_eq!(get_encoding_mode_and_info(b"UTF8", false, true), builtin(UTF8));
    assert_eq!(get_encoding_mode_and_info(b"Utf16", false, false), builtin(UTF16LE));
    assert_eq!(get_encoding_mode_and_info(b"utf16", true, false), builtin(UTF16BE));
    assert_eq!(get_encoding_mode_and_info(b"utf16BE", false, false), builtin(UTF16BE));
    assert_eq!(get_encoding_mode_and_info(b"utf16le", true, false), builtin(UTF16LE));
    assert_eq!(get_encoding_mode_and_info(b"BYTES", false, false), builtin(RAW));
    assert_eq!(
        get_encoding_mode_and_info(b"latin1", false, true),
        EncodingMode { mode: ICUMAPPING, keep_name: true, unknown: false }
    );
    assert_eq!(
        get_encoding_mode_and_info(b"latin1", false, false),
        EncodingMode { mode: RAW, keep_name: false, unknown: true }
    );
    assert!(is_builtin_encoding(b"Auto", false));
    assert!(!is_builtin_encoding(b"auto ", false));
    assert!(!is_builtin_encoding(b"`UTO", false));
}

#[test]
fn graphite_features_and_their_values() {
    let face = Face {
        features: vec![
            FeatureRef {
                id: 5,
                label: b"Caps".to_vec(),
                settings: vec![
                    FeatureSetting { value: 0, label: b"Off".to_vec() },
                    FeatureSetting { value: 3, label: b"Small".to_vec() },
                ],
            },
            FeatureRef { id: 9, label: b"Digits".to_vec(), settings: vec![] },
        ],
    };
    assert_eq!(face.num_feature_refs(), 2);
    assert_eq!(face.feature_ref(1).unwrap().id(), 9);
    assert!(face.feature_ref(2).is_none());
    let caps = face.find_feature_ref(5).unwrap();
    assert!(face.find_feature_ref(6).is_none());
    assert_eq!(caps.num_values(), 2);
    assert_eq!(caps.value(1), 3);
    assert_eq!(caps.value(2), 0);
    assert_eq!(caps.label(0x409).unwrap().as_bytes(), b"Caps");
    assert_eq!(caps.value_label(1, 0x409).unwrap().into_raw(), b"Small".to_vec());
    assert!(caps.value_label(2, 0x409).is_none());
    let mut values = face.feature_val_for_lang(0);
    assert_eq!(caps.feat_value(&values.0), 0);
    assert_eq!(caps.set_feat_value(&mut values.0, 3), Ok(()));
    assert_eq!(caps.feat_value(&values.0), 3);
    assert_eq!(caps.set_feat_value(&mut values.0, 7), Err(()));
    assert_eq!(caps.feat_value(&values.0), 3);
    assert_eq!(caps.set_feat_value(&mut values.0, 0), Ok(()));
    assert_eq!(caps.feat_value(&values.0), 0);
    assert_eq!(values.0.entries, vec![(5, 0), (5, 3)]);
}
