use xetex_shaping::harfbuzz::{
    Buffer, BufferContentType, Direction, Face, Feature, GTag, GlyphInfo, GlyphPosition, LangSys,
    Language, LayoutTable, PlanBuildFailed, PlanFailure, Script, ScriptRecord, SegmentProperties,
    ShapePlan, Shaper, Tag,
};
use xetex_shaping::features::WarningKind;
use xetex_shaping::font_load::loadOTfont;
use xetex_shaping::graphite2;
use xetex_shaping::shaping::{
    collect_run, prepare_buffer, select_engine, Engine, EngineChoice, Glyph, PlanCache, PlanHandle,
    ShapeError,
};

fn props() -> SegmentProperties {
    SegmentProperties {
        direction: Direction::LeftToRight,
        script: Tag::from_bytes(b"latn").to_script(),
        language: Language::from_bytes(b"en"),
    }
}

fn graphite_face(id: usize) -> Face {
    let mut face = Face::new(id);
    face.graphite = Some(graphite2::Face { features: Vec::new() });
    face
}

#[test]
fn graphite_request_without_tables_falls_back_with_one_warning() {
    let choice = select_engine(Engine::Graphite, None, false, false, false);
    assert_eq!(choice, EngineChoice { engine: Engine::OpenType, fallback_warning: true });
    let choice = select_engine(Engine::Graphite, None, false, false, true);
    assert_eq!(choice, EngineChoice { engine: Engine::Graphite, fallback_warning: false });
}

#[test]
fn default_engine_depends_on_platform_and_directives() {
    let native = EngineChoice { engine: Engine::PlatformNative, fallback_warning: false };
    let opentype = EngineChoice { engine: Engine::OpenType, fallback_warning: false };
    assert_eq!(select_engine(Engine::Default, None, true, false, false), native);
    assert_eq!(select_engine(Engine::Default, None, true, true, false), opentype);
    assert_eq!(select_engine(Engine::Default, None, false, false, true), opentype);
    assert_eq!(select_engine(Engine::OpenType, None, true, false, true), opentype);
    assert_eq!(select_engine(Engine::PlatformNative, None, false, true, true), native);
}

#[test]
fn shaper_override_wins_over_configuration() {
    let choice = select_engine(Engine::OpenType, Some(b"graphite2"), false, false, true);
    assert_eq!(choice.engine, Engine::Graphite);
    let choice = select_engine(Engine::Graphite, Some(b"ot"), false, false, true);
    assert_eq!(choice.engine, Engine::OpenType);
    let choice = select_engine(Engine::Default, Some(b"graphite2"), true, false, false);
    assert_eq!(choice, EngineChoice { engine: Engine::OpenType, fallback_warning: true });
    let choice = select_engine(Engine::Graphite, Some(b"nonsense"), false, false, true);
    assert_eq!(choice.engine, Engine::Graphite);
}

#[test]
fn plan_is_built_once_per_key() {
    let face = Face::new(1);
    let other = Face::new(2);
    let features = [Feature { tag: Tag::from_bytes(b"liga"), value: 1, start: 0, end: u32::MAX }];
    let shapers = [b"ot".to_vec()];
    let mut cache = PlanCache::new();
    let a = cache.get_or_build_plan(face.as_ref(), &props(), &features, Some(&shapers));
    assert_eq!(a, Ok(PlanHandle(0)));
    assert_eq!(cache.built, 1);
    let b = cache.get_or_build_plan(face.as_ref(), &props(), &features, Some(&shapers));
    assert_eq!(b, a);
    assert_eq!(cache.built, 1);
    assert_eq!(cache.plans.len(), 1);
    let c = cache.get_or_build_plan(other.as_ref(), &props(), &features, Some(&shapers));
    assert_eq!(c, Ok(PlanHandle(1)));
    let d = cache.get_or_build_plan(face.as_ref(), &props(), &[], Some(&shapers));
    assert_eq!(d, Ok(PlanHandle(2)));
    let e = cache.get_or_build_plan(face.as_ref(), &props(), &features, None);
    assert_eq!(e, Ok(PlanHandle(3)));
    assert_eq!(cache.built, 4);
    assert_eq!(cache.plan(PlanHandle(0)).unwrap().shaper, Shaper::OpenType);
    assert!(cache.plan(PlanHandle(4)).is_none());
}

#[test]
fn failed_build_caches_nothing() {
    let face = Face::new(1);
    let shapers = [b"graphite2".to_vec(), b"coretext".to_vec()];
    let mut cache = PlanCache::new();
    let r = cache.get_or_build_plan(face.as_ref(), &props(), &[], Some(&shapers));
    assert_eq!(r, Err(PlanBuildFailed { reason: PlanFailure::NoUsableShaper }));
    assert_eq!(cache.built, 0);
    assert!(cache.plans.is_empty());
}

#[test]
fn plan_takes_first_usable_shaper() {
    let plain = Face::new(1);
    let graphite = graphite_face(2);
    let shapers = [b"graphite2".to_vec(), b"ot".to_vec()];
    let plan = ShapePlan::new(plain.as_ref(), &props(), &[], Some(&shapers)).unwrap();
    assert_eq!(plan.as_ref().get_shaper(), Shaper::OpenType);
    let plan = ShapePlan::new(graphite.as_ref(), &props(), &[], Some(&shapers)).unwrap();
    assert_eq!(plan.as_ref().get_shaper(), Shaper::Graphite2);
    let plan = ShapePlan::new(graphite.as_ref(), &props(), &[], None).unwrap();
    assert_eq!(plan.shaper, Shaper::Graphite2);
    let plan = ShapePlan::new(plain.as_ref(), &props(), &[], None).unwrap();
    assert_eq!(plan.shaper, Shaper::OpenType);
    let only = [b"fallback".to_vec()];
    let plan = ShapePlan::new(plain.as_ref(), &props(), &[], Some(&only)).unwrap();
    assert_eq!(plan.shaper, Shaper::Fallback);
    assert!(ShapePlan::new(plain.as_ref(), &props(), &[], Some(&[])).is_err());
}

#[test]
fn buffer_takes_utf16_text() {
    let mut buffer = Buffer::new();
    assert!(buffer.as_ref().is_empty());
    let text = [0x48, 0xD83D, 0xDE00, 0x69, 0xDC00, 0xD800];
    prepare_buffer(&mut buffer, &props(), &text);
    assert_eq!(buffer.content_type, BufferContentType::Unicode);
    assert_eq!(buffer.props, props());
    assert_eq!(
        buffer.infos,
        vec![
            GlyphInfo { codepoint: 0x48, cluster: 0 },
            GlyphInfo { codepoint: 0x1F600, cluster: 1 },
            GlyphInfo { codepoint: 0x69, cluster: 3 },
            GlyphInfo { codepoint: 0xFFFD, cluster: 4 },
            GlyphInfo { codepoint: 0xFFFD, cluster: 5 },
        ]
    );
    assert_eq!(buffer.as_ref().len(), 5);
    assert_eq!(buffer.as_ref().get_script(), Script(0x6C61746E));
    buffer.as_mut().reset();
    assert!(buffer.as_ref().is_empty());
    assert_eq!(buffer.content_type, BufferContentType::Invalid);
}

#[test]
fn run_pairs_glyphs_with_positions() {
    let mut buffer = Buffer::new();
    buffer.infos = vec![
        GlyphInfo { codepoint: 10, cluster: 0 },
        GlyphInfo { codepoint: 11, cluster: 1 },
    ];
    buffer.positions = vec![
        GlyphPosition { x_advance: 500, y_advance: 0, x_offset: 1, y_offset: 2 },
        GlyphPosition { x_advance: 600, y_advance: 0, x_offset: 0, y_offset: -3 },
    ];
    let run = collect_run(buffer.as_ref(), true).unwrap();
    assert_eq!(
        run.glyphs,
        vec![
            Glyph { glyph_id: 10, cluster: 0, x_advance: 500, y_advance: 0, x_offset: 1, y_offset: 2 },
            Glyph { glyph_id: 11, cluster: 1, x_advance: 600, y_advance: 0, x_offset: 0, y_offset: -3 },
        ]
    );
    assert_eq!(collect_run(buffer.as_ref(), false), Err(ShapeError::BackendRejected));
    buffer.positions.pop();
    assert_eq!(collect_run(buffer.as_ref(), true), Err(ShapeError::BackendRejected));
}

#[test]
fn loans_write_through() {
    let mut face = Face::new(7);
    face.as_mut().set_upem(2048);
    face.as_mut().set_index(3);
    assert_eq!((face.upem, face.index), (2048, 3));
    assert_eq!(face.as_ref().as_ptr(), 7);
    let mut font = xetex_shaping::harfbuzz::Font::new(9, face.as_ref());
    font.as_mut().set_scale(10, 20);
    font.as_mut().set_ppem(30, 40);
    assert_eq!((font.x_scale, font.y_scale, font.x_ppem, font.y_ppem), (10, 20, 30, 40));
    assert_eq!(font.as_ref().as_ptr(), 9);
    assert_eq!(font.as_ref().get_face(), 7);
}

#[test]
fn font_is_loaded_from_its_feature_string() {
    let plain = Face::new(1);
    let font = loadOTfont(
        Some(b"script=latn;+liga;bogus;color=FF0000;vertical"),
        plain.as_ref(),
        Engine::Default,
        true,
    );
    assert_eq!(font.engine, EngineChoice { engine: Engine::OpenType, fallback_warning: false });
    assert_eq!(font.shapers, vec![b"ot".to_vec()]);
    assert_eq!(font.rgb_value, 0xFF0000FF);
    assert_eq!(font.flags, 3);
    assert_eq!(font.warnings.len(), 1);
    assert_eq!(font.warnings[0].kind, WarningKind::UnrecognizedFeature);
    assert_eq!(font.settings.features.len(), 1);

    let font = loadOTfont(Some(b"extend=2"), plain.as_ref(), Engine::Default, true);
    assert_eq!(font.engine.engine, Engine::PlatformNative);
    assert!(font.shapers.is_empty());
    assert_eq!((font.rgb_value, font.flags), (0xFF, 0));

    let font = loadOTfont(None, plain.as_ref(), Engine::Graphite, false);
    assert_eq!(font.engine, EngineChoice { engine: Engine::OpenType, fallback_warning: true });
    assert!(font.warnings.is_empty());

    let mut face = graphite_face(2);
    face.graphite = Some(graphite2::Face {
        features: vec![graphite2::FeatureRef {
            id: 77,
            label: b"Caps".to_vec(),
            settings: vec![graphite2::FeatureSetting { value: 1, label: b"On".to_vec() }],
        }],
    });
    let font = loadOTfont(Some(b"Caps=On;shaper=ot"), face.as_ref(), Engine::Graphite, false);
    assert_eq!(font.engine.engine, Engine::OpenType);
    assert_eq!(font.shapers, vec![b"ot".to_vec(), b"ot".to_vec()]);
    assert_eq!(
        font.settings.features,
        vec![Feature { tag: Tag::new(77), value: 1, start: 0, end: u32::MAX }]
    );
    let font = loadOTfont(Some(b"Caps=On"), face.as_ref(), Engine::OpenType, false);
    assert!(font.settings.features.is_empty());
    assert_eq!(font.warnings.len(), 1);
    let font = loadOTfont(Some(b"shaper=graphite2"), face.as_ref(), Engine::OpenType, false);
    assert_eq!(font.engine.engine, Engine::Graphite);
    assert_eq!(font.shapers, vec![b"graphite2".to_vec(), b"graphite2".to_vec()]);
}

#[test]
fn layout_tables_are_read() {
    let lang = |t: &[u8], f: &[&[u8]]| LangSys {
        tag: Tag::from_bytes(t),
        features: f.iter().map(|x| Tag::from_bytes(x)).collect(),
    };
    let mut face = Face::new(1);
    face.gsub = LayoutTable {
        scripts: vec![
            ScriptRecord {
                tag: Tag::from_bytes(b"latn"),
                languages: vec![lang(b"DEU ", &[b"liga"]), lang(b"dflt", &[b"kern", b"liga"])],
            },
            ScriptRecord { tag: Tag::from_bytes(b"grek"), languages: vec![lang(b"ELL ", &[])] },
        ],
    };
    let f = face.as_ref();
    assert_eq!(
        f.get_ot_layout_script_tags(GTag::GSub),
        vec![Tag::from_bytes(b"latn"), Tag::from_bytes(b"grek")]
    );
    assert!(f.get_ot_layout_script_tags(GTag::GPos).is_empty());
    assert_eq!(f.find_ot_layout_script(GTag::GSub, Tag::from_bytes(b"grek")), Some(1));
    assert_eq!(f.find_ot_layout_script(GTag::GSub, Tag::from_bytes(b"cyrl")), None);
    assert_eq!(f.get_ot_layout_script_language_tags_len(GTag::GSub, 0), 2);
    assert_eq!(f.get_ot_layout_script_language_tags_len(GTag::GSub, 5), 0);
    assert_eq!(
        f.get_ot_layout_script_language_tags(GTag::GSub, 0),
        vec![Tag::from_bytes(b"DEU "), Tag::from_bytes(b"dflt")]
    );
    assert_eq!(f.get_ot_layout_language_feature_tags_len(GTag::GSub, 0, 1), 2);
    assert_eq!(
        f.get_ot_layout_language_feature_tags(GTag::GSub, 0, 1),
        vec![Tag::from_bytes(b"kern"), Tag::from_bytes(b"liga")]
    );
    assert!(f.get_ot_layout_language_feature_tags(GTag::GSub, 0, 2).is_empty());
    let want = [Tag::from_bytes(b"FRA "), Tag::from_bytes(b"DEU ")];
    assert_eq!(f.select_ot_layout_language(GTag::GSub, 0, &want), Ok(0));
    assert_eq!(f.select_ot_layout_language(GTag::GSub, 0, &want[..1]), Err(1));
    assert_eq!(f.select_ot_layout_language(GTag::GSub, 1, &want), Err(0xFFFF));
    assert!(!f.has_ot_math_data());
    assert_eq!(f.get_ot_layout_size_params(), None);
    assert!(f.gr_face().is_none());
}
