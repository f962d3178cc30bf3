//! Loading a font for the OpenType or the Graphite engine: what its
//! feature string asks for, the engine that it gets, and the shapers that
//! its plans are to be made with.

use vstd::prelude::*;
use crate::bytes::copy_bytes;
use crate::features::ParseOutput;
use crate::features::ParseWarning;
use crate::features::directive_views;
use crate::features::directives_of;
use crate::features::parse_outcomes;
use crate::features::parse_with;
use crate::features::warnings_of;
use crate::features::DirectiveView;
use crate::graphite2;
use crate::harfbuzz::FaceRef;
use crate::harfbuzz::name_views;
use crate::harfbuzz::SHAPER_GRAPHITE2;
use crate::harfbuzz::SHAPER_OT;
use crate::settings::FontSettings;
use crate::settings::asks_opentype;
use crate::settings::has_opentype_directive;
use crate::settings::resolve;
use crate::settings::settings_of;
use crate::shaping::Engine;
use crate::shaping::EngineChoice;
use crate::shaping::requested_engine;
use crate::shaping::resolved_engine;
use crate::shaping::select_engine;

verus! {

/// The flag of a font that has a colour of its own.
pub const FONT_FLAGS_COLORED: u8 = 0x01;

/// The flag of a font that is set vertically.
pub const FONT_FLAGS_VERTICAL: u8 = 0x02;

/// The colour of a font that was given none: black, and opaque.
pub const DEFAULT_RGB: u32 = 0x0000_00FF;

/// What a font is loaded with.
pub struct LoadedFont {
    /// What the feature string asks for.
    pub settings: FontSettings,
    /// The warnings about the tokens of the feature string that spell
    /// nothing.
    pub warnings: Vec<ParseWarning>,
    /// The engine that the font gets.
    pub engine: EngineChoice,
    /// The shapers that the font's plans are to be made with, the
    /// preferred one first.
    pub shapers: Vec<Vec<u8>>,
    /// The colour of the font as 0xRRGGBBAA.
    pub rgb_value: u32,
    /// The flags of the font.
    pub flags: u8,
}

/// The face that is asked for features of its own while the feature
/// string is read: that of a font for which the Graphite engine is
/// configured.
pub open spec fn lookup_face<'a>(face: FaceRef<'a>, configured: Engine) -> Option<
    &'a graphite2::Face,
> {
    if configured == Engine::Graphite && face.face.graphite.is_some() {
        Some(&face.face.graphite.unwrap())
    } else {
        None
    }
}

/// The shapers that plans are to be made with: the one that the font asks
/// for, if any, then the engine's own, which the platform's services do
/// not have.
pub open spec fn shaper_names(shaper_override: Option<Seq<u8>>, engine: Engine) -> Seq<Seq<u8>> {
    let first = match shaper_override {
        Some(name) => seq![name],
        None => Seq::empty(),
    };
    match engine {
        Engine::OpenType => first.push(SHAPER_OT@),
        Engine::Graphite => first.push(SHAPER_GRAPHITE2@),
        _ => first,
    }
}

/// The flags of a font with the given settings.
pub open spec fn font_flags(colored: bool, vertical: bool) -> u8 {
    ((if colored {
        FONT_FLAGS_COLORED as int
    } else {
        0int
    }) + (if vertical {
        FONT_FLAGS_VERTICAL as int
    } else {
        0int
    })) as u8
}

/// Whether one of the directives asks for something of the OpenType
/// engine.
pub open spec fn any_asks_opentype(ds: Seq<DirectiveView>) -> bool {
    exists|i: int| 0 <= i < ds.len() && asks_opentype(#[trigger] ds[i])
}

/// Loads a font: reads its feature string, which may be missing, settles
/// what it asks for, chooses the engine and lists the shapers. The colour
/// is the one asked for, or the default; the flags say whether a colour
/// was asked for and whether the font is set vertically.
#[allow(non_snake_case)]
pub fn loadOTfont(
    features: Option<&[u8]>,
    face: FaceRef<'_>,
    configured: Engine,
    platform_native: bool,
) -> (r: LoadedFont)
    ensures
        ({
            let outcomes = match features {
                Some(f) => parse_outcomes(f@, lookup_face(face, configured)),
                None => Seq::empty(),
            };
            let settings = settings_of(directives_of(outcomes));
            &&& r.settings@ == settings
            &&& r.warnings@ == warnings_of(outcomes)
            &&& r.engine == resolved_engine(
                requested_engine(configured, settings.shaper),
                platform_native,
                any_asks_opentype(directives_of(outcomes)),
                face.face.graphite.is_some(),
            )
            &&& name_views(r.shapers@) == shaper_names(settings.shaper, r.engine.engine)
            &&& r.rgb_value == (match settings.color {
                Some(c) => c,
                None => DEFAULT_RGB,
            })
            &&& r.flags == font_flags(settings.color.is_some(), settings.vertical)
        }),
{
    let lookup = if matches!(configured, Engine::Graphite) {
        face.gr_face()
    } else {
        None
    };
    let out = match features {
        Some(f) => parse_with(f, lookup),
        None => {
            let empty = ParseOutput { directives: Vec::new(), warnings: Vec::new() };
            assert(directive_views(empty.directives@) =~= directives_of(Seq::empty()));
            assert(empty.warnings@ =~= warnings_of(Seq::empty()));
            empty
        },
    };
    let settings = resolve(out.directives.as_slice());
    let asks = has_opentype_directive(out.directives.as_slice());
    proof {
        let ds = directive_views(out.directives@);
        if asks {
            let i = choose|i: int|
                0 <= i < out.directives@.len() && asks_opentype(#[trigger] out.directives@[i]@);
            assert(asks_opentype(ds[i]));
        } else {
            assert forall|i: int| 0 <= i < ds.len() implies !asks_opentype(#[trigger] ds[i]) by {
                assert(ds[i] == out.directives@[i]@);
            }
        }
    }
    let engine = match &settings.shaper {
        Some(name) => select_engine(
            configured,
            Some(name.as_slice()),
            platform_native,
            asks,
            face.face.graphite.is_some(),
        ),
        None => select_engine(configured, None, platform_native, asks, face.face.graphite.is_some()),
    };
    let mut shapers: Vec<Vec<u8>> = Vec::new();
    match &settings.shaper {
        Some(name) => {
            shapers.push(copy_bytes(name));
        },
        None => {},
    }
    match engine.engine {
        Engine::OpenType => {
            shapers.push(vstd::slice::slice_to_vec(vstd::array::array_as_slice(&SHAPER_OT)));
        },
        Engine::Graphite => {
            shapers.push(vstd::slice::slice_to_vec(vstd::array::array_as_slice(&SHAPER_GRAPHITE2)));
        },
        _ => {},
    }
    assert(name_views(shapers@) =~= shaper_names(settings@.shaper, engine.engine));
    let rgb_value: u32 = match settings.color {
        Some(c) => c,
        None => DEFAULT_RGB,
    };
    let mut flags: u8 = 0;
    if settings.color.is_some() {
        flags = flags + FONT_FLAGS_COLORED;
    }
    if settings.vertical {
        flags = flags + FONT_FLAGS_VERTICAL;
    }
    LoadedFont { settings, warnings: out.warnings, engine, shapers, rgb_value, flags }
}

} // verus!
