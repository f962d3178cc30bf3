//! Choosing the shaping engine of a font, keeping the shape plans that
//! were made, and taking a run of text through the shaper.

use vstd::prelude::*;
use crate::harfbuzz::Buffer;
use crate::harfbuzz::BufferContentType;
use crate::harfbuzz::BufferRef;
use crate::harfbuzz::BufferView;
use crate::harfbuzz::FaceRef;
use crate::harfbuzz::Feature;
use crate::harfbuzz::GlyphInfo;
use crate::harfbuzz::GlyphPosition;
use crate::harfbuzz::PlanBuildFailed;
use crate::harfbuzz::SegmentProperties;
use crate::harfbuzz::SegmentPropertiesView;
use crate::harfbuzz::ShapePlan;
use crate::harfbuzz::Shaper;
use crate::harfbuzz::chosen_shaper;
use crate::harfbuzz::copy_props;
use crate::harfbuzz::list_view;
use crate::harfbuzz::name_views;
use crate::bytes::bytes_equal;
use crate::harfbuzz::shaper_by_name;
use crate::harfbuzz::shaper_named;
use crate::harfbuzz::utf16_items;

verus! {

/// The shaping engines that can be asked for.
#[derive(Copy, Clone, Debug, PartialEq, Eq, Structural)]
pub enum Engine {
    /// Whatever suits the platform and the font.
    Default,
    /// The OpenType layout tables of the face.
    OpenType,
    /// The Graphite tables of the face.
    Graphite,
    /// The platform's own font services.
    PlatformNative,
}

/// The engine that a font is loaded with, and whether a warning is due
/// because the engine asked for could not be had.
#[derive(Copy, Clone, Debug, PartialEq, Eq, Structural)]
pub struct EngineChoice {
    pub engine: Engine,
    pub fallback_warning: bool,
}

/// The engine asked for: the one that the font's own `shaper=` names where
/// it names the OpenType or the Graphite shaper, else the one that the
/// configuration names.
pub open spec fn requested_engine(configured: Engine, shaper_override: Option<Seq<u8>>) -> Engine {
    match shaper_override {
        Some(name) => match shaper_named(name) {
            Some(Shaper::OpenType) => Engine::OpenType,
            Some(Shaper::Graphite2) => Engine::Graphite,
            _ => configured,
        },
        None => configured,
    }
}

/// The engine that a request resolves to. The default is the platform's
/// own services where the platform has them and the font asks for nothing
/// of OpenType, else OpenType. Graphite is had only for a face with
/// Graphite tables; asked for without them it falls back to OpenType, with
/// a warning.
pub open spec fn resolved_engine(
    requested: Engine,
    platform_native: bool,
    opentype_directive: bool,
    face_has_graphite: bool,
) -> EngineChoice {
    match requested {
        Engine::Default => EngineChoice {
            engine: if platform_native && !opentype_directive {
                Engine::PlatformNative
            } else {
                Engine::OpenType
            },
            fallback_warning: false,
        },
        Engine::Graphite => if face_has_graphite {
            EngineChoice { engine: Engine::Graphite, fallback_warning: false }
        } else {
            EngineChoice { engine: Engine::OpenType, fallback_warning: true }
        },
        Engine::OpenType => EngineChoice { engine: Engine::OpenType, fallback_warning: false },
        Engine::PlatformNative => EngineChoice {
            engine: Engine::PlatformNative,
            fallback_warning: false,
        },
    }
}

/// The view of an optional name.
pub open spec fn optional_name(name: Option<&[u8]>) -> Option<Seq<u8>> {
    match name {
        Some(n) => Some(n@),
        None => None,
    }
}

/// Chooses the engine of a font: see [`requested_engine`] and
/// [`resolved_engine`].
pub fn select_engine(
    configured: Engine,
    shaper_override: Option<&[u8]>,
    platform_native: bool,
    opentype_directive: bool,
    face_has_graphite: bool,
) -> (r: EngineChoice)
    ensures
        r == resolved_engine(
            requested_engine(configured, optional_name(shaper_override)),
            platform_native,
            opentype_directive,
            face_has_graphite,
        ),
        r.engine != Engine::Default,
        r.engine == Engine::Graphite ==> face_has_graphite,
{
    let requested = match shaper_override {
        Some(name) => match shaper_by_name(name) {
            Some(Shaper::OpenType) => Engine::OpenType,
            Some(Shaper::Graphite2) => Engine::Graphite,
            _ => configured,
        },
        None => configured,
    };
    match requested {
        Engine::Default => EngineChoice {
            engine: if platform_native && !opentype_directive {
                Engine::PlatformNative
            } else {
                Engine::OpenType
            },
            fallback_warning: false,
        },
        Engine::Graphite => if face_has_graphite {
            EngineChoice { engine: Engine::Graphite, fallback_warning: false }
        } else {
            EngineChoice { engine: Engine::OpenType, fallback_warning: true }
        },
        Engine::OpenType => EngineChoice { engine: Engine::OpenType, fallback_warning: false },
        Engine::PlatformNative => EngineChoice {
            engine: Engine::PlatformNative,
            fallback_warning: false,
        },
    }
}

/// What a plan is made for and found by: the identity of the face, the
/// properties of the run, the features and the shapers asked for.
pub struct PlanKey {
    pub face_id: usize,
    pub props: SegmentPropertiesView,
    pub features: Seq<Feature>,
    pub shaper_list: Option<Seq<Seq<u8>>>,
}

/// The key of a plan.
pub open spec fn key_of(plan: ShapePlan) -> PlanKey {
    PlanKey {
        face_id: plan.face_id,
        props: plan.props@,
        features: plan.features@,
        shaper_list: plan.list(),
    }
}

/// The first plan at or after `from` that was made for `key`.
pub open spec fn first_plan(plans: Seq<ShapePlan>, key: PlanKey, from: int) -> Option<int>
    decreases plans.len() - from,
{
    if from < 0 || from >= plans.len() {
        None
    } else if key_of(plans[from]) == key {
        Some(from)
    } else {
        first_plan(plans, key, from + 1)
    }
}

/// A plan in a cache, by its place.
#[derive(Copy, Clone, Debug, PartialEq, Eq, Structural)]
pub struct PlanHandle(pub usize);

/// The plans that were made, each for a key of its own, and the count of
/// how many were made.
pub struct PlanCache {
    pub plans: Vec<ShapePlan>,
    pub built: usize,
}

/// What asking a cache for the plan of a key does: where the cache holds a
/// plan for the key, it is handed out and nothing changes; else a plan is
/// made, put last and counted, unless none can be made, which is an error
/// that leaves the cache as it was.
pub open spec fn plan_step(
    before: Seq<ShapePlan>,
    built_before: int,
    key: PlanKey,
    has_graphite: bool,
    after: Seq<ShapePlan>,
    built_after: int,
    r: Result<PlanHandle, PlanBuildFailed>,
) -> bool {
    match first_plan(before, key, 0) {
        Some(i) => r == Ok::<PlanHandle, PlanBuildFailed>(PlanHandle(i as usize)) && after
            == before && built_after == built_before,
        None => match chosen_shaper(key.shaper_list, has_graphite) {
            Some(shaper) => {
                &&& r == Ok::<PlanHandle, PlanBuildFailed>(PlanHandle(before.len() as usize))
                &&& after.len() == before.len() + 1
                &&& after.take(before.len() as int) == before
                &&& key_of(after.last()) == key
                &&& after.last().shaper == shaper
                &&& built_after == built_before + 1
            },
            None => r.is_err() && after == before && built_after == built_before,
        },
    }
}

/// A plan that was handed out is handed out again: after a request that
/// gave a plan, the same request gives the same plan, makes none and
/// leaves the cache as it is.
pub proof fn lemma_plan_request_idempotent(
    c0: Seq<ShapePlan>,
    n0: int,
    key: PlanKey,
    has_graphite: bool,
    c1: Seq<ShapePlan>,
    n1: int,
    r1: Result<PlanHandle, PlanBuildFailed>,
    c2: Seq<ShapePlan>,
    n2: int,
    r2: Result<PlanHandle, PlanBuildFailed>,
)
    requires
        plan_step(c0, n0, key, has_graphite, c1, n1, r1),
        plan_step(c1, n1, key, has_graphite, c2, n2, r2),
        r1.is_ok(),
        c0.len() < usize::MAX,
    ensures
        r2 == r1,
        c2 == c1,
        n2 == n1,
{
    if first_plan(c0, key, 0).is_none() {
        lemma_first_plan_none(c0, key, 0);
        assert forall|i: int| 0 <= i < c1.len() - 1 implies key_of(#[trigger] c1[i]) != key by {
            assert(c1[i] == c1.take(c0.len() as int)[i]);
        }
        lemma_first_plan_appended(c1, key, 0);
    }
}

/// Whether no two plans of a cache were made for the same key.
pub open spec fn keys_distinct(plans: Seq<ShapePlan>) -> bool {
    forall|i: int, j: int|
        0 <= i < j < plans.len() ==> key_of(#[trigger] plans[i]) != key_of(#[trigger] plans[j])
}

/// A cache never holds two plans for one key: a request keeps the keys of
/// a cache distinct, so that a plan is made at most once for each key.
pub proof fn lemma_plan_built_once_per_key(
    c0: Seq<ShapePlan>,
    n0: int,
    key: PlanKey,
    has_graphite: bool,
    c1: Seq<ShapePlan>,
    n1: int,
    r: Result<PlanHandle, PlanBuildFailed>,
)
    requires
        keys_distinct(c0),
        plan_step(c0, n0, key, has_graphite, c1, n1, r),
    ensures
        keys_distinct(c1),
        n1 - n0 == c1.len() - c0.len(),
{
    if first_plan(c0, key, 0).is_none() && chosen_shaper(key.shaper_list, has_graphite).is_some() {
        lemma_first_plan_none(c0, key, 0);
        assert forall|i: int, j: int| 0 <= i < j < c1.len() implies key_of(#[trigger] c1[i])
            != key_of(#[trigger] c1[j]) by {
            assert(c1[i] == c1.take(c0.len() as int)[i]);
            if j < c0.len() {
                assert(c1[j] == c1.take(c0.len() as int)[j]);
            }
        }
    }
}

/// Where no plan is found, no plan has the key.
proof fn lemma_first_plan_none(plans: Seq<ShapePlan>, key: PlanKey, from: int)
    requires
        0 <= from <= plans.len(),
        first_plan(plans, key, from).is_none(),
    ensures
        forall|i: int| from <= i < plans.len() ==> key_of(#[trigger] plans[i]) != key,
    decreases plans.len() - from,
{
    if from < plans.len() {
        lemma_first_plan_none(plans, key, from + 1);
    }
}

/// Where only the last plan has the key, the last plan is the one found.
proof fn lemma_first_plan_appended(plans: Seq<ShapePlan>, key: PlanKey, from: int)
    requires
        plans.len() > 0,
        0 <= from < plans.len(),
        key_of(plans.last()) == key,
        forall|i: int| from <= i < plans.len() - 1 ==> key_of(#[trigger] plans[i]) != key,
    ensures
        first_plan(plans, key, from) == Some(plans.len() - 1),
    decreases plans.len() - from,
{
    if from < plans.len() - 1 {
        lemma_first_plan_appended(plans, key, from + 1);
    }
}

/// Whether two lists of features are the same.
fn same_features(a: &[Feature], b: &[Feature]) -> (r: bool)
    ensures
        r == (a@ == b@),
{
    if a.len() != b.len() {
        return false;
    }
    let mut i: usize = 0;
    while i < a.len()
        invariant
            i <= a@.len(),
            a@.len() == b@.len(),
            forall|j: int| 0 <= j < i ==> a@[j] == b@[j],
        decreases a@.len() - i,
    {
        if !(a[i].tag.0 == b[i].tag.0 && a[i].value == b[i].value && a[i].start == b[i].start
            && a[i].end == b[i].end) {
            return false;
        }
        i += 1;
    }
    assert(a@ =~= b@);
    true
}

/// Whether two lists of names are the same.
fn same_names(a: &[Vec<u8>], b: &[Vec<u8>]) -> (r: bool)
    ensures
        r == (name_views(a@) == name_views(b@)),
{
    if a.len() != b.len() {
        assert(name_views(a@).len() != name_views(b@).len());
        return false;
    }
    let mut i: usize = 0;
    while i < a.len()
        invariant
            i <= a@.len(),
            a@.len() == b@.len(),
            forall|j: int| 0 <= j < i ==> a@[j]@ == b@[j]@,
        decreases a@.len() - i,
    {
        if !bytes_equal(a[i].as_slice(), b[i].as_slice()) {
            assert(name_views(a@)[i as int] != name_views(b@)[i as int]);
            return false;
        }
        i += 1;
    }
    assert(name_views(a@) =~= name_views(b@));
    true
}

/// The key that a request asks with.
pub open spec fn request_key(
    face: FaceRef<'_>,
    props: &SegmentProperties,
    features: &[Feature],
    shaper_list: Option<&[Vec<u8>]>,
) -> PlanKey {
    PlanKey {
        face_id: face.face.id,
        props: props@,
        features: features@,
        shaper_list: list_view(shaper_list),
    }
}

/// Whether a plan was made for the key of a request.
fn plan_matches(
    plan: &ShapePlan,
    face: FaceRef<'_>,
    props: &SegmentProperties,
    features: &[Feature],
    shaper_list: Option<&[Vec<u8>]>,
) -> (r: bool)
    ensures
        r == (key_of(*plan) == request_key(face, props, features, shaper_list)),
{
    if plan.face_id != face.as_ptr() {
        return false;
    }
    let same_direction = match (plan.props.direction, props.direction) {
        (crate::harfbuzz::Direction::Invalid, crate::harfbuzz::Direction::Invalid) => true,
        (crate::harfbuzz::Direction::LeftToRight, crate::harfbuzz::Direction::LeftToRight) => true,
        (crate::harfbuzz::Direction::RightToLeft, crate::harfbuzz::Direction::RightToLeft) => true,
        (crate::harfbuzz::Direction::TopToBottom, crate::harfbuzz::Direction::TopToBottom) => true,
        (crate::harfbuzz::Direction::BottomToTop, crate::harfbuzz::Direction::BottomToTop) => true,
        _ => false,
    };
    if !same_direction || plan.props.script.0 != props.script.0 {
        return false;
    }
    if !bytes_equal(plan.props.language.0.as_slice(), props.language.0.as_slice()) {
        return false;
    }
    if !same_features(plan.features.as_slice(), features) {
        return false;
    }
    match (&plan.shaper_list, shaper_list) {
        (Some(a), Some(b)) => same_names(a.as_slice(), b),
        (None, None) => true,
        _ => false,
    }
}

impl PlanCache {
    /// A cache that holds no plan.
    pub fn new() -> (r: PlanCache)
        ensures
            r.plans@.len() == 0,
            r.built == 0,
    {
        PlanCache { plans: Vec::new(), built: 0 }
    }

    /// The plan for a face, the properties of a run, features and shapers:
    /// the one that the cache holds for them, or a new one, which the
    /// cache then holds. See [`plan_step`].
    pub fn get_or_build_plan(
        &mut self,
        face: FaceRef<'_>,
        props: &SegmentProperties,
        features: &[Feature],
        shaper_list: Option<&[Vec<u8>]>,
    ) -> (r: Result<PlanHandle, PlanBuildFailed>)
        requires
            old(self).built < usize::MAX,
        ensures
            plan_step(
                old(self).plans@,
                old(self).built as int,
                request_key(face, props, features, shaper_list),
                face.face.graphite.is_some(),
                final(self).plans@,
                final(self).built as int,
                r,
            ),
    {
        let ghost key = request_key(face, props, features, shaper_list);
        let mut i: usize = 0;
        while i < self.plans.len()
            invariant
                i <= self.plans@.len(),
                *self == *old(self),
                key == request_key(face, props, features, shaper_list),
                first_plan(self.plans@, key, i as int) == first_plan(self.plans@, key, 0),
            decreases self.plans@.len() - i,
        {
            if plan_matches(&self.plans[i], face, props, features, shaper_list) {
                return Ok(PlanHandle(i));
            }
            i += 1;
        }
        match ShapePlan::new(face, props, features, shaper_list) {
            Ok(plan) => {
                let ghost before = self.plans@;
                let handle = PlanHandle(self.plans.len());
                self.plans.push(plan);
                self.built = self.built + 1;
                assert(self.plans@.take(before.len() as int) =~= before);
                Ok(handle)
            },
            Err(e) => Err(e),
        }
    }

    /// The plan that a handle stands for, if the cache holds it.
    pub fn plan(&self, handle: PlanHandle) -> (r: Option<&ShapePlan>)
        ensures
            r.is_some() == (handle.0 < self.plans@.len()),
            r.is_some() ==> *r.unwrap() == self.plans@[handle.0 as int],
    {
        if handle.0 < self.plans.len() {
            Some(&self.plans[handle.0])
        } else {
            None
        }
    }
}

/// One glyph of a shaped run: which glyph, the place in the text that it
/// came from, how far it moves the pen and how far it is set off.
#[derive(Copy, Clone, Debug, PartialEq, Eq, Structural)]
pub struct Glyph {
    pub glyph_id: u32,
    pub cluster: u32,
    pub x_advance: i32,
    pub y_advance: i32,
    pub x_offset: i32,
    pub y_offset: i32,
}

/// The glyphs of a shaped run, in the order in which they are set.
#[derive(Clone, Debug, PartialEq, Eq)]
pub struct GlyphRun {
    pub glyphs: Vec<Glyph>,
}

/// Why a run could not be shaped.
#[derive(Copy, Clone, Debug, PartialEq, Eq, Structural)]
pub enum ShapeError {
    /// The shaper reported a failure, or left glyphs without positions.
    BackendRejected,
}

/// The glyph made of an item and its position.
pub open spec fn glyph_of(info: GlyphInfo, pos: GlyphPosition) -> Glyph {
    Glyph {
        glyph_id: info.codepoint,
        cluster: info.cluster,
        x_advance: pos.x_advance,
        y_advance: pos.y_advance,
        x_offset: pos.x_offset,
        y_offset: pos.y_offset,
    }
}

/// The glyphs made of the items of a buffer and their positions.
pub open spec fn glyphs_of(infos: Seq<GlyphInfo>, positions: Seq<GlyphPosition>) -> Seq<Glyph>
    recommends
        infos.len() == positions.len(),
{
    Seq::new(infos.len(), |i: int| glyph_of(infos[i], positions[i]))
}

/// Makes a buffer ready for the shaper: it holds the characters of `text`
/// and nothing else, and has the properties of the run.
pub fn prepare_buffer(buffer: &mut Buffer, props: &SegmentProperties, text: &[u16])
    requires
        text@.len() <= u32::MAX,
    ensures
        final(buffer)@ == (BufferView {
            content_type: BufferContentType::Unicode,
            props: props@,
            infos: utf16_items(text@, 0, text@.len() as int),
            positions: Seq::empty(),
        }),
{
    let copied = copy_props(props);
    let mut loan = buffer.as_mut();
    loan.reset();
    loan.add_utf16(text, 0, text.len());
    loan.set_direction(copied.direction);
    loan.set_script(copied.script);
    loan.set_language(copied.language);
    assert(Seq::<GlyphInfo>::empty() + utf16_items(text@, 0, text@.len() as int) =~= utf16_items(
        text@,
        0,
        text@.len() as int,
    ));
}

/// Takes the shaped run out of a buffer, given whether the shaper said
/// that it had shaped it. A failure of the shaper is an error, and so is a
/// buffer whose glyphs and positions do not pair up: no glyph is made up.
pub fn collect_run(buffer: BufferRef<'_>, executed: bool) -> (r: Result<GlyphRun, ShapeError>)
    ensures
        r.is_ok() == (executed && buffer.buffer@.infos.len() == buffer.buffer@.positions.len()),
        r.is_ok() ==> r.unwrap().glyphs@ == glyphs_of(
            buffer.buffer@.infos,
            buffer.buffer@.positions,
        ),
        r.is_err() ==> r.unwrap_err() == ShapeError::BackendRejected,
{
    let infos = buffer.get_glyph_info();
    let positions = buffer.get_glyph_position();
    if !executed || infos.len() != positions.len() {
        return Err(ShapeError::BackendRejected);
    }
    let mut glyphs: Vec<Glyph> = Vec::new();
    let mut i: usize = 0;
    while i < infos.len()
        invariant
            i <= infos@.len(),
            infos@.len() == positions@.len(),
            glyphs@ == glyphs_of(infos@, positions@).take(i as int),
        decreases infos@.len() - i,
    {
        glyphs.push(
            Glyph {
                glyph_id: infos[i].codepoint,
                cluster: infos[i].cluster,
                x_advance: positions[i].x_advance,
                y_advance: positions[i].y_advance,
                x_offset: positions[i].x_offset,
                y_offset: positions[i].y_offset,
            },
        );
        i += 1;
        assert(glyphs@ =~= glyphs_of(infos@, positions@).take(i as int));
    }
    assert(glyphs_of(infos@, positions@).take(i as int) =~= glyphs_of(infos@, positions@));
    Ok(GlyphRun { glyphs })
}

} // verus!
