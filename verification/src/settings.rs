//! What the directives of a feature string come to: the settings that a
//! font is loaded with.
//!
//! The order of the directives decides: a later directive of a kind
//! replaces an earlier one of that kind, except for the features, which
//! are gathered in their order.

use vstd::prelude::*;
use crate::bytes::copy_bytes;
use crate::features::Decimal;
use crate::features::DecimalView;
use crate::features::DirectiveView;
use crate::features::FeatureDirective;
use crate::features::StyleKind;
use crate::features::StyleValue;
use crate::features::StyleValueView;
use crate::features::directive_views;
use crate::harfbuzz::Feature;
use crate::harfbuzz::Tag;

verus! {

/// The settings that a font is loaded with.
#[derive(Clone, Debug, PartialEq, Eq)]
pub struct FontSettings {
    /// The script to shape for; the tag 0 where none was given.
    pub script: Tag,
    pub language: Option<Vec<u8>>,
    pub shaper: Option<Vec<u8>>,
    pub mapping: Option<Vec<u8>>,
    /// The features, in the order in which they were given.
    pub features: Vec<Feature>,
    pub extend: Option<Decimal>,
    pub slant: Option<Decimal>,
    pub embolden: Option<Decimal>,
    pub letterspace: Option<Decimal>,
    /// The colour as 0xRRGGBBAA.
    pub color: Option<u32>,
    pub vertical: bool,
}

/// The mathematical content of a [`FontSettings`].
pub struct FontSettingsView {
    pub script: Tag,
    pub language: Option<Seq<u8>>,
    pub shaper: Option<Seq<u8>>,
    pub mapping: Option<Seq<u8>>,
    pub features: Seq<Feature>,
    pub extend: Option<DecimalView>,
    pub slant: Option<DecimalView>,
    pub embolden: Option<DecimalView>,
    pub letterspace: Option<DecimalView>,
    pub color: Option<u32>,
    pub vertical: bool,
}

/// The view of an optional byte string.
pub open spec fn bytes_view(v: Option<Vec<u8>>) -> Option<Seq<u8>> {
    match v {
        Some(b) => Some(b@),
        None => None,
    }
}

/// The view of an optional number.
pub open spec fn number_view(v: Option<Decimal>) -> Option<DecimalView> {
    match v {
        Some(d) => Some(d@),
        None => None,
    }
}

impl View for FontSettings {
    type V = FontSettingsView;

    open spec fn view(&self) -> FontSettingsView {
        FontSettingsView {
            script: self.script,
            language: bytes_view(self.language),
            shaper: bytes_view(self.shaper),
            mapping: bytes_view(self.mapping),
            features: self.features@,
            extend: number_view(self.extend),
            slant: number_view(self.slant),
            embolden: number_view(self.embolden),
            letterspace: number_view(self.letterspace),
            color: self.color,
            vertical: self.vertical,
        }
    }
}

/// A feature for the whole of a run.
pub open spec fn whole_run(tag: Tag, value: u32) -> Feature {
    Feature { tag, value, start: 0, end: u32::MAX }
}

/// The settings before any directive: nothing is set.
pub open spec fn no_settings() -> FontSettingsView {
    FontSettingsView {
        script: Tag(0),
        language: None,
        shaper: None,
        mapping: None,
        features: Seq::empty(),
        extend: None,
        slant: None,
        embolden: None,
        letterspace: None,
        color: None,
        vertical: false,
    }
}

/// The settings after one more directive. A feature is added to the
/// features; anything else takes the place of what was set before.
pub open spec fn with_directive(s: FontSettingsView, d: DirectiveView) -> FontSettingsView {
    match d {
        DirectiveView::Script(tag) => FontSettingsView { script: tag, ..s },
        DirectiveView::Language(name) => FontSettingsView { language: Some(name), ..s },
        DirectiveView::ShaperOverride(name) => FontSettingsView { shaper: Some(name), ..s },
        DirectiveView::Mapping(name) => FontSettingsView { mapping: Some(name), ..s },
        DirectiveView::NumericFeature { tag, value } => FontSettingsView {
            features: s.features.push(whole_run(tag, value)),
            ..s
        },
        DirectiveView::BooleanToggle { tag, enabled } => FontSettingsView {
            features: s.features.push(
                whole_run(
                    tag,
                    if enabled {
                        1
                    } else {
                        0
                    },
                ),
            ),
            ..s
        },
        DirectiveView::StyleAdjust { kind, value } => match value {
            StyleValueView::Rgba(c) => FontSettingsView { color: Some(c), ..s },
            StyleValueView::Number(n) => match kind {
                StyleKind::Extend => FontSettingsView { extend: Some(n), ..s },
                StyleKind::Slant => FontSettingsView { slant: Some(n), ..s },
                StyleKind::Embolden => FontSettingsView { embolden: Some(n), ..s },
                StyleKind::Letterspace => FontSettingsView { letterspace: Some(n), ..s },
                StyleKind::Color => s,
            },
        },
        DirectiveView::VerticalFlag => FontSettingsView { vertical: true, ..s },
    }
}

/// The settings that a run of directives comes to.
pub open spec fn settings_of(ds: Seq<DirectiveView>) -> FontSettingsView
    decreases ds.len(),
{
    if ds.len() == 0 {
        no_settings()
    } else {
        with_directive(settings_of(ds.drop_last()), ds.last())
    }
}

/// A later directive replaces an earlier one of its kind, and features
/// gather: whatever came before, after a directive the setting of its kind
/// is the one that it gives, a feature stands last among the features, and
/// no setting of another kind has changed.
pub proof fn lemma_later_directive_wins(ds: Seq<DirectiveView>, d: DirectiveView)
    ensures
        settings_of(ds.push(d)) == with_directive(settings_of(ds), d),
        d matches DirectiveView::Script(tag) ==> settings_of(ds.push(d)).script == tag,
        d matches DirectiveView::Language(name) ==> settings_of(ds.push(d)).language == Some(name),
        d matches DirectiveView::ShaperOverride(name) ==> settings_of(ds.push(d)).shaper == Some(
            name,
        ),
        d matches DirectiveView::NumericFeature { tag, value } ==> settings_of(
            ds.push(d),
        ).features == settings_of(ds).features.push(whole_run(tag, value)),
        d matches DirectiveView::BooleanToggle { tag, enabled } ==> settings_of(
            ds.push(d),
        ).features.len() == settings_of(ds).features.len() + 1,
        !(d is NumericFeature) && !(d is BooleanToggle) ==> settings_of(ds.push(d)).features
            == settings_of(ds).features,
        d is VerticalFlag ==> settings_of(ds.push(d)).vertical,
{
    assert(ds.push(d).drop_last() =~= ds);
}

/// A copy of a number.
pub fn copy_decimal(d: &Decimal) -> (r: Decimal)
    ensures
        r@ == d@,
{
    Decimal {
        negative: d.negative,
        int_digits: copy_bytes(&d.int_digits),
        frac_digits: copy_bytes(&d.frac_digits),
    }
}

impl FontSettings {
    /// The settings with nothing set.
    pub fn new() -> (r: FontSettings)
        ensures
            r@ == no_settings(),
    {
        FontSettings {
            script: Tag(0),
            language: None,
            shaper: None,
            mapping: None,
            features: Vec::new(),
            extend: None,
            slant: None,
            embolden: None,
            letterspace: None,
            color: None,
            vertical: false,
        }
    }

    /// Takes one more directive into the settings.
    pub fn apply(&mut self, d: &FeatureDirective)
        ensures
            final(self)@ == with_directive(old(self)@, d@),
    {
        match d {
            FeatureDirective::Script(tag) => {
                self.script = *tag;
            },
            FeatureDirective::Language(name) => {
                self.language = Some(copy_bytes(name));
            },
            FeatureDirective::ShaperOverride(name) => {
                self.shaper = Some(copy_bytes(name));
            },
            FeatureDirective::Mapping(name) => {
                self.mapping = Some(copy_bytes(name));
            },
            FeatureDirective::NumericFeature { tag, value } => {
                self.features.push(Feature { tag: *tag, value: *value, start: 0, end: u32::MAX });
            },
            FeatureDirective::BooleanToggle { tag, enabled } => {
                let value: u32 = if *enabled { 1 } else { 0 };
                self.features.push(Feature { tag: *tag, value, start: 0, end: u32::MAX });
            },
            FeatureDirective::StyleAdjust { kind, value } => {
                match value {
                    StyleValue::Rgba(c) => {
                        self.color = Some(*c);
                    },
                    StyleValue::Number(n) => {
                        match kind {
                            StyleKind::Extend => {
                                self.extend = Some(copy_decimal(n));
                            },
                            StyleKind::Slant => {
                                self.slant = Some(copy_decimal(n));
                            },
                            StyleKind::Embolden => {
                                self.embolden = Some(copy_decimal(n));
                            },
                            StyleKind::Letterspace => {
                                self.letterspace = Some(copy_decimal(n));
                            },
                            StyleKind::Color => {},
                        }
                    },
                }
            },
            FeatureDirective::VerticalFlag => {
                self.vertical = true;
            },
        }
    }
}

/// The settings that a run of directives comes to: see [`settings_of`].
pub fn resolve(directives: &[FeatureDirective]) -> (r: FontSettings)
    ensures
        r@ == settings_of(directive_views(directives@)),
{
    let mut settings = FontSettings::new();
    let mut i: usize = 0;
    let ghost all = directive_views(directives@);
    assert(all.take(0) =~= Seq::<DirectiveView>::empty());
    while i < directives.len()
        invariant
            i <= directives@.len(),
            all == directive_views(directives@),
            settings@ == settings_of(all.take(i as int)),
        decreases directives@.len() - i,
    {
        settings.apply(&directives[i]);
        assert(all.take(i + 1).drop_last() =~= all.take(i as int));
        assert(all.take(i + 1).last() == directives@[i as int]@);
        i += 1;
    }
    assert(all.take(i as int) =~= all);
    settings
}

/// Whether a directive asks for something of the OpenType engine: a
/// script, a language or a feature.
pub open spec fn asks_opentype(d: DirectiveView) -> bool {
    d is Script || d is Language || d is NumericFeature || d is BooleanToggle
}

/// Whether one of the directives asks for something of the OpenType
/// engine.
pub fn has_opentype_directive(directives: &[FeatureDirective]) -> (r: bool)
    ensures
        r == exists|i: int|
            0 <= i < directives@.len() && asks_opentype(#[trigger] directives@[i]@),
{
    let mut i: usize = 0;
    while i < directives.len()
        invariant
            i <= directives@.len(),
            forall|j: int| 0 <= j < i ==> !asks_opentype(#[trigger] directives@[j]@),
        decreases directives@.len() - i,
    {
        let found = match &directives[i] {
            FeatureDirective::Script(_) => true,
            FeatureDirective::Language(_) => true,
            FeatureDirective::NumericFeature { .. } => true,
            FeatureDirective::BooleanToggle { .. } => true,
            _ => false,
        };
        if found {
            assert(asks_opentype(directives@[i as int]@));
            return true;
        }
        i += 1;
    }
    false
}

} // verus!
