//! The Graphite shaping backend as the engine sees it: the features that a
//! face offers, their settings and the labels that name them.

use vstd::prelude::*;
use crate::bytes::copy_bytes;

verus! {

/// The text of a label, in UTF-8.
#[derive(Clone, Debug, PartialEq, Eq)]
pub struct Label(pub Vec<u8>);

impl View for Label {
    type V = Seq<u8>;

    open spec fn view(&self) -> Seq<u8> {
        self.0@
    }
}

impl Label {
    /// The label's bytes.
    pub fn as_bytes(&self) -> (r: &[u8])
        ensures
            r@ == self@,
    {
        self.0.as_slice()
    }

    /// Gives up the label for its bytes.
    pub fn into_raw(self) -> (r: Vec<u8>)
        ensures
            r@ == self@,
    {
        self.0
    }
}

/// One setting of a feature: the value that selects it and its label.
#[derive(Clone, Debug, PartialEq, Eq)]
pub struct FeatureSetting {
    pub value: i16,
    pub label: Vec<u8>,
}

/// A feature that a face offers.
#[derive(Clone, Debug, PartialEq, Eq)]
pub struct FeatureRef {
    pub id: u32,
    pub label: Vec<u8>,
    pub settings: Vec<FeatureSetting>,
}

/// The language in which the labels of a face are held: US English.
pub const LABEL_LANGUAGE: u16 = 0x409;

impl FeatureRef {
    /// The feature's identifier.
    pub fn id(&self) -> (r: u32)
        ensures
            r == self.id,
    {
        self.id
    }

    /// How many settings the feature has.
    pub fn num_values(&self) -> (r: usize)
        ensures
            r == self.settings@.len(),
    {
        self.settings.len()
    }

    /// The value of the setting at `idx`, or 0 where there is none.
    pub fn value(&self, idx: usize) -> (r: i16)
        ensures
            idx < self.settings@.len() ==> r == self.settings@[idx as int].value,
            idx >= self.settings@.len() ==> r == 0,
    {
        if idx < self.settings.len() {
            self.settings[idx].value
        } else {
            0
        }
    }

    /// The feature's label. Labels are held in one language, whatever is
    /// asked for.
    pub fn label(&self, lang_id: u16) -> (r: Option<Label>)
        ensures
            r.is_some(),
            r.unwrap()@ == self.label@,
    {
        Some(Label(copy_bytes(&self.label)))
    }

    /// The label of the setting at `idx`, if there is one.
    pub fn value_label(&self, idx: usize, lang_id: u16) -> (r: Option<Label>)
        ensures
            r.is_some() == (idx < self.settings@.len()),
            r.is_some() ==> r.unwrap()@ == self.settings@[idx as int].label@,
    {
        if idx < self.settings.len() {
            Some(Label(copy_bytes(&self.settings[idx].label)))
        } else {
            None
        }
    }

    /// The value that `feat` holds for this feature: that of the first
    /// entry for the feature's identifier, or 0 where there is none.
    pub fn feat_value(&self, feat: &FeatureVal) -> (r: u16)
        ensures
            r == feat.value_of(self.id),
    {
        let mut i: usize = 0;
        while i < feat.entries.len()
            invariant
                i <= feat.entries@.len(),
                first_entry(feat.entries@, self.id, i as int) == first_entry(
                    feat.entries@,
                    self.id,
                    0,
                ),
            decreases feat.entries@.len() - i,
        {
            if feat.entries[i].0 == self.id {
                return feat.entries[i].1;
            }
            i += 1;
        }
        0
    }

    /// Sets this feature to `value` in `feat`. Only the values of the
    /// feature's own settings are accepted.
    pub fn set_feat_value(&self, feat: &mut FeatureVal, value: u16) -> (r: Result<(), ()>)
        ensures
            r.is_ok() == self.offers(value),
            r.is_ok() ==> final(feat).entries@ == seq![(self.id, value)] + old(feat).entries@,
            r.is_ok() ==> final(feat).value_of(self.id) == value,
            r.is_err() ==> *final(feat) == *old(feat),
    {
        let mut i: usize = 0;
        while i < self.settings.len()
            invariant
                i <= self.settings@.len(),
                forall|j: int| 0 <= j < i ==> (#[trigger] self.settings@[j]).value != value,
                *feat == *old(feat),
            decreases self.settings@.len() - i,
        {
            if self.settings[i].value >= 0 && self.settings[i].value as u16 == value {
                feat.entries.insert(0, (self.id, value));
                return Ok(());
            }
            i += 1;
        }
        Err(())
    }

    /// Whether one of the feature's settings has the value `value`.
    pub open spec fn offers(&self, value: u16) -> bool {
        exists|j: int| 0 <= j < self.settings@.len() && (#[trigger] self.settings@[j]).value == value
    }
}

/// The first entry for `id` at or after `from`: its value, or 0 where
/// there is none.
pub open spec fn first_entry(entries: Seq<(u32, u16)>, id: u32, from: int) -> u16
    decreases entries.len() - from,
{
    if from < 0 || from >= entries.len() {
        0
    } else if entries[from].0 == id {
        entries[from].1
    } else {
        first_entry(entries, id, from + 1)
    }
}

/// A choice of feature values: pairs of a feature's identifier and the
/// value chosen for it, the newest first.
#[derive(Clone, Debug, PartialEq, Eq)]
pub struct FeatureVal {
    pub entries: Vec<(u32, u16)>,
}

impl FeatureVal {
    /// The value chosen for the feature `id`, or 0 where none was.
    pub open spec fn value_of(&self, id: u32) -> u16 {
        first_entry(self.entries@, id, 0)
    }

}

/// A choice of feature values that its holder owns.
#[derive(Clone, Debug, PartialEq, Eq)]
pub struct OwnFeatureVal(pub FeatureVal);

/// A face with Graphite tables: the features that it offers.
#[derive(Clone, Debug, PartialEq, Eq)]
pub struct Face {
    pub features: Vec<FeatureRef>,
}

/// The first feature at or after `from` whose identifier is `id`.
pub open spec fn first_with_id(features: Seq<FeatureRef>, id: u32, from: int) -> Option<int>
    decreases features.len() - from,
{
    if from < 0 || from >= features.len() {
        None
    } else if features[from].id == id {
        Some(from)
    } else {
        first_with_id(features, id, from + 1)
    }
}

impl Face {
    /// How many features the face offers.
    pub fn num_feature_refs(&self) -> (r: usize)
        ensures
            r == self.features@.len(),
    {
        self.features.len()
    }

    /// The feature at `idx`, if there is one.
    pub fn feature_ref(&self, idx: usize) -> (r: Option<&FeatureRef>)
        ensures
            r.is_some() == (idx < self.features@.len()),
            r.is_some() ==> *r.unwrap() == self.features@[idx as int],
    {
        if idx < self.features.len() {
            Some(&self.features[idx])
        } else {
            None
        }
    }

    /// The first feature with the identifier `feat_id`, if there is one.
    pub fn find_feature_ref(&self, feat_id: u32) -> (r: Option<&FeatureRef>)
        ensures
            r.is_some() == first_with_id(self.features@, feat_id, 0).is_some(),
            r.is_some() ==> *r.unwrap() == self.features@[first_with_id(
                self.features@,
                feat_id,
                0,
            ).unwrap()],
    {
        let mut i: usize = 0;
        while i < self.features.len()
            invariant
                i <= self.features@.len(),
                first_with_id(self.features@, feat_id, i as int) == first_with_id(
                    self.features@,
                    feat_id,
                    0,
                ),
            decreases self.features@.len() - i,
        {
            if self.features[i].id == feat_id {
                return Some(&self.features[i]);
            }
            i += 1;
        }
        None
    }

    /// A choice of feature values with nothing chosen: each feature at its
    /// default.
    pub fn feature_val_for_lang(&self, lang: u32) -> (r: OwnFeatureVal)
        ensures
            r.0.entries@.len() == 0,
    {
        OwnFeatureVal(FeatureVal { entries: Vec::new() })
    }
}

} // verus!
