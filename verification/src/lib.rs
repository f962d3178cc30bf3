//! Font-feature parsing, shaping-backend selection, line-break iteration and
//! the scaled arithmetic of a XeTeX-style typesetting engine, with every
//! function specified and proved.

pub mod auxi;
pub mod bytes;
pub mod features;
pub mod font_load;
pub mod font_name;
pub mod graphite2;
pub mod harfbuzz;
pub mod icu;
pub mod linebreak;
pub mod mapping;
pub mod metrics;
pub mod output;
pub mod scaled_math;
pub mod settings;
pub mod shaping;
