//! Turns a recorded GPS track into a finished vector graphic: computes trip
//! statistics (distance, speed, elevation gain, moving time) from raw
//! trackpoints, then stamps those values, a generated elevation-profile
//! path and a map thumbnail into a designer-authored SVG template by
//! matching element identifiers.
//!
//! All geometric and temporal quantities are carried as scaled integers:
//! distances and elevations in millimetres, times in whole seconds,
//! template user-space coordinates in micro-units (the value times one
//! million), and exact rationals where a scale factor must stay exact.
//! Callers that obtain measurements in floating point convert at the
//! boundary. Text, names and documents are carried as UTF-8 bytes.
pub mod bytes;
pub mod color;
pub mod context;
pub mod engine;
pub mod fmt;
pub mod maphref;
pub mod metrics;
pub mod name;
pub mod num;
pub mod path;
pub mod template;
pub mod templates;
pub mod tok;
pub mod track;

pub use context::Context;
pub use path::InputPath;
pub use template::Template;
pub use templates::EmbeddedTemplate;
pub use templates::get_template_by_name;
pub use templates::get_templates;
