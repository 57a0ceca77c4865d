//! Summary statistics for a small clinical study, and the order of the
//! slides that present them.
//!
//! Three comma-separated tables are read: blood-pressure and heart-rate
//! measurements, medication doses, and clinical-impression scores. Rows
//! that cannot be read are left out; nothing here fails on malformed text.
//! Measurements are folded into six cells, one for each position and phase,
//! from which truncating averages and the lying-to-standing pressure drop
//! are derived. Impression scores are counted into a histogram.
//!
//! Text is modelled as `Seq<char>`, and every function is specified against
//! that model.

pub mod category;
pub mod histogram;
pub mod number;
pub mod patients;
pub mod records;
pub mod routes;
pub mod stats;
pub mod text;
