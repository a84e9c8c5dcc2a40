//! An HTML-to-structured-document pipeline for spell descriptions: a
//! tree-building DOM that a standard HTML parser can drive, a transformer
//! that folds the DOM into a closed document tree over a fixed tag
//! vocabulary, a persisted form of that tree with a proved round trip, and
//! the filter logic that selects rows of the spell dataset.

pub mod codec;
pub mod dom;
pub mod filters;
pub mod spell;
pub mod table;
pub mod text;
pub mod transform;
pub mod util;
