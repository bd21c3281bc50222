//! A document-transformation filter: it walks a JSON-like document tree,
//! finds code blocks marked with the diagram language tag, renders each
//! one through the external diagram renderer, and replaces the node with
//! inline markup or an image link according to the chosen embedding mode.
pub mod convert;
pub mod doc;
pub mod plugin;
pub mod render;
pub mod strategy;
pub mod text;
