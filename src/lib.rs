//! Resolves a filename-like query into an image source: a fuzzy matcher over a
//! local corpus of named files, a tiered extractor of image URLs from a search
//! page, and the decisions of the delivery loop that tries candidates in rank
//! order until one is delivered.

pub mod text;
pub mod normalize;
pub mod matcher;
pub mod extract;
pub mod fetch;
pub mod delivery;
pub mod inline;
pub mod commands;
