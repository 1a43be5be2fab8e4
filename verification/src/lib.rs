//! Detection of words that repeat within a short character distance in prose.
//!
//! A document arrives as an ordered stream of tokens.  Tokens that survive the
//! configured exclusions are grouped by word identity, every occurrence is scored
//! by the gap to its nearest sibling, and the whole stream is rendered as markup
//! in which the occurrences that lie too close to a sibling are flagged.

pub mod model;
pub mod escape;
pub mod filter;
pub mod index;
pub mod score;
pub mod render;
pub mod pipeline;
pub mod source;
pub mod cache;
pub mod lexicon;
