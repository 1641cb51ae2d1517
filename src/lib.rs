//! Refines a line-oriented Chinese–English dictionary into structured senses.
//!
//! Each line `TRAD SIMP [TRANSCRIPTION] /gloss/gloss/.../` is parsed into a
//! record; records are grouped by simplified headword; each gloss is either a
//! preprocessing form (multi-target abbreviation, alternate written form,
//! alternate pronunciation, classifier list) or classified into one sense by
//! an ordered list of rules. Transcriptions are turned into accented
//! pronunciation through a syllable table.
//!
//! Every function here is verified against a contract stated over the
//! character sequences of its inputs and results.
pub mod annotate;
pub mod characters;
pub mod models;
pub mod pinyin;
pub mod record;
pub mod refine;
pub mod tables;
pub mod text;

pub use vstd::hash_map::StringHashMap;
pub use vstd::hash_set::StringHashSet;
