//! Spaced-repetition note and card logic: cloze syntax, card matching, overlapping
//! cloze sequences and sibling dispersal, with the behaviour of each part stated as
//! a contract and checked by Verus.

pub mod disperse;
pub mod files;
pub mod fsrs;
pub mod error;
pub mod cache;
pub mod cards;
pub mod text;
pub mod text_num;
pub mod typst_data;
pub mod clozes;
pub mod image_occlusion;
pub mod notes;
pub mod model;
pub mod parsers;
pub mod paths;
pub mod schedulers;
pub mod schema;
