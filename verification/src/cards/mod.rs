//! Cards: what a note is split into, and how cards are matched and checked.

pub mod assemble;
pub mod data;
pub mod match_cards;
pub mod overlapper;
pub mod read;
pub mod validation;
