//! Notes: their settings strings, read into actions, tags, keywords and custom data.

pub mod collect;
pub mod json;
pub mod lists;
pub mod settings;
