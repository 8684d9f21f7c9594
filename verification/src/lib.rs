pub mod align;
pub mod attribute;
pub mod calls;
pub mod casing;
pub mod compose;
pub mod escape;
pub mod graphemes;
pub mod item;
pub mod kmp;
pub mod laws;
pub mod layout;
pub mod mapping;
pub mod number;
pub mod search;
pub mod serialize;
pub mod shape;
pub mod spacing;
pub mod strings;
pub mod text;
pub mod typesetting;
