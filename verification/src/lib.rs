//! Verified text, colour and bitmap logic of a slide rendering engine.
pub mod char_seq;
pub mod color_syntax;
pub mod text_class;
pub mod wrap_units;
pub mod vertical_tokens;
pub mod bitmap;
pub mod text_box;
pub mod paragraph;
pub mod ast;
pub mod shape_style;
pub mod font_catalog;
pub mod explicit_wrap;
