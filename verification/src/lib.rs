//! A stylesheet parser and a box-model layout engine, with the document and
//! style types around them.
//!
//! - [`css`] holds the value model of a stylesheet, [`css_parser`] the
//!   parser that reads one from text.
//! - [`dom`] holds the document tree, [`style`] the styled nodes that layout
//!   reads.
//! - [`layout`] turns a tree of styled nodes into a tree of positioned
//!   boxes.
//! - [`text`] holds what the others share: character classes, whole numbers
//!   in decimal, and the string operations that are taken on trust.
//!
//! All numbers are whole: lengths and geometry are `i64` pixels, colour
//! channels are bytes.

pub mod css;
pub mod css_parser;
pub mod dom;
pub mod layout;
pub mod style;
pub mod text;
