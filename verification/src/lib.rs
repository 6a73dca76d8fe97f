//! Colour markup for terminal text.
//!
//! A short marker such as `$r` or `#B` inside a text stands for an ANSI colour
//! escape sequence. [`convert`] rewrites every marker of a text into its
//! sequence and copies everything else; [`paint`] puts the sequence of a colour
//! given by its full name in front of a text.
//!
//! Every function states its result over `Seq<char>`, the view of a string.

pub mod ansi;
pub mod laws;
pub mod markup;
pub mod palette;
pub mod text;

pub use markup::convert;
pub use palette::paint;
