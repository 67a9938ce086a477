//! A parser for CUE sheets: the plain-text table of contents of an optical
//! disc. Parsing turns the text into an immutable description of the disc,
//! its tracks, their sector timing, their CD-TEXT packs and their comments.

pub mod builder;
pub mod cd;
pub mod cd_text;
pub mod lexer;
pub mod rem;
pub mod timecode;
pub mod track;
