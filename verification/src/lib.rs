//! Verified core of a CUE-sheet splitting tool: a line-oriented CUE-sheet
//! parser with scoped grammar (global, disc, track), quoted-string and
//! time-code value parsing, together with the encoding presets and the
//! file-name template scanner used around it.

pub mod cue;
pub mod preset;
pub mod template;
pub mod text;
