//! Translates a sequence of command-line tokens describing a video-editing
//! intent — resize, quality, merge, preview, output path — into an ordered
//! invocation of an external media-transcoding tool.
//!
//! The pipeline has two verified stages: a token-cursor-driven argument
//! parser whose contract is a recursive grammar over `Seq<char>` tokens, and
//! a command compiler whose contract pins the emitted argument list character
//! for character, including the quality-to-rate-control curve and the
//! filter-graph fragment for multi-clip concatenation.

pub mod builder;
pub mod cli;
pub mod parser;
pub mod recursive_descent_parser;
pub mod text;
