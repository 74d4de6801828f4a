//! Verified core of the martin splat-demo engine: the integer, string and byte-level logic
//! behind the renderer (Morton resampling, the procedural-splat PRNG and L-system, the CLI and
//! show-knob parsers, the WAV encoder, the streamed-audio cursor, the bundled-asset archive, the
//! capture state machines and the MCP server's decisions).

pub mod morton;
pub mod splats;
pub mod text;
pub mod split;
pub mod modes;
pub mod cli;
pub mod bytes;
pub mod ply;
pub mod archive;
pub mod bundle;
pub mod stream;
pub mod wav;
pub mod capture;
pub mod post;
pub mod mcp;
pub mod bench;
pub mod envvar;
pub mod hash;
