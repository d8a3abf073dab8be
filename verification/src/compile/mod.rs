//! The compiler: configuration to resolved object graph.
//!
//! ```text
//!   text ──parse──▶ RawConfig ──resolve──▶ CompiledConfig ──▶ Engine
//! ```
//! The runtime never consults the configuration text after startup; it runs the
//! graph that [`resolve::resolve`] produces.

pub mod assemble;
pub mod ast;
pub mod diagnostic;
pub mod lower;
pub mod resolve;
pub mod laws;
pub mod sound;
