//! A scanner for a Lua-family scripting language: it turns source text into a
//! flat sequence of tokens, one pull at a time.

pub mod laws;
pub mod lex;
pub mod model;
