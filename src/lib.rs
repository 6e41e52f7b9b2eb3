//! Compiles the `by(...)` attribute language of UI-automation components into
//! lookup-strategy construction expressions.

pub mod text;
pub mod token;
pub mod error;
pub mod parse;
pub mod bag;
pub mod resolver;
pub mod emit;
pub mod component;
pub mod laws;

