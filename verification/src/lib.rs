//! A small template compiler: it turns a text template containing named
//! placeholders into a typed record description (one field per unique
//! placeholder) together with a render plan that substitutes field values
//! back into the template text.
//!
//! The pipeline is: argument validation, template loading, placeholder
//! extraction, field-set synthesis, and rendering. Every stage is a pure
//! function of its inputs, with a contract stating exactly what it returns.

pub mod args;
pub mod loader;
pub mod scan;
pub mod extract;
pub mod fields;
pub mod replace;
pub mod render;
pub mod pipeline;
