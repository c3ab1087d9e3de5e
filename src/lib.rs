//! Streaming decoder for a top-level JSON array: walks the bytes of
//! `[ elem, elem, ... ]` forward only and hands each element to a
//! single-value JSON decoder.
//!
//! - `cursor`: forward-only byte access that skips ASCII whitespace.
//! - `value_decoder`: the single-value decoder (serde_json's stream decoder),
//!   trusted to consume exactly the bytes of one value; the walk resumes right
//!   after the bytes it reports consumed.
//! - `walker`: the array state machine, its step model and a whole-array walk.
//! - `laws`: what holds of successive calls: a well-formed array yields its
//!   elements in order and then only the end; nothing follows an end or error.

pub mod cursor;
pub mod value_decoder;
pub mod walker;
pub mod laws;
