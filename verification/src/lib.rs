//! A non-linear audio recording session manager: the operator records
//! discrete takes ("segments"), reviews each take, approves or rejects it,
//! and may retry, insert, or delete segments anywhere in an ordered timeline
//! before flattening the timeline into a single output stream.
//!
//! The session logic never interprets amplitude values, so samples are held
//! as the raw bit patterns of 32-bit float amplitudes. The audio front end
//! converts at the boundary.

pub mod laws;
pub mod state;
