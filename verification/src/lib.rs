//! Client-side logic for a radiation-dosage measurement service.
//!
//! The library validates numeric command-line inputs, builds the JSON
//! document submitted to the service, and renders the measurement list
//! that the service returns.  Transport is left to the caller; every
//! function here is pure computation over plain values.

pub mod body;
pub mod cli;
pub mod entry;
pub mod num;
pub mod response;
pub mod text;
