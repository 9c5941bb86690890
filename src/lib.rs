//! Voice activity detection for streams of mu-law telephony frames.
//!
//! Each session owns a frame store, a speech detector, a pause detector and a
//! clip-boundary state machine; the decisions of all of them are verified.

pub mod decoder;
pub mod detector;
pub mod machine;
pub mod store;
pub mod assembler;
pub mod session;
pub mod envelope;
