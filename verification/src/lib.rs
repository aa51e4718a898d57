//! Session negotiation between a browser peer and a media engine.
//!
//! The library holds the text-level model of a session description, the
//! parser of connectivity candidates, the rules by which gathered
//! candidates are inserted into a description, and the state machine that
//! sequences an offer or an answer. The media engine and the transport stay
//! outside: they hand in events and plain values, and carry out the actions
//! that the library asks for.

pub mod api;
pub mod domain;
pub mod error;
pub mod moz_ice;
pub mod negotiation;
pub mod number;
pub mod sdp;
pub mod text;
