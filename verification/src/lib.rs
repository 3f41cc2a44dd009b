//! Core logic of a microcontroller camera firmware: a JPEG frame assembler
//! that turns a non-frame-aligned sensor byte stream into discrete images,
//! an HTTP multipart (MJPEG) stream encoder, the session state machine that
//! drives capture and delivery while guaranteeing the exclusive capture
//! handle is returned on every exit path, and the captive-portal helpers:
//! request classification and DNS answer building.

pub mod assembler;
pub mod dns;
pub mod errors;
pub mod events;
pub mod hvec;
pub mod laws;
pub mod portal;
pub mod session;
pub mod streamer;
