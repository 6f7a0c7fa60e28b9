//! Multi-port AX.25 KISS bridge: the cross-connect engine.
//!
//! The crate holds the byte-exact core of a KISS bridge: the frame
//! demarcator that splits a serial byte stream into KISS frames, the codec
//! that reads and rewrites the port nibble and applies KISS byte-stuffing,
//! the PhilFlag byte substitutions for a known TNC firmware bug, the port
//! translator and frame router for serial-to-serial bridging, the bounded
//! polled-mode buffer, the AGWPE codec, and the endpoint grammar of the
//! configuration. Serial and TCP I/O live outside the crate and hand
//! byte buffers in.

pub mod agw;
pub mod ax25;
pub mod config;
pub mod demarc;
pub mod kiss;
pub mod pcap;
pub mod philflag;
pub mod pipeline;
pub mod polled;
pub mod slots;
pub mod translate;
