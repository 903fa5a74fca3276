//! Codec for the CSAFE framing spoken by Concept2 rowing machines: commands are
//! encoded into escaped, checksummed frames, and received frames are checked and
//! decoded into typed responses.
pub mod concept2command;
pub mod consts;
pub mod stuffing;
pub mod csafe;
pub mod concept2response;
pub mod frame_laws;
pub mod hid_report;
