//! Identifier bytes, frame delimiters and device identifiers of the protocol.
use vstd::prelude::*;

verus! {

/// USB product id of the Concept2 performance monitor.
pub const CONCEPT2_PRODUCT_ID: u16 = 0x04f3;

/// USB vendor id of Concept2.
pub const CONCEPT2_VENDOR_ID: u16 = 0x17a4;

/// Start flag of a standard frame.
pub const CSAFE_START_FLAG: u8 = 0xf1;

/// Stop flag of a frame.
pub const CSAFE_STOP_FLAG: u8 = 0xf2;

/// Lowest of the four reserved bytes; an escaped byte is sent as its offset from it.
pub const CSAFE_ESCAPE_BASE: u8 = 0xf0;

/// Byte that introduces an escape pair; also the highest reserved byte.
pub const CSAFE_ESCAPE_FLAG: u8 = 0xf3;

/// Identifier of the proprietary (long) command group.
pub const PROPRIETARY_COMMAND: u8 = 0x1a;

pub const GET_STATUS: u8 = 0x80;

pub const GET_VERSION: u8 = 0x91;

pub const GET_USER_ID: u8 = 0x92;

pub const GET_SERIAL_NUMBER: u8 = 0x94;

pub const GET_ODOMETER: u8 = 0x9b;

/// Proprietary identifier: elapsed work time.
pub const GET_WORK_TIME: u8 = 0xa0;

/// Proprietary identifier: work distance.
pub const GET_WORK_DISTANCE: u8 = 0xa3;

/// Proprietary identifier: workout type.
pub const GET_WORKOUT_TYPE: u8 = 0x89;

} // verus!
