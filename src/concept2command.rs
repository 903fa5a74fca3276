//! Commands that can be sent to a Concept2 machine, and their bytes before
//! stuffing.
use vstd::prelude::*;

use crate::consts::{
    GET_ODOMETER, GET_SERIAL_NUMBER, GET_STATUS, GET_USER_ID, GET_VERSION, GET_WORKOUT_TYPE,
    GET_WORK_DISTANCE, GET_WORK_TIME, PROPRIETARY_COMMAND,
};

verus! {

/// A command of a standard frame. `ProprietaryCommand` wraps Concept2-specific
/// requests that are not part of standard CSAFE.
#[derive(Debug)]
pub enum Concept2Command {
    GetStatus,
    GetVersion,
    GetUserID,
    GetSerialNumber,
    GetOdometer,
    ProprietaryCommand(Vec<Concept2ProprietaryCommand>),
}

/// Concept2-specific requests, sent inside a `ProprietaryCommand`. Each has a
/// response of the same name.
#[derive(Debug, Clone, Copy, PartialEq, Eq)]
pub enum Concept2ProprietaryCommand {
    GetWorkTime,
    GetWorkoutType,
    GetWorkDistance,
}

/// Identifier byte of a proprietary request.
pub open spec fn proprietary_code(c: Concept2ProprietaryCommand) -> u8 {
    match c {
        Concept2ProprietaryCommand::GetWorkTime => GET_WORK_TIME,
        Concept2ProprietaryCommand::GetWorkoutType => GET_WORKOUT_TYPE,
        Concept2ProprietaryCommand::GetWorkDistance => GET_WORK_DISTANCE,
    }
}

impl From<Concept2ProprietaryCommand> for u8 {
    fn from(c: Concept2ProprietaryCommand) -> (r: u8)
        ensures
            r == proprietary_code(c),
    {
        match c {
            Concept2ProprietaryCommand::GetWorkTime => GET_WORK_TIME,
            Concept2ProprietaryCommand::GetWorkoutType => GET_WORKOUT_TYPE,
            Concept2ProprietaryCommand::GetWorkDistance => GET_WORK_DISTANCE,
        }
    }
}

impl vstd::std_specs::convert::FromSpecImpl<Concept2ProprietaryCommand> for u8 {
    open spec fn obeys_from_spec() -> bool {
        true
    }

    open spec fn from_spec(c: Concept2ProprietaryCommand) -> u8 {
        proprietary_code(c)
    }
}

impl Concept2Command {
    /// A proprietary group counts its requests in one byte, so it holds at
    /// most 255 of them.
    pub open spec fn wf(&self) -> bool {
        match self {
            Concept2Command::ProprietaryCommand(v) => v@.len() <= 255,
            _ => true,
        }
    }

    /// The bytes of the command before stuffing: one identifier, or for a
    /// proprietary group its identifier, the number of requests and one
    /// identifier per request, in order.
    pub open spec fn spec_bytes(&self) -> Seq<u8> {
        match self {
            Concept2Command::GetStatus => seq![GET_STATUS],
            Concept2Command::GetVersion => seq![GET_VERSION],
            Concept2Command::GetUserID => seq![GET_USER_ID],
            Concept2Command::GetSerialNumber => seq![GET_SERIAL_NUMBER],
            Concept2Command::GetOdometer => seq![GET_ODOMETER],
            Concept2Command::ProprietaryCommand(v) => seq![PROPRIETARY_COMMAND, v@.len() as u8]
                + v@.map_values(|p: Concept2ProprietaryCommand| proprietary_code(p)),
        }
    }

    /// The bytes of the command before stuffing.
    pub fn iter(&self) -> (r: Vec<u8>)
        requires
            self.wf(),
        ensures
            r@ == self.spec_bytes(),
    {
        match self {
            Concept2Command::GetStatus => vec![GET_STATUS],
            Concept2Command::GetVersion => vec![GET_VERSION],
            Concept2Command::GetUserID => vec![GET_USER_ID],
            Concept2Command::GetSerialNumber => vec![GET_SERIAL_NUMBER],
            Concept2Command::GetOdometer => vec![GET_ODOMETER],
            Concept2Command::ProprietaryCommand(v) => {
                let mut r: Vec<u8> = vec![PROPRIETARY_COMMAND, v.len() as u8];
                let mut i: usize = 0;
                while i < v.len()
                    invariant
                        i <= v@.len() <= 255,
                        r@ == seq![PROPRIETARY_COMMAND, v@.len() as u8] + v@.take(
                            i as int,
                        ).map_values(|p: Concept2ProprietaryCommand| proprietary_code(p)),
                    decreases v@.len() - i,
                {
                    r.push(u8::from(v[i]));
                    assert(v@.take(i + 1) =~= v@.take(i as int).push(v@[i as int]));
                    i = i + 1;
                }
                assert(v@.take(i as int) =~= v@);
                r
            },
        }
    }
}

} // verus!
