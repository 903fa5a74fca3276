//! The computing part of the HID transport: how a frame is laid out in an
//! output report, and when received reports stop belonging to a response.
use vstd::prelude::*;

use crate::consts::{CSAFE_START_FLAG, CSAFE_STOP_FLAG};

verus! {

/// The size of the Concept2's HID report.
pub const MSG_LENGTH: usize = 121;

/// Byte `i` of the output report that carries `frame` after `report_num`.
pub open spec fn report_byte(report_num: u8, frame: Seq<u8>, i: int) -> u8 {
    if i == 0 {
        report_num
    } else if i - 1 < frame.len() {
        frame[i - 1]
    } else {
        0
    }
}

/// The output report for `frame`: the report number, the frame's bytes, then
/// zeros, cut to the report size.
pub fn report_message(report_num: u8, frame: &[u8]) -> (r: Vec<u8>)
    ensures
        r@.len() == MSG_LENGTH,
        forall|i: int| 0 <= i < MSG_LENGTH ==> r@[i] == report_byte(report_num, frame@, i),
{
    let mut msg: Vec<u8> = vec![report_num];
    let mut i: usize = 1;
    while i < MSG_LENGTH
        invariant
            1 <= i <= MSG_LENGTH,
            msg@.len() == i,
            forall|j: int| 0 <= j < i ==> msg@[j] == report_byte(report_num, frame@, j),
        decreases MSG_LENGTH - i,
    {
        if i - 1 < frame.len() {
            msg.push(frame[i - 1]);
        } else {
            msg.push(0);
        }
        i = i + 1;
    }
    msg
}

/// Whether a received report holds a start or a stop flag, that is, whether
/// it still belongs to the response being read.
pub fn report_has_flag(report: &[u8]) -> (r: bool)
    ensures
        r == exists|i: int|
            0 <= i < report@.len() && (report@[i] == CSAFE_START_FLAG || report@[i]
                == CSAFE_STOP_FLAG),
{
    let mut i: usize = 0;
    while i < report.len()
        invariant
            i <= report@.len(),
            forall|j: int|
                0 <= j < i ==> report@[j] != CSAFE_START_FLAG && report@[j] != CSAFE_STOP_FLAG,
        decreases report@.len() - i,
    {
        if report[i] == CSAFE_START_FLAG || report[i] == CSAFE_STOP_FLAG {
            return true;
        }
        i = i + 1;
    }
    false
}

} // verus!
