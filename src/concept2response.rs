//! Decoding of the frames that a Concept2 machine sends back.
//!
//! A received buffer holds a report number, the start flag, a status byte, a
//! run of sub-frames, the checksum and the stop flag; all but the first two
//! bytes are stuffed. Each sub-frame is an identifier, a length and that many
//! data bytes. The proprietary sub-frame nests a run of its own sub-frames.
use vstd::prelude::*;
use vstd::slice::slice_to_vec;
use vstd::utf8::{decode_utf8, valid_utf8};

use crate::consts::{
    CSAFE_START_FLAG, CSAFE_STOP_FLAG, GET_ODOMETER, GET_SERIAL_NUMBER, GET_STATUS, GET_USER_ID,
    GET_VERSION, GET_WORKOUT_TYPE, GET_WORK_DISTANCE, GET_WORK_TIME, PROPRIETARY_COMMAND,
};
use crate::csafe::{checksum_iter, xor_fold};
use crate::stuffing::{unstuff, unstuffed};

verus! {

/// All implemented (so far) responses that can be parsed from the machine.
/// `ProprietaryCommand` holds the Concept2-specific responses that are not part
/// of standard CSAFE.
#[derive(Debug, PartialEq, Eq)]
pub enum Concept2Response {
    GetStatus,
    GetVersion,
    GetUserID(String),
    GetSerialNumber(String),
    GetOdometer(u32, u8),
    ProprietaryCommand(Vec<Concept2ResponseProprietary>),
}

/// Proprietary responses, carried inside the proprietary sub-frame (a "long
/// command" in Concept2's terms).
#[derive(Debug, Clone, Copy, PartialEq, Eq)]
pub enum Concept2ResponseProprietary {
    GetWorkTime(u32, u8),
    GetWorkDistance(u32, u8),
    GetWorkoutType(u8),
}

/// Why a buffer could not be decoded.
#[derive(Debug, Clone, Copy, PartialEq, Eq)]
pub enum DecodeError {
    /// A flag is missing or misplaced, a sub-frame is cut short, or a
    /// sub-frame declares a length its kind does not have. A malformed escape
    /// ends the scan early and shows up as this error.
    StructuralError,
    /// The checksum byte differs from the exclusive or of the frame's bytes.
    ChecksumError,
    /// An identifier outside the known vocabulary.
    UnknownIdentifierError,
    /// A text field is not valid UTF-8.
    EncodingError,
}

/// Mathematical value of a `Concept2Response`: text as characters.
pub enum Concept2ResponseView {
    GetStatus,
    GetVersion,
    GetUserID(Seq<char>),
    GetSerialNumber(Seq<char>),
    GetOdometer(u32, u8),
    ProprietaryCommand(Seq<Concept2ResponseProprietary>),
}

impl View for Concept2Response {
    type V = Concept2ResponseView;

    open spec fn view(&self) -> Concept2ResponseView {
        match self {
            Concept2Response::GetStatus => Concept2ResponseView::GetStatus,
            Concept2Response::GetVersion => Concept2ResponseView::GetVersion,
            Concept2Response::GetUserID(s) => Concept2ResponseView::GetUserID(s@),
            Concept2Response::GetSerialNumber(s) => Concept2ResponseView::GetSerialNumber(s@),
            Concept2Response::GetOdometer(d, u) => Concept2ResponseView::GetOdometer(*d, *u),
            Concept2Response::ProprietaryCommand(v) => Concept2ResponseView::ProprietaryCommand(v@),
        }
    }
}

pub open spec fn responses_view(s: Seq<Concept2Response>) -> Seq<Concept2ResponseView> {
    s.map_values(|r: Concept2Response| r@)
}

pub open spec fn response_result_view(r: Result<Concept2Response, DecodeError>) -> Result<
    Concept2ResponseView,
    DecodeError,
> {
    match r {
        Ok(x) => Ok(x@),
        Err(e) => Err(e),
    }
}

/// `xs` put in front of the responses of `r`, or the error of `r`.
pub open spec fn prepend<T>(xs: Seq<T>, r: Result<Seq<T>, DecodeError>) -> Result<
    Seq<T>,
    DecodeError,
> {
    match r {
        Ok(ys) => Ok(xs + ys),
        Err(e) => Err(e),
    }
}

/// Unsigned 32-bit integer stored little-endian in the first four bytes of `b`.
pub open spec fn le_u32(b: Seq<u8>) -> u32
    recommends
        b.len() >= 4,
{
    (b[0] + 256 * b[1] + 65536 * b[2] + 16777216 * b[3]) as u32
}

/// Value of a proprietary sub-frame with identifier `id` and data `data`.
pub open spec fn proprietary_of(id: u8, data: Seq<u8>) -> Result<
    Concept2ResponseProprietary,
    DecodeError,
> {
    if id == GET_WORK_TIME {
        if data.len() == 5 {
            Ok(Concept2ResponseProprietary::GetWorkTime(le_u32(data), data[4]))
        } else {
            Err(DecodeError::StructuralError)
        }
    } else if id == GET_WORK_DISTANCE {
        if data.len() == 5 {
            Ok(Concept2ResponseProprietary::GetWorkDistance(le_u32(data), data[4]))
        } else {
            Err(DecodeError::StructuralError)
        }
    } else if id == GET_WORKOUT_TYPE {
        if data.len() == 1 {
            Ok(Concept2ResponseProprietary::GetWorkoutType(data[0]))
        } else {
            Err(DecodeError::StructuralError)
        }
    } else {
        Err(DecodeError::UnknownIdentifierError)
    }
}

/// Whether `s` is too short for the sub-frame that starts it: no length byte,
/// or fewer data bytes than declared.
pub open spec fn truncated(s: Seq<u8>) -> bool {
    s.len() < 2 || s.len() - 2 < s[1]
}

/// Proprietary responses of a run of nested sub-frames; the first error ends it.
pub open spec fn proprietary_frames(s: Seq<u8>) -> Result<
    Seq<Concept2ResponseProprietary>,
    DecodeError,
>
    decreases s.len(),
{
    if s.len() == 0 {
        Ok(Seq::empty())
    } else if truncated(s) {
        Err(DecodeError::StructuralError)
    } else {
        let n = s[1] as int;
        match proprietary_of(s[0], s.subrange(2, 2 + n)) {
            Err(e) => Err(e),
            Ok(p) => prepend(seq![p], proprietary_frames(s.skip(2 + n))),
        }
    }
}

/// Text of exactly `len` bytes of UTF-8.
pub open spec fn text_of(data: Seq<u8>, len: nat) -> Result<Seq<char>, DecodeError> {
    if data.len() != len {
        Err(DecodeError::StructuralError)
    } else if !valid_utf8(data) {
        Err(DecodeError::EncodingError)
    } else {
        Ok(decode_utf8(data))
    }
}

/// Value of a top-level sub-frame with identifier `id` and data `data`.
pub open spec fn response_of(id: u8, data: Seq<u8>) -> Result<Concept2ResponseView, DecodeError> {
    if id == GET_STATUS {
        if data.len() == 0 {
            Ok(Concept2ResponseView::GetStatus)
        } else {
            Err(DecodeError::StructuralError)
        }
    } else if id == GET_VERSION {
        if data.len() == 0 {
            Ok(Concept2ResponseView::GetVersion)
        } else {
            Err(DecodeError::StructuralError)
        }
    } else if id == GET_USER_ID {
        match text_of(data, 5) {
            Ok(t) => Ok(Concept2ResponseView::GetUserID(t)),
            Err(e) => Err(e),
        }
    } else if id == GET_SERIAL_NUMBER {
        match text_of(data, 9) {
            Ok(t) => Ok(Concept2ResponseView::GetSerialNumber(t)),
            Err(e) => Err(e),
        }
    } else if id == GET_ODOMETER {
        if data.len() == 5 {
            Ok(Concept2ResponseView::GetOdometer(le_u32(data), data[4]))
        } else {
            Err(DecodeError::StructuralError)
        }
    } else if id == PROPRIETARY_COMMAND {
        match proprietary_frames(data) {
            Ok(ps) => Ok(Concept2ResponseView::ProprietaryCommand(ps)),
            Err(e) => Err(e),
        }
    } else {
        Err(DecodeError::UnknownIdentifierError)
    }
}

/// Responses of a run of top-level sub-frames; the first error ends it.
pub open spec fn response_frames(s: Seq<u8>) -> Result<Seq<Concept2ResponseView>, DecodeError>
    decreases s.len(),
{
    if s.len() == 0 {
        Ok(Seq::empty())
    } else if truncated(s) {
        Err(DecodeError::StructuralError)
    } else {
        let n = s[1] as int;
        match response_of(s[0], s.subrange(2, 2 + n)) {
            Err(e) => Err(e),
            Ok(x) => prepend(seq![x], response_frames(s.skip(2 + n))),
        }
    }
}

/// The received buffer with stuffing undone: the report number and the start
/// flag are kept as they are, the rest is unstuffed up to the stop flag.
pub open spec fn unpacked(v: Seq<u8>) -> Seq<u8> {
    if v.len() <= 2 {
        v
    } else {
        v.take(2) + unstuffed(v.skip(2))
    }
}

/// What decoding a received buffer gives.
pub open spec fn decoded(v: Seq<u8>) -> Result<Seq<Concept2ResponseView>, DecodeError> {
    let l = unpacked(v);
    if l.len() < 4 || l[1] != CSAFE_START_FLAG || l.last() != CSAFE_STOP_FLAG {
        Err(DecodeError::StructuralError)
    } else if l[l.len() - 2] != xor_fold(l.subrange(2, l.len() - 2)) {
        Err(DecodeError::ChecksumError)
    } else if l.len() == 4 {
        Ok(Seq::empty())
    } else {
        response_frames(l.subrange(3, l.len() - 2))
    }
}

pub open spec fn responses_result_view(r: Result<Vec<Concept2Response>, DecodeError>) -> Result<
    Seq<Concept2ResponseView>,
    DecodeError,
> {
    match r {
        Ok(v) => Ok(responses_view(v@)),
        Err(e) => Err(e),
    }
}

pub open spec fn proprietary_result_view(
    r: Result<Vec<Concept2ResponseProprietary>, DecodeError>,
) -> Result<Seq<Concept2ResponseProprietary>, DecodeError> {
    match r {
        Ok(v) => Ok(v@),
        Err(e) => Err(e),
    }
}

/// Putting `xs` and then `ys` in front is putting `xs + ys` in front.
pub proof fn lemma_prepend_prepend<T>(xs: Seq<T>, ys: Seq<T>, r: Result<Seq<T>, DecodeError>)
    ensures
        prepend(xs, prepend(ys, r)) == prepend(xs + ys, r),
{
    if let Ok(zs) = r {
        assert(xs + (ys + zs) =~= (xs + ys) + zs);
    }
}

/// Relies on `String::from_utf8`: it succeeds exactly when the bytes are valid
/// UTF-8, and the string then holds the characters that they encode.
#[verifier::external_body]
fn utf8_text(bytes: Vec<u8>) -> (r: Option<String>)
    ensures
        r is Some <==> valid_utf8(bytes@),
        r is Some ==> r->Some_0@ == decode_utf8(bytes@),
{
    String::from_utf8(bytes).ok()
}

/// The little-endian unsigned 32-bit integer in `v[at..at + 4]`.
fn read_le_u32(v: &[u8], at: usize) -> (r: u32)
    requires
        at + 4 <= v.len(),
    ensures
        r == le_u32(v@.subrange(at as int, at + 4)),
{
    let b0 = v[at] as u32;
    let b1 = v[at + 1] as u32;
    let b2 = v[at + 2] as u32;
    let b3 = v[at + 3] as u32;
    b0 + 256 * b1 + 65536 * b2 + 16777216 * b3
}

/// Text of exactly `len` bytes of UTF-8.
fn parse_text(data: Vec<u8>, bytes: u8, len: u8) -> (r: Result<String, DecodeError>)
    requires
        data@.len() == bytes,
    ensures
        match text_of(data@, len as nat) {
            Ok(t) => r is Ok && r->Ok_0@ == t,
            Err(e) => r == Err::<String, DecodeError>(e),
        },
{
    if bytes != len {
        return Err(DecodeError::StructuralError);
    }
    match utf8_text(data) {
        Some(t) => Ok(t),
        None => Err(DecodeError::EncodingError),
    }
}

/// One proprietary sub-frame: identifier `id` and the `n` data bytes at `v[at..]`.
fn parse_proprietary_item(id: u8, v: &[u8], at: usize, n: usize) -> (r: Result<
    Concept2ResponseProprietary,
    DecodeError,
>)
    requires
        at + n <= v.len(),
    ensures
        r == proprietary_of(id, v@.subrange(at as int, at + n)),
{
    let ghost data = v@.subrange(at as int, at + n);
    if id == GET_WORK_TIME || id == GET_WORK_DISTANCE {
        if n != 5 {
            return Err(DecodeError::StructuralError);
        }
        let value = read_le_u32(v, at);
        let unit = v[at + 4];
        assert(value == le_u32(data));
        if id == GET_WORK_TIME {
            Ok(Concept2ResponseProprietary::GetWorkTime(value, unit))
        } else {
            Ok(Concept2ResponseProprietary::GetWorkDistance(value, unit))
        }
    } else if id == GET_WORKOUT_TYPE {
        if n != 1 {
            return Err(DecodeError::StructuralError);
        }
        Ok(Concept2ResponseProprietary::GetWorkoutType(v[at]))
    } else {
        Err(DecodeError::UnknownIdentifierError)
    }
}

/// Proprietary responses are nested inside a regular response: this reads
/// the run of nested sub-frames that makes up its data.
pub fn parse_proprietary(v: &[u8]) -> (r: Result<Vec<Concept2ResponseProprietary>, DecodeError>)
    ensures
        proprietary_result_view(r) == proprietary_frames(v@),
{
    let mut result: Vec<Concept2ResponseProprietary> = Vec::new();
    let mut pos: usize = 0;
    assert(v@.skip(0) =~= v@);
    assert(result@ =~= Seq::<Concept2ResponseProprietary>::empty());
    while pos < v.len()
        invariant
            pos <= v@.len(),
            proprietary_frames(v@) == prepend(result@, proprietary_frames(v@.skip(pos as int))),
        decreases v@.len() - pos,
    {
        let ghost s = v@.skip(pos as int);
        if v.len() - pos < 2 {
            return Err(DecodeError::StructuralError);
        }
        let n = v[pos + 1] as usize;
        if v.len() - pos - 2 < n {
            return Err(DecodeError::StructuralError);
        }
        let at = pos + 2;
        assert(s.subrange(2, 2 + n) =~= v@.subrange(at as int, at + n));
        let item = match parse_proprietary_item(v[pos], v, at, n) {
            Ok(item) => item,
            Err(e) => {
                return Err(e);
            },
        };
        let ghost before = result@;
        result.push(item);
        assert(s.skip(2 + n) =~= v@.skip((at + n) as int));
        assert(result@ =~= before + seq![item]);
        proof {
            lemma_prepend_prepend(before, seq![item], proprietary_frames(v@.skip((at + n) as int)));
        }
        pos = at + n;
    }
    assert(v@.skip(pos as int) =~= Seq::<u8>::empty());
    assert(result@ + Seq::<Concept2ResponseProprietary>::empty() =~= result@);
    Ok(result)
}

/// One sub-frame of a response: the identifier, the number of data bytes it
/// declares, and its data.
pub struct ResponseFrame {
    pub identifier: u8,
    pub bytes: u8,
    pub data: Vec<u8>,
}

impl ResponseFrame {
    /// The response this sub-frame stands for. Data of another length than the
    /// declared one is a structural error.
    pub fn parse(self) -> (r: Result<Concept2Response, DecodeError>)
        ensures
            self.data@.len() != self.bytes ==> r == Err::<Concept2Response, DecodeError>(
                DecodeError::StructuralError,
            ),
            self.data@.len() == self.bytes ==> response_result_view(r) == response_of(
                self.identifier,
                self.data@,
            ),
    {
        if self.data.len() != self.bytes as usize {
            return Err(DecodeError::StructuralError);
        }
        let ResponseFrame { identifier, bytes, data } = self;
        if identifier == GET_STATUS || identifier == GET_VERSION {
            if bytes != 0 {
                Err(DecodeError::StructuralError)
            } else if identifier == GET_STATUS {
                Ok(Concept2Response::GetStatus)
            } else {
                Ok(Concept2Response::GetVersion)
            }
        } else if identifier == GET_USER_ID {
            match parse_text(data, bytes, 5) {
                Ok(t) => Ok(Concept2Response::GetUserID(t)),
                Err(e) => Err(e),
            }
        } else if identifier == GET_SERIAL_NUMBER {
            match parse_text(data, bytes, 9) {
                Ok(t) => Ok(Concept2Response::GetSerialNumber(t)),
                Err(e) => Err(e),
            }
        } else if identifier == GET_ODOMETER {
            if bytes != 5 {
                return Err(DecodeError::StructuralError);
            }
            let distance = read_le_u32(data.as_slice(), 0);
            assert(data@.subrange(0, 4) =~= data@.take(4));
            Ok(Concept2Response::GetOdometer(distance, data[4]))
        } else if identifier == PROPRIETARY_COMMAND {
            match parse_proprietary(data.as_slice()) {
                Ok(ps) => Ok(Concept2Response::ProprietaryCommand(ps)),
                Err(e) => Err(e),
            }
        } else {
            Err(DecodeError::UnknownIdentifierError)
        }
    }
}

/// Reads the sub-frame that starts at `v[pos]` and ends before `v[end]`:
/// its response and the position just after it.
fn parse_c2r(v: &[u8], pos: usize, end: usize) -> (r: Result<(Concept2Response, usize), DecodeError>)
    requires
        pos < end <= v.len(),
    ensures
        ({
            let s = v@.subrange(pos as int, end as int);
            if truncated(s) {
                r == Err::<(Concept2Response, usize), DecodeError>(DecodeError::StructuralError)
            } else {
                let n = s[1] as int;
                match response_of(s[0], s.subrange(2, 2 + n)) {
                    Ok(x) => r is Ok && r->Ok_0.0@ == x && r->Ok_0.1 == pos + 2 + n,
                    Err(e) => r == Err::<(Concept2Response, usize), DecodeError>(e),
                }
            }
        }),
{
    let ghost s = v@.subrange(pos as int, end as int);
    if end - pos < 2 {
        return Err(DecodeError::StructuralError);
    }
    let identifier = v[pos];
    let bytes = v[pos + 1];
    let n = bytes as usize;
    if end - pos - 2 < n {
        return Err(DecodeError::StructuralError);
    }
    let data = slice_to_vec(&v[pos + 2..pos + 2 + n]);
    assert(data@ =~= s.subrange(2, 2 + n));
    let frame = ResponseFrame { identifier, bytes, data };
    match frame.parse() {
        Ok(x) => Ok((x, pos + 2 + n)),
        Err(e) => Err(e),
    }
}

/// Reads every sub-frame of `v[start..end]`, in order; the first error ends it.
fn parse_helper(v: &[u8], start: usize, end: usize) -> (r: Result<Vec<Concept2Response>, DecodeError>)
    requires
        start <= end <= v.len(),
    ensures
        responses_result_view(r) == response_frames(v@.subrange(start as int, end as int)),
{
    let ghost whole = v@.subrange(start as int, end as int);
    let mut result: Vec<Concept2Response> = Vec::new();
    let mut pos: usize = start;
    assert(responses_view(result@) =~= Seq::<Concept2ResponseView>::empty());
    while pos < end
        invariant
            start <= pos <= end <= v.len(),
            whole == v@.subrange(start as int, end as int),
            response_frames(whole) == prepend(
                responses_view(result@),
                response_frames(v@.subrange(pos as int, end as int)),
            ),
        decreases end - pos,
    {
        let ghost s = v@.subrange(pos as int, end as int);
        let (x, next) = match parse_c2r(v, pos, end) {
            Ok(p) => p,
            Err(e) => {
                return Err(e);
            },
        };
        let ghost before = responses_view(result@);
        result.push(x);
        assert(s.skip(next - pos) =~= v@.subrange(next as int, end as int));
        assert(responses_view(result@) =~= before + seq![x@]);
        proof {
            lemma_prepend_prepend(
                before,
                seq![x@],
                response_frames(v@.subrange(next as int, end as int)),
            );
        }
        pos = next;
    }
    assert(v@.subrange(pos as int, end as int) =~= Seq::<u8>::empty());
    assert(responses_view(result@) + Seq::<Concept2ResponseView>::empty() =~= responses_view(
        result@,
    ));
    Ok(result)
}

/// The received buffer with stuffing undone: the report number and the start
/// flag are copied, the rest is unstuffed up to and including the stop flag.
pub fn unpack_bytes(v: &[u8]) -> (r: Vec<u8>)
    ensures
        r@ == unpacked(v@),
{
    if v.len() <= 2 {
        return slice_to_vec(v);
    }
    let mut result: Vec<u8> = Vec::new();
    result.push(v[0]);
    result.push(v[1]);
    let mut rest = unstuff(&v[2..v.len()]);
    assert(v@.subrange(2, v@.len() as int) =~= v@.skip(2));
    result.append(&mut rest);
    assert(result@ =~= v@.take(2) + unstuffed(v@.skip(2)));
    result
}

/// Decodes a received buffer: undoes stuffing, checks the flags and the
/// checksum, then reads every sub-frame. Any error aborts the whole decode.
pub fn decode(v: &[u8]) -> (r: Result<Vec<Concept2Response>, DecodeError>)
    ensures
        responses_result_view(r) == decoded(v@),
{
    let l = unpack_bytes(v);
    let length = l.len();
    if length < 4 || l[1] != CSAFE_START_FLAG || l[length - 1] != CSAFE_STOP_FLAG {
        return Err(DecodeError::StructuralError);
    }
    let actual = checksum_iter(&l.as_slice()[2..length - 2]);
    if l[length - 2] != actual {
        return Err(DecodeError::ChecksumError);
    }
    if length == 4 {
        let empty: Vec<Concept2Response> = Vec::new();
        assert(responses_view(empty@) =~= Seq::<Concept2ResponseView>::empty());
        return Ok(empty);
    }
    parse_helper(l.as_slice(), 3, length - 2)
}

/// Single public method for taking a vector of bytes and returning the
/// responses that it holds; `None` where `decode` gives an error.
pub fn parse_vec(v: &[u8]) -> (r: Option<Vec<Concept2Response>>)
    ensures
        r is Some <==> decoded(v@) is Ok,
        r is Some ==> decoded(v@) == Ok::<Seq<Concept2ResponseView>, DecodeError>(
            responses_view(r->Some_0@),
        ),
{
    match decode(v) {
        Ok(rs) => Some(rs),
        Err(_) => None,
    }
}

} // verus!
