//! Facts that tie the encoder's framing to the decoder.
use vstd::prelude::*;

use crate::concept2command::Concept2Command;
use crate::concept2response::{
    decoded, lemma_prepend_prepend, prepend, response_frames, response_of, truncated,
    unpacked, Concept2ResponseView, DecodeError,
};
use crate::consts::{
    CSAFE_START_FLAG, CSAFE_STOP_FLAG, GET_ODOMETER, GET_SERIAL_NUMBER, GET_STATUS, GET_USER_ID,
    GET_VERSION, PROPRIETARY_COMMAND,
};
use crate::csafe::{frame_with_checksum, framed, lemma_xor_fold_append, xor_fold};
use crate::stuffing::{lemma_unstuff_stuffed_prefix, stuffed, stuffed_all, unstuffed};

verus! {

/// Whether `id` names a top-level response.
pub open spec fn is_response_identifier(id: u8) -> bool {
    id == GET_STATUS || id == GET_VERSION || id == GET_USER_ID || id == GET_SERIAL_NUMBER
        || id == GET_ODOMETER || id == PROPRIETARY_COMMAND
}

/// A received response frame: a report number, then the frame around the
/// status byte and the sub-frames, with the checksum that they call for.
pub open spec fn report_frame(report: u8, status: u8, frames: Seq<u8>) -> Seq<u8> {
    seq![report] + framed(seq![status] + frames)
}

/// Undoing stuffing on a frame with a report number in front gives the report
/// number, the start flag, the payload, the checksum and the stop flag.
pub proof fn lemma_unpack_frame(report: u8, payload: Seq<u8>, check: u8)
    ensures
        unpacked(seq![report] + frame_with_checksum(payload, check)) == seq![
            report,
            CSAFE_START_FLAG,
        ] + payload + seq![check, CSAFE_STOP_FLAG],
{
    let v = seq![report] + frame_with_checksum(payload, check);
    let tail = stuffed(check) + seq![CSAFE_STOP_FLAG];
    assert(v.skip(2) =~= stuffed_all(payload) + tail);
    assert(v.take(2) =~= seq![report, CSAFE_START_FLAG]);
    lemma_unstuff_stuffed_prefix(payload, tail);
    reveal_with_fuel(stuffed_all, 2);
    reveal_with_fuel(unstuffed, 2);
    assert(stuffed_all(seq![check]) =~= stuffed(check));
    lemma_unstuff_stuffed_prefix(seq![check], seq![CSAFE_STOP_FLAG]);
    assert(seq![check] + unstuffed(seq![CSAFE_STOP_FLAG]) =~= seq![check, CSAFE_STOP_FLAG]);
    assert(seq![report, CSAFE_START_FLAG] + (payload + seq![check, CSAFE_STOP_FLAG]) =~= seq![
        report,
        CSAFE_START_FLAG,
    ] + payload + seq![check, CSAFE_STOP_FLAG]);
}

/// Decoding a frame with a report number in front: a checksum error unless
/// the checksum byte is the exclusive or of the payload; otherwise the first
/// payload byte is the status byte and the rest is read as sub-frames.
pub proof fn lemma_decode_frame(report: u8, payload: Seq<u8>, check: u8)
    ensures
        decoded(seq![report] + frame_with_checksum(payload, check)) == if check != xor_fold(
            payload,
        ) {
            Err(DecodeError::ChecksumError)
        } else if payload.len() == 0 {
            Ok(Seq::<Concept2ResponseView>::empty())
        } else {
            response_frames(payload.drop_first())
        },
{
    lemma_unpack_frame(report, payload, check);
    let l = seq![report, CSAFE_START_FLAG] + payload + seq![check, CSAFE_STOP_FLAG];
    assert(l.subrange(2, l.len() - 2) =~= payload);
    if payload.len() > 0 {
        assert(l.subrange(3, l.len() - 2) =~= payload.drop_first());
    }
}

/// A response frame made with the encoder's framing around a status byte and
/// one empty status or version sub-frame decodes to that one response.
pub proof fn lemma_round_trip_zero_payload(report: u8, status: u8, cmd: Concept2Command)
    requires
        cmd is GetStatus || cmd is GetVersion,
    ensures
        decoded(seq![report] + framed(seq![status] + cmd.spec_bytes() + seq![0u8])) == Ok::<
            Seq<Concept2ResponseView>,
            DecodeError,
        >(
            seq![
                if cmd is GetStatus {
                    Concept2ResponseView::GetStatus
                } else {
                    Concept2ResponseView::GetVersion
                },
            ],
        ),
{
    let payload = seq![status] + cmd.spec_bytes() + seq![0u8];
    lemma_decode_frame(report, payload, xor_fold(payload));
    let s = payload.drop_first();
    assert(s =~= seq![s[0], 0u8]);
    assert(s.subrange(2, 2) =~= Seq::<u8>::empty());
    assert(s.skip(2) =~= Seq::<u8>::empty());
    let x = if cmd is GetStatus {
        Concept2ResponseView::GetStatus
    } else {
        Concept2ResponseView::GetVersion
    };
    assert(response_of(s[0], Seq::<u8>::empty()) == Ok::<Concept2ResponseView, DecodeError>(x));
    assert(response_frames(Seq::<u8>::empty()) == Ok::<Seq<Concept2ResponseView>, DecodeError>(
        Seq::empty(),
    ));
    assert(!truncated(s));
    assert(seq![x] + Seq::<Concept2ResponseView>::empty() =~= seq![x]);
    assert(response_frames(s) == Ok::<Seq<Concept2ResponseView>, DecodeError>(seq![x]));
}

/// Replacing one byte of a run changes its exclusive or by the old and the new byte.
pub proof fn lemma_xor_fold_update(p: Seq<u8>, i: int, x: u8)
    requires
        0 <= i < p.len(),
    ensures
        xor_fold(p.update(i, x)) == xor_fold(p) ^ p[i] ^ x,
{
    let a = p.take(i);
    let b = p.skip(i + 1);
    assert(p =~= a + seq![p[i]] + b);
    assert(p.update(i, x) =~= a + seq![x] + b);
    lemma_xor_fold_append(a + seq![p[i]], b);
    lemma_xor_fold_append(a, seq![p[i]]);
    lemma_xor_fold_append(a + seq![x], b);
    lemma_xor_fold_append(a, seq![x]);
    reveal_with_fuel(xor_fold, 2);
    assert(seq![p[i]].drop_last() =~= Seq::<u8>::empty());
    assert(seq![x].drop_last() =~= Seq::<u8>::empty());
    let fa = xor_fold(a);
    let fb = xor_fold(b);
    let y = p[i];
    assert(0u8 ^ y == y && 0u8 ^ x == x) by (bit_vector);
    assert((fa ^ x) ^ fb == (((fa ^ y) ^ fb) ^ y) ^ x) by (bit_vector);
}

/// Flipping one bit of one payload byte of a frame, with the checksum left as
/// it was, makes decoding fail with a checksum error.
pub proof fn lemma_bit_flip_is_checksum_error(report: u8, payload: Seq<u8>, i: int, bit: u8)
    requires
        0 <= i < payload.len(),
        bit < 8,
    ensures
        decoded(
            seq![report] + frame_with_checksum(
                payload.update(i, payload[i] ^ (1u8 << bit)),
                xor_fold(payload),
            ),
        ) == Err::<Seq<Concept2ResponseView>, DecodeError>(DecodeError::ChecksumError),
{
    let y = payload[i];
    let flipped = payload.update(i, y ^ (1u8 << bit));
    lemma_decode_frame(report, flipped, xor_fold(payload));
    lemma_xor_fold_update(payload, i, y ^ (1u8 << bit));
    let f = xor_fold(payload);
    assert(bit < 8 ==> (f ^ y) ^ (y ^ (1u8 << bit)) != f) by (bit_vector);
}

/// A run of sub-frames that reads without error, followed by more bytes,
/// reads as its responses in front of what the rest gives.
pub proof fn lemma_response_frames_append(pre: Seq<u8>, rest: Seq<u8>)
    requires
        response_frames(pre) is Ok,
    ensures
        response_frames(pre + rest) == prepend(response_frames(pre)->Ok_0, response_frames(rest)),
    decreases pre.len(),
{
    if pre.len() == 0 {
        assert(pre + rest =~= rest);
        if let Ok(ys) = response_frames(rest) {
            assert(Seq::<Concept2ResponseView>::empty() + ys =~= ys);
        }
    } else {
        let s = pre + rest;
        let n = pre[1] as int;
        assert(!truncated(pre));
        assert(s.subrange(2, 2 + n) =~= pre.subrange(2, 2 + n));
        assert(s.skip(2 + n) =~= pre.skip(2 + n) + rest);
        let x = response_of(pre[0], pre.subrange(2, 2 + n))->Ok_0;
        lemma_response_frames_append(pre.skip(2 + n), rest);
        lemma_prepend_prepend(
            seq![x],
            response_frames(pre.skip(2 + n))->Ok_0,
            response_frames(rest),
        );
    }
}

/// A frame whose last sub-frame carries one data byte fewer than it declares
/// fails to decode with a structural error.
pub proof fn lemma_truncated_is_structural_error(
    report: u8,
    status: u8,
    pre: Seq<u8>,
    id: u8,
    n: u8,
    data: Seq<u8>,
)
    requires
        response_frames(pre) is Ok,
        data.len() + 1 == n,
    ensures
        decoded(report_frame(report, status, pre + seq![id, n] + data)) == Err::<
            Seq<Concept2ResponseView>,
            DecodeError,
        >(DecodeError::StructuralError),
{
    let payload = seq![status] + (pre + seq![id, n] + data);
    lemma_decode_frame(report, payload, xor_fold(payload));
    assert(payload.drop_first() =~= pre + (seq![id, n] + data));
    lemma_response_frames_append(pre, seq![id, n] + data);
    assert(truncated(seq![id, n] + data));
}

/// A frame in which a sub-frame with an identifier outside the vocabulary
/// follows sub-frames that read without error fails to decode with an
/// unknown identifier error, whatever comes after it.
pub proof fn lemma_unknown_identifier_is_error(
    report: u8,
    status: u8,
    pre: Seq<u8>,
    id: u8,
    data: Seq<u8>,
    post: Seq<u8>,
)
    requires
        response_frames(pre) is Ok,
        !is_response_identifier(id),
        data.len() <= 255,
    ensures
        decoded(report_frame(report, status, pre + seq![id, data.len() as u8] + data + post))
            == Err::<Seq<Concept2ResponseView>, DecodeError>(DecodeError::UnknownIdentifierError),
{
    let n = data.len() as u8;
    let s = seq![id, n] + data + post;
    let payload = seq![status] + (pre + seq![id, n] + data + post);
    lemma_decode_frame(report, payload, xor_fold(payload));
    assert(payload.drop_first() =~= pre + s);
    lemma_response_frames_append(pre, s);
    assert(s.subrange(2, 2 + n) =~= data);
}


} // verus!
