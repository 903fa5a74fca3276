use concept2::concept2response::{
    decode, parse_proprietary, parse_vec, unpack_bytes, Concept2Response,
    Concept2ResponseProprietary, DecodeError, ResponseFrame,
};

#[test]
fn test_parse_get_user_id() {
    let v: Vec<u8> = vec![
        0x1, 0xf1, 0x81, 0x92, 0x5, 0x30, 0x30, 0x30, 0x30, 0x30, 0x26, 0xf2,
    ];
    assert_eq!(
        Some(vec![Concept2Response::GetUserID(String::from("00000"))]),
        parse_vec(&v)
    );
}

#[test]
fn test_parse_get_serial_number() {
    let v: Vec<u8> = vec![
        0x1, 0xf1, 0x81, 0x94, 0x9, 0x34, 0x33, 0x30, 0x32, 0x32, 0x38, 0x35, 0x32, 0x35, 0x21,
        0xf2,
    ];
    assert_eq!(
        Some(vec![Concept2Response::GetSerialNumber(String::from(
            "430228525"
        ))]),
        parse_vec(&v)
    );
}

#[test]
fn test_parse_get_odometer() {
    let v: Vec<u8> = vec![
        0x1, 0xf1, 0x81, 0x9b, 0x5, 0xf4, 0x24, 0x21, 0x0, 0x24, 0xca, 0xf2,
    ];
    assert_eq!(
        Some(vec![Concept2Response::GetOdometer(2172148, 0x24)]),
        parse_vec(&v)
    );
}

#[test]
fn test_parse_get_work_distance() {
    let v: Vec<u8> = vec![
        0x1, 0xf1, 0x1, 0x1a, 0x7, 0xa3, 0x5, 0x0, 0x0, 0x0, 0x0, 0x0, 0xba, 0xf2,
    ];
    assert_eq!(
        Some(vec![Concept2Response::ProprietaryCommand(vec![
            Concept2ResponseProprietary::GetWorkDistance(0, 0)
        ])]),
        parse_vec(&v)
    );
}

#[test]
fn test_parse_get_work_distance_and_workout_type() {
    let v: Vec<u8> = vec![
        0x1, 0xf1, 0x81, 0x1a, 0xa, 0xa3, 0x5, 0x0, 0x0, 0x0, 0x0, 0x0, 0x89, 0x1, 0x8, 0xb7,
        0xf2,
    ];
    assert_eq!(
        Some(vec![Concept2Response::ProprietaryCommand(vec![
            Concept2ResponseProprietary::GetWorkDistance(0, 0),
            Concept2ResponseProprietary::GetWorkoutType(8)
        ])]),
        parse_vec(&v)
    );
}

#[test]
fn test_compound_message() {
    let v: Vec<u8> = vec![
        0x1, 0xf1, 0x1, 0x1a, 0x11, 0xa0, 0x5, 0x0, 0x0, 0x0, 0x0, 0x0, 0xa3, 0x5, 0x0, 0x0,
        0x0, 0x0, 0x0, 0x89, 0x1, 0x8, 0x94, 0x9, 0x34, 0x33, 0x30, 0x32, 0x32, 0x38, 0x35,
        0x32, 0x35, 0x29, 0xf2,
    ];
    assert_eq!(
        Some(vec![
            Concept2Response::ProprietaryCommand(vec![
                Concept2ResponseProprietary::GetWorkTime(0, 0),
                Concept2ResponseProprietary::GetWorkDistance(0, 0),
                Concept2ResponseProprietary::GetWorkoutType(8)
            ]),
            Concept2Response::GetSerialNumber(String::from("430228525"))
        ]),
        parse_vec(&v)
    );
}

#[test]
fn decode_status_and_version() {
    let status: Vec<u8> = vec![0x1, 0xf1, 0x81, 0x80, 0x0, 0x01, 0xf2];
    assert_eq!(Ok(vec![Concept2Response::GetStatus]), decode(&status));
    let version: Vec<u8> = vec![0x1, 0xf1, 0x81, 0x91, 0x0, 0x10, 0xf2];
    assert_eq!(Ok(vec![Concept2Response::GetVersion]), decode(&version));
}

#[test]
fn decode_escaped_data_byte() {
    // distance byte 0xf1 is sent as 0xf3 0x01
    let v: Vec<u8> = vec![
        0x1, 0xf1, 0x01, 0x9b, 0x5, 0xf3, 0x01, 0x0, 0x0, 0x0, 0x24, 0x4a, 0xf2,
    ];
    assert_eq!(
        Ok(vec![Concept2Response::GetOdometer(0xf1, 0x24)]),
        decode(&v)
    );
}

#[test]
fn decode_empty_interior() {
    let only_status: Vec<u8> = vec![0x1, 0xf1, 0x81, 0x81, 0xf2];
    assert_eq!(Ok(vec![]), decode(&only_status));
    let no_status: Vec<u8> = vec![0x1, 0xf1, 0x00, 0xf2];
    assert_eq!(Ok(vec![]), decode(&no_status));
}

#[test]
fn decode_ignores_bytes_after_stop_flag() {
    let v: Vec<u8> = vec![0x1, 0xf1, 0x81, 0x80, 0x0, 0x01, 0xf2, 0x0, 0x0, 0x0];
    assert_eq!(Ok(vec![Concept2Response::GetStatus]), decode(&v));
}

#[test]
fn decode_structural_errors() {
    assert_eq!(Err(DecodeError::StructuralError), decode(&[]));
    assert_eq!(Err(DecodeError::StructuralError), decode(&[0x1, 0xf1, 0xf2]));
    // missing start flag
    assert_eq!(
        Err(DecodeError::StructuralError),
        decode(&[0x1, 0x00, 0x81, 0x80, 0x0, 0x01, 0xf2])
    );
    // missing stop flag
    assert_eq!(
        Err(DecodeError::StructuralError),
        decode(&[0x1, 0xf1, 0x81, 0x80, 0x0, 0x01])
    );
    // escape flag without a valid offset
    assert_eq!(
        Err(DecodeError::StructuralError),
        decode(&[0x1, 0xf1, 0x81, 0xf3, 0x07, 0x80, 0xf2])
    );
    // status response that carries data
    assert_eq!(
        Err(DecodeError::StructuralError),
        decode(&[0x1, 0xf1, 0x81, 0x80, 0x01, 0x00, 0x00, 0xf2])
    );
    // identifier without a length byte
    assert_eq!(
        Err(DecodeError::StructuralError),
        decode(&[0x1, 0xf1, 0x81, 0x80, 0x01, 0xf2])
    );
}

#[test]
fn decode_truncated_sub_frame() {
    // user id declares 5 bytes and carries 4, checksum recomputed
    let v: Vec<u8> = vec![
        0x1, 0xf1, 0x81, 0x92, 0x5, 0x30, 0x30, 0x30, 0x30, 0x16, 0xf2,
    ];
    assert_eq!(Err(DecodeError::StructuralError), decode(&v));
    assert_eq!(None, parse_vec(&v));
}

#[test]
fn decode_checksum_error() {
    let v: Vec<u8> = vec![
        0x1, 0xf1, 0x81, 0x92, 0x5, 0x30, 0x30, 0x30, 0x30, 0x30, 0x27, 0xf2,
    ];
    assert_eq!(Err(DecodeError::ChecksumError), decode(&v));
}

#[test]
fn decode_bit_flip_in_payload() {
    let good: Vec<u8> = vec![
        0x1, 0xf1, 0x81, 0x92, 0x5, 0x30, 0x30, 0x30, 0x30, 0x30, 0x26, 0xf2,
    ];
    for i in 2..10 {
        for bit in 0..8 {
            let mut v = good.clone();
            v[i] ^= 1u8 << bit;
            if v[i] >= 0xf0 {
                continue;
            }
            assert_eq!(Err(DecodeError::ChecksumError), decode(&v));
        }
    }
}

#[test]
fn decode_unknown_identifier() {
    let v: Vec<u8> = vec![0x1, 0xf1, 0x81, 0x55, 0x0, 0xd4, 0xf2];
    assert_eq!(Err(DecodeError::UnknownIdentifierError), decode(&v));
    let nested: Vec<u8> = vec![0x1, 0xf1, 0x81, 0x1a, 0x2, 0x55, 0x0, 0xcc, 0xf2];
    assert_eq!(Err(DecodeError::UnknownIdentifierError), decode(&nested));
}

#[test]
fn decode_invalid_utf8() {
    let v: Vec<u8> = vec![
        0x1, 0xf1, 0x81, 0x92, 0x5, 0xff, 0x30, 0x30, 0x30, 0x30, 0xe9, 0xf2,
    ];
    assert_eq!(Err(DecodeError::EncodingError), decode(&v));
}

#[test]
fn response_frame_parse() {
    let frame = ResponseFrame {
        identifier: 0x9b,
        bytes: 5,
        data: vec![0x04, 0x03, 0x02, 0x01, 0x07],
    };
    assert_eq!(Ok(Concept2Response::GetOdometer(0x01020304, 7)), frame.parse());
    let short = ResponseFrame {
        identifier: 0x92,
        bytes: 5,
        data: vec![0x30, 0x30],
    };
    assert_eq!(Err(DecodeError::StructuralError), short.parse());
    let wrong_length = ResponseFrame {
        identifier: 0x94,
        bytes: 2,
        data: vec![0x30, 0x30],
    };
    assert_eq!(Err(DecodeError::StructuralError), wrong_length.parse());
    let user = ResponseFrame {
        identifier: 0x92,
        bytes: 5,
        data: vec![0x41, 0x42, 0x43, 0x44, 0x45],
    };
    assert_eq!(
        Ok(Concept2Response::GetUserID(String::from("ABCDE"))),
        user.parse()
    );
}

#[test]
fn proprietary_sub_frames() {
    assert_eq!(Ok(vec![]), parse_proprietary(&[]));
    assert_eq!(
        Ok(vec![
            Concept2ResponseProprietary::GetWorkTime(0x0a0b0c0d, 1),
            Concept2ResponseProprietary::GetWorkoutType(3)
        ]),
        parse_proprietary(&[0xa0, 0x5, 0x0d, 0x0c, 0x0b, 0x0a, 0x1, 0x89, 0x1, 0x3])
    );
    assert_eq!(
        Err(DecodeError::StructuralError),
        parse_proprietary(&[0x89, 0x2, 0x3, 0x3])
    );
    assert_eq!(
        Err(DecodeError::StructuralError),
        parse_proprietary(&[0xa3, 0x5, 0x0, 0x0])
    );
    assert_eq!(
        Err(DecodeError::StructuralError),
        parse_proprietary(&[0xa3])
    );
}

#[test]
fn unpack_keeps_header_and_stops_at_flag() {
    assert_eq!(
        vec![0x1, 0xf1, 0x81, 0xf0, 0xf3, 0xf2],
        unpack_bytes(&[0x1, 0xf1, 0x81, 0xf3, 0x00, 0xf3, 0x03, 0xf2, 0x9, 0x9])
    );
    assert_eq!(vec![0x1], unpack_bytes(&[0x1]));
}
