use drill_redis::resp::{decode, encode, Data, DecodeError};

fn round_trip(v: Data) -> (Data, usize) {
    let bytes = encode(&v);
    decode(&bytes, 0).expect("decode failed")
}

#[test]
fn round_trip_simple_string() {
    let (d, n) = round_trip(Data::SimpleString(b"OK".to_vec()));
    assert_eq!(d, Data::SimpleString(b"OK".to_vec()));
    assert_eq!(n, 5);
}

#[test]
fn round_trip_error_gains_prefix() {
    // The encoder stamps every error payload with `ERR `; the decoded
    // payload carries it.
    let (d, _) = round_trip(Data::Error(b"ERR x".to_vec()));
    assert_eq!(d, Data::Error(b"ERR ERR x".to_vec()));
}

#[test]
fn round_trip_integer_zero() {
    let (d, _) = round_trip(Data::Integer(0));
    assert_eq!(d, Data::Integer(0));
}

#[test]
fn round_trip_integer_negative_one() {
    let (d, _) = round_trip(Data::Integer(-1));
    assert_eq!(d, Data::Integer(-1));
}

#[test]
fn round_trip_integer_max() {
    let (d, _) = round_trip(Data::Integer(9223372036854775807));
    assert_eq!(d, Data::Integer(9223372036854775807));
}

#[test]
fn round_trip_integer_min() {
    let (d, _) = round_trip(Data::Integer(i64::MIN));
    assert_eq!(d, Data::Integer(i64::MIN));
}

#[test]
fn round_trip_bulk() {
    let (d, _) = round_trip(Data::Bulk(b"abc".to_vec()));
    assert_eq!(d, Data::Bulk(b"abc".to_vec()));
}

#[test]
fn round_trip_null_bulk() {
    let (d, _) = round_trip(Data::NullBulk);
    assert_eq!(d, Data::NullBulk);
}

#[test]
fn round_trip_null_array() {
    let (d, _) = round_trip(Data::NullArray);
    assert_eq!(d, Data::NullArray);
}

#[test]
fn round_trip_array() {
    let v = Data::Array(vec![Data::Bulk(b"GET".to_vec()), Data::Bulk(b"k".to_vec())]);
    let (d, _) = round_trip(v);
    assert_eq!(
        d,
        Data::Array(vec![Data::Bulk(b"GET".to_vec()), Data::Bulk(b"k".to_vec())])
    );
}

#[test]
fn empty_simple_string_line_is_too_short() {
    // A frame line must span at least four bytes, so the empty simple
    // string does not survive a round trip.
    let bytes = encode(&Data::SimpleString(Vec::new()));
    assert_eq!(bytes, b"+\r\n".to_vec());
    assert_eq!(decode(&bytes, 0), Err(DecodeError::ProtocolError));
}

#[test]
fn empty_bulk_decodes_as_null() {
    // A declared length below one reads back as the null bulk.
    let bytes = encode(&Data::Bulk(Vec::new()));
    assert_eq!(bytes, b"$0\r\n\r\n".to_vec());
    // Only the header line is consumed: no body is read for a
    // declared length below one.
    assert_eq!(decode(&bytes, 0), Ok((Data::NullBulk, 4)));
}

#[test]
fn decode_get_command() {
    let bytes = b"*2\r\n$3\r\nGET\r\n$1\r\nk\r\n";
    let (d, n) = decode(&bytes[..], 0).expect("decode failed");
    assert_eq!(
        d,
        Data::Array(vec![Data::Bulk(b"GET".to_vec()), Data::Bulk(b"k".to_vec())])
    );
    assert_eq!(n, bytes.len());
}

#[test]
fn oversized_bulk_is_protocol_error() {
    let bytes = b"$512000001\r\n";
    assert_eq!(decode(&bytes[..], 0), Err(DecodeError::ProtocolError));
}

#[test]
fn largest_allowed_bulk_header_reads_body() {
    // One byte under the cap is not rejected by the header check; the
    // missing body reads as a closed connection.
    let bytes = b"$512000000\r\n";
    assert_eq!(decode(&bytes[..], 0), Err(DecodeError::ConnectionClosed));
}

#[test]
fn oversized_array_is_protocol_error() {
    let bytes = b"*1001\r\n";
    assert_eq!(decode(&bytes[..], 0), Err(DecodeError::ProtocolError));
}

#[test]
fn eof_at_frame_boundary_is_connection_closed() {
    assert_eq!(decode(&b""[..], 0), Err(DecodeError::ConnectionClosed));
}

#[test]
fn eof_mid_frame_is_connection_closed() {
    assert_eq!(decode(&b"*2\r\n$3\r\nGE"[..], 0), Err(DecodeError::ConnectionClosed));
}

#[test]
fn missing_cr_is_protocol_error() {
    assert_eq!(decode(&b"+OKX\n"[..], 0), Err(DecodeError::ProtocolError));
}

#[test]
fn negative_bulk_length_is_null_bulk() {
    assert_eq!(decode(&b"$-1\r\n"[..], 0), Ok((Data::NullBulk, 5)));
}

#[test]
fn negative_array_length_is_null_array() {
    assert_eq!(decode(&b"*-1\r\n"[..], 0), Ok((Data::NullArray, 5)));
}

#[test]
fn bad_length_digits_are_protocol_error() {
    assert_eq!(decode(&b"$abc\r\n"[..], 0), Err(DecodeError::ProtocolError));
}

#[test]
fn unknown_type_byte_is_protocol_error() {
    assert_eq!(decode(&b"?hi\r\n"[..], 0), Err(DecodeError::ProtocolError));
}

#[test]
fn nested_array_element_is_protocol_error() {
    assert_eq!(
        decode(&b"*1\r\n*1\r\n$1\r\nx\r\n"[..], 0),
        Err(DecodeError::ProtocolError)
    );
}

#[test]
fn back_to_back_frames_decode_in_turn() {
    let bytes = b"+OK\r\n:42\r\n";
    let (d1, n1) = decode(&bytes[..], 0).expect("first frame");
    assert_eq!(d1, Data::SimpleString(b"OK".to_vec()));
    let (d2, n2) = decode(&bytes[..], n1).expect("second frame");
    assert_eq!(d2, Data::Integer(42));
    assert_eq!(n2, bytes.len());
}

#[test]
fn bulk_with_bad_trailer_is_protocol_error() {
    assert_eq!(decode(&b"$2\r\nabXY"[..], 0), Err(DecodeError::ProtocolError));
}
