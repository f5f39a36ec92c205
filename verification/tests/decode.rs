use resp_kv::array::{parse, Array, ArrayFormatError, Value};
use resp_kv::bulk_string::{
    parse as parse_bulk_string, BulkString, BulkStringFormatError,
};
use resp_kv::byte_reader::ByteReader;

#[test]
fn parse_empty_array() {
    assert_eq!(Ok(Array::Empty), parse(b"*0\r\n"));
}

#[test]
fn parse_two_bulk_strings_array() {
    assert_eq!(
        Ok(Array::Filled(vec![
            Value::BulkString(BulkString::Filled(b"hello".to_vec())),
            Value::BulkString(BulkString::Filled(b"world".to_vec())),
        ])),
        parse(b"*2\r\n$5\r\nhello\r\n$5\r\nworld\r\n")
    );
}

#[test]
fn parse_null_array() {
    assert_eq!(Ok(Array::Null), parse(b"*-1\r\n"));
}

#[test]
fn parse_empty_bulk_string() {
    let mut reader = ByteReader::new(b"$0\r\n\r\n");

    assert_eq!(Ok(BulkString::Empty), parse_bulk_string(&mut reader));
}

#[test]
fn parse_null_bulk_string() {
    let mut reader = ByteReader::new(b"$-1\r\n");

    assert_eq!(Ok(BulkString::Null), parse_bulk_string(&mut reader));
}

#[test]
fn parse_hello_bulk_string() {
    let mut reader = ByteReader::new(b"$5\r\nhello\r\n");

    assert_eq!(
        Ok(BulkString::Filled(b"hello".to_vec())),
        parse_bulk_string(&mut reader)
    );
}

#[test]
fn scalar_round_trips_through_encoder() {
    let response =
        resp_kv::commands::Response::BulkString(BulkString::Filled(b"hello".to_vec()));
    let wire = response.encode();
    assert_eq!(wire, b"$5\r\nhello\r\n".to_vec());

    let mut reader = ByteReader::new(wire.as_slice());
    assert_eq!(
        Ok(BulkString::Filled(b"hello".to_vec())),
        parse_bulk_string(&mut reader)
    );
    assert_eq!(0, reader.bytes_remaining());
}

#[test]
fn scalar_wrong_marker_is_prefix_error() {
    let mut reader = ByteReader::new(b"X5\r\nhello\r\n");
    assert_eq!(
        Err(BulkStringFormatError::Prefix),
        parse_bulk_string(&mut reader)
    );

    let mut empty = ByteReader::new(b"");
    assert_eq!(Err(BulkStringFormatError::Prefix), parse_bulk_string(&mut empty));
}

#[test]
fn scalar_bad_length_is_length_error() {
    let mut unparsable = ByteReader::new(b"$abc\r\nhello\r\n");
    assert_eq!(
        Err(BulkStringFormatError::Length),
        parse_bulk_string(&mut unparsable)
    );

    let mut missing = ByteReader::new(b"$\r\nhello\r\n");
    assert_eq!(
        Err(BulkStringFormatError::Length),
        parse_bulk_string(&mut missing)
    );
}

#[test]
fn scalar_length_out_of_range_is_length_error() {
    // One above the 512 MiB maximum.
    let mut too_long = ByteReader::new(b"$536870913\r\nhello\r\n");
    assert_eq!(
        Err(BulkStringFormatError::Length),
        parse_bulk_string(&mut too_long)
    );
    // No payload byte was consumed past the length digits.
    assert_eq!(9, too_long.bytes_remaining());

    let mut negative = ByteReader::new(b"$-2\r\n");
    assert_eq!(
        Err(BulkStringFormatError::Length),
        parse_bulk_string(&mut negative)
    );

    let mut huge = ByteReader::new(b"$99999999999999999999\r\n");
    assert_eq!(
        Err(BulkStringFormatError::Length),
        parse_bulk_string(&mut huge)
    );
}

#[test]
fn scalar_bad_terminator_is_length_trailer_error() {
    let mut null_cut = ByteReader::new(b"$-1\rX");
    assert_eq!(
        Err(BulkStringFormatError::LengthTrailer),
        parse_bulk_string(&mut null_cut)
    );

    let mut empty_cut = ByteReader::new(b"$0\r\n\rX");
    assert_eq!(
        Err(BulkStringFormatError::LengthTrailer),
        parse_bulk_string(&mut empty_cut)
    );
}

#[test]
fn scalar_bad_payload_is_data_error() {
    let mut no_trailer = ByteReader::new(b"$5\r\nhelloXY");
    assert_eq!(
        Err(BulkStringFormatError::Data),
        parse_bulk_string(&mut no_trailer)
    );

    let mut truncated = ByteReader::new(b"$5\r\nhe");
    assert_eq!(
        Err(BulkStringFormatError::Data),
        parse_bulk_string(&mut truncated)
    );
}

#[test]
fn array_wrong_marker_is_prefix_error() {
    assert_eq!(Err(ArrayFormatError::Prefix), parse(b"$1\r\na\r\n"));
    assert_eq!(Err(ArrayFormatError::Prefix), parse(b""));
}

#[test]
fn array_bad_length_is_length_error() {
    assert_eq!(Err(ArrayFormatError::Length), parse(b"*x\r\n"));
    assert_eq!(Err(ArrayFormatError::Length), parse(b"*-2\r\n"));
    assert_eq!(Err(ArrayFormatError::Length), parse(b"*536870913\r\n"));
}

#[test]
fn array_bad_terminator_is_length_trailer_error() {
    assert_eq!(Err(ArrayFormatError::LengthTrailer), parse(b"*0\rX"));
    assert_eq!(Err(ArrayFormatError::LengthTrailer), parse(b"*1\rX$1\r\na\r\n"));
}

#[test]
fn array_leftover_or_missing_bytes_are_data_errors() {
    // A null or empty frame must end right after its count line.
    assert_eq!(Err(ArrayFormatError::Data), parse(b"*0\r\n\r\n"));
    assert_eq!(Err(ArrayFormatError::Data), parse(b"*-1\r\nX"));
    // Fewer elements than declared.
    assert_eq!(Err(ArrayFormatError::Data), parse(b"*1\r\n"));
    assert_eq!(Err(ArrayFormatError::Data), parse(b"*2\r\n$1\r\na\r\n"));
    // Bytes after the declared elements.
    assert_eq!(Err(ArrayFormatError::Data), parse(b"*1\r\n$1\r\na\r\nEXTRA"));
    // A broken element surfaces as a data error of the frame.
    assert_eq!(Err(ArrayFormatError::Data), parse(b"*1\r\n$9\r\na\r\n"));
}
