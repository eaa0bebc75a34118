use grpc::base64::{decode, encode};
use grpc::client;
use grpc::interop::messages::StreamingInputCallRequest;
use grpc::metadata::MetadataMap;
use grpc::protobuf::message::{Message, ParseMessage};
use grpc::protobuf::rpc_status::decode_status;
use grpc::protobuf::wire::{
    read_fields, write_delimited_field, write_varint, write_varint_field, FieldValue,
    MAX_GROUP_DEPTH,
};
use grpc::rpc::{RequestHeaders, ResponseHeaders, Trailers};
use grpc::status::{ServerStatus, Status, StatusCode, StatusCodeError, StatusError};
use http::{HeaderMap, HeaderValue};
use protobuf::ClearAndParse;

#[test]
fn base64_without_padding_is_written() {
    assert_eq!(encode(b""), b"");
    assert_eq!(encode(b"f"), b"Zg");
    assert_eq!(encode(b"fo"), b"Zm8");
    assert_eq!(encode(b"foo"), b"Zm9v");
    assert_eq!(encode(b"\xfb\xff\xbf"), b"+/+/");
}

#[test]
fn base64_is_read_with_and_without_padding() {
    assert_eq!(decode(b"Zg"), Some(b"f".to_vec()));
    assert_eq!(decode(b"Zg=="), Some(b"f".to_vec()));
    assert_eq!(decode(b"Zm8="), Some(b"fo".to_vec()));
    assert_eq!(decode(b"Zm9v"), Some(b"foo".to_vec()));
    assert_eq!(decode(b"Z"), None);
    assert_eq!(decode(b"Zm9*"), None);
    for len in 0..40u8 {
        let bytes: Vec<u8> = (0..len).map(|i| i.wrapping_mul(37)).collect();
        assert_eq!(decode(&encode(&bytes)), Some(bytes));
    }
}

#[test]
fn status_codes_have_their_numbers() {
    assert_eq!(StatusCode::OK.value(), 0);
    assert_eq!(StatusCode::Unauthenticated.value(), 16);
    assert_eq!(StatusCodeError::Cancelled.value(), 1);
    assert_eq!(StatusCodeError::DeadlineExceeded.value(), 4);
    for n in 1..=16 {
        assert_eq!(StatusCodeError::from(n).value(), n);
    }
    assert_eq!(StatusCodeError::from(0), StatusCodeError::Unknown);
    assert_eq!(StatusCodeError::from(17), StatusCodeError::Unknown);
    assert_eq!(StatusCodeError::from(-1), StatusCodeError::Unknown);
    assert_eq!(StatusCodeError::PermissionDenied.as_text(), "PermissionDenied");
}

#[test]
fn statuses_hold_a_code_and_a_message() {
    let err = StatusError::new(StatusCodeError::NotFound, "gone").clone();
    assert_eq!(err.code(), StatusCodeError::NotFound);
    assert_eq!(err.message(), "gone");
    assert_eq!(err.into_parts(), (StatusCodeError::NotFound, "gone".to_string()));
    let status = Status::new(StatusCode::OK, "fine").clone();
    assert_eq!((status.code(), status.message()), (StatusCode::OK, "fine"));
    let status = ServerStatus::new(StatusCode::Aborted, "again").clone().into_status();
    assert_eq!((status.code(), status.message()), (StatusCode::Aborted, "again"));
}

#[test]
fn an_inserted_value_is_found() {
    let mut m = MetadataMap::new();
    assert!(m.is_empty());
    m.insert("key", "one");
    m.insert("key", "two");
    m.insert_bin("key-bin", b"\x00\xff");
    assert_eq!(m.len(), 2);
    assert_eq!(m.keys_len(), 2);
    assert_eq!(m.get("key"), Some("two"));
    assert_eq!(m.get("key-bin"), None);
    assert_eq!(m.get_bin("key-bin"), Some(&b"\x00\xff"[..]));
    assert_eq!(m.get_bin("key"), None);
    let copy = m.clone();
    assert_eq!(m.remove_bin("key-bin"), Some(b"\x00\xff".to_vec()));
    assert_eq!(m.remove_bin("key-bin"), None);
    assert_eq!(m.get("key"), Some("two"));
    assert_eq!(copy.len(), 2);
    assert_eq!(MetadataMap::default().len(), 0);
}

#[test]
fn metadata_becomes_headers_and_comes_back() {
    let mut m = MetadataMap::new();
    m.insert("key", "value");
    m.insert_bin("key-bin", b"\xfb\xff");
    let headers = m.into_headers();
    assert_eq!(headers["key"], "value");
    assert_eq!(headers["key-bin"], "+/8");
    let back = MetadataMap::from_headers(&headers).unwrap();
    assert_eq!(back.get("key"), Some("value"));
    assert_eq!(back.get_bin("key-bin"), Some(&b"\xfb\xff"[..]));
}

#[test]
fn headers_that_are_no_metadata_are_refused() {
    let mut headers = HeaderMap::new();
    headers.insert("key-bin", HeaderValue::from_static("***"));
    assert!(MetadataMap::from_headers(&headers).is_none());
    let mut headers = HeaderMap::new();
    headers.insert("key", HeaderValue::from_bytes(b"\xff").unwrap());
    assert!(MetadataMap::from_headers(&headers).is_none());
}

#[test]
fn headers_and_trailers_hold_metadata() {
    let mut m = MetadataMap::new();
    m.insert("key", "value");
    let request = RequestHeaders::new().with_method_name("/a/B").with_metadata(m.clone());
    assert_eq!(request.method_name(), "/a/B");
    assert_eq!(request.metadata().get("key"), Some("value"));
    let mut response = ResponseHeaders::new().with_metadata(m.clone());
    response.metadata_mut().insert("other", "x");
    assert_eq!(response.metadata().len(), 2);
    let mut trailers = Trailers::new(Ok(())).with_metadata(m.clone());
    trailers.metadata_mut().insert("key", "new");
    assert_eq!(trailers.metadata().get("key"), Some("new"));
    assert!(trailers.into_status().is_ok());
    let mut trailers = client::Trailers::new(Ok(())).with_metadata(m);
    assert_eq!(trailers.metadata_mut().get("key"), Some("value"));
    assert!(trailers.into_status().is_ok());
}

#[test]
fn fields_are_read_as_they_are_written() {
    let mut out = Vec::new();
    write_varint(&mut out, 300);
    assert_eq!(out, [0xac, 0x02]);
    let mut out = Vec::new();
    write_varint_field(&mut out, 1, u64::MAX);
    write_delimited_field(&mut out, 2000, b"abc");
    let fields = read_fields(&out, MAX_GROUP_DEPTH).unwrap();
    assert_eq!(fields.len(), 2);
    assert_eq!(fields[0].number, 1);
    assert!(matches!(fields[0].value, FieldValue::Varint(u64::MAX)));
    assert_eq!(fields[1].number, 2000);
    assert!(matches!(&fields[1].value, FieldValue::Delimited(b) if b == b"abc"));
}

#[test]
fn broken_fields_are_refused() {
    assert!(read_fields(&[], MAX_GROUP_DEPTH).unwrap().is_empty());
    // No value, a length past the end, a field numbered zero, an unknown kind.
    assert!(read_fields(&[0x08], MAX_GROUP_DEPTH).is_none());
    assert!(read_fields(&[0x0a, 2, 1], MAX_GROUP_DEPTH).is_none());
    assert!(read_fields(&[0x00, 1], MAX_GROUP_DEPTH).is_none());
    assert!(read_fields(&[0x0e], MAX_GROUP_DEPTH).is_none());
    // A group, which is closed, is not closed, or is closed by another.
    assert!(read_fields(&[0x0b, 0x10, 1, 0x0c], MAX_GROUP_DEPTH).unwrap().is_empty());
    assert!(read_fields(&[0x0b, 0x10, 1], MAX_GROUP_DEPTH).is_none());
    assert!(read_fields(&[0x0b, 0x14], MAX_GROUP_DEPTH).is_none());
    assert!(read_fields(&[0x0c], MAX_GROUP_DEPTH).is_none());
    // Fixed widths.
    assert_eq!(read_fields(&[0x0d, 1, 2, 3, 4, 0x11, 1, 2, 3, 4, 5, 6, 7, 8], MAX_GROUP_DEPTH).unwrap().len(), 2);
    assert!(read_fields(&[0x0d, 1, 2, 3], MAX_GROUP_DEPTH).is_none());
}

/// The bytes that can make a difference where fields are told apart.
const TELLING: [u8; 14] =
    [0x00, 0x01, 0x02, 0x04, 0x08, 0x0a, 0x0b, 0x0c, 0x0d, 0x0e, 0x13, 0x14, 0x80, 0xff];

#[test]
fn fields_are_told_apart_as_in_any_message() {
    let mut all: Vec<Vec<u8>> = vec![vec![]];
    let mut last = all.clone();
    for _ in 0..4 {
        let mut longer = Vec::new();
        for bytes in &last {
            for b in TELLING {
                let mut more: Vec<u8> = bytes.clone();
                more.push(b);
                longer.push(more);
            }
        }
        all.extend(longer.iter().cloned());
        last = longer;
    }
    for bytes in all {
        let mut message = protobuf_well_known_types::Empty::new();
        let readable = message.clear_and_parse(&bytes).is_ok();
        assert_eq!(read_fields(&bytes, MAX_GROUP_DEPTH).is_some(), readable, "{bytes:?}");
    }
}

/// Groups that are nested so deep.
fn groups(depth: usize) -> Vec<u8> {
    let mut out = vec![0x7b; depth];
    out.extend(vec![0x7c; depth]);
    out
}

#[test]
fn groups_are_nested_as_deep_as_in_any_message() {
    for depth in [1, 98, 99, 100, 101] {
        let bytes = groups(depth);
        let mut message = protobuf_well_known_types::Empty::new();
        assert_eq!(message.clear_and_parse(&bytes).is_ok(), depth <= 100);
        assert_eq!(read_fields(&bytes, MAX_GROUP_DEPTH).is_some(), depth <= 100);

        // In a message that is a field of another, there is room for one group less.
        let mut inside = Vec::new();
        write_delimited_field(&mut inside, 2, &bytes);
        let mut message = protobuf_well_known_types::Api::new();
        assert_eq!(message.clear_and_parse(&inside).is_ok(), depth <= 99);
        let mut status = Vec::new();
        write_delimited_field(&mut status, 3, &bytes);
        assert_eq!(decode_status(&status).is_some(), depth <= 99);
        let mut request = Vec::new();
        write_delimited_field(&mut request, 1, &bytes);
        let readable = StreamingInputCallRequest::new_message().clear_and_parse(&request);
        assert_eq!(readable, depth <= 99);
    }
}
