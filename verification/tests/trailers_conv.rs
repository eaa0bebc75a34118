use grpc::client;
use grpc::metadata::MetadataMap;
use grpc::protobuf::rpc_status::{decode_status, encode_rpc_status};
use grpc::protobuf::status::{Status, StatusError};
use grpc::protobuf::trailers_conv::{status_from_trailers, trailers_from_status};
use grpc::rpc;
use grpc::status::StatusCodeError;
use protobuf::Serialize;
use protobuf_well_known_types::Any;

/// Simulates a wire round-trip: server-produced trailers arriving at a client.
fn across_wire(server: rpc::Trailers) -> client::Trailers {
    let metadata = server.metadata().clone();
    client::Trailers::new(server.into_status()).with_metadata(metadata)
}

#[test]
fn test_trailers_from_status_details_copied_to_grpc_status() {
    let mut err = StatusError::new(StatusCodeError::NotFound, "not found detail");
    err.set_payload(b"type.googleapis.com/test", b"hello world");

    let trailers = trailers_from_status(Err(err));
    let grpc_status_error = trailers.status().as_ref().unwrap_err();
    assert_eq!(grpc_status_error.code(), StatusCodeError::NotFound);
    assert_eq!(grpc_status_error.message(), "not found detail");
    assert!(
        trailers
            .metadata()
            .get_bin("grpc-status-details-bin")
            .is_some()
    );
}

#[test]
fn test_trailers_from_status_ok_copied_to_grpc_status() {
    let trailers = trailers_from_status(Ok(()));
    assert!(trailers.status().is_ok());
    assert!(
        trailers
            .metadata()
            .get_bin("grpc-status-details-bin")
            .is_none()
    );
}

#[test]
fn test_trailers_from_status_empty_payload_skips_metadata() {
    let err = StatusError::new(
        StatusCodeError::NotFound,
        "Resource missing without details",
    );
    let status_or: Status = Err(err);

    let trailers = trailers_from_status(status_or);
    assert!(trailers.status().is_err());
    assert!(
        trailers
            .metadata()
            .get_bin("grpc-status-details-bin")
            .is_none()
    );
}

#[test]
fn test_roundtrip_payload() {
    let mut og_err = StatusError::new(StatusCodeError::NotFound, "not found detail");
    og_err.set_payload(b"type.googleapis.com/foo", b"hello");
    og_err.set_payload(b"type.googleapis.com/bar", b"world");

    let trailers = across_wire(trailers_from_status(Err(og_err.clone())));
    let rt_err = status_from_trailers(trailers).unwrap_err();
    assert_eq!(rt_err.code(), og_err.code());
    assert_eq!(rt_err.message(), og_err.message());
    assert_eq!(
        rt_err.get_payload(b"type.googleapis.com/foo"),
        og_err.get_payload(b"type.googleapis.com/foo")
    );
    assert_eq!(
        rt_err.get_payload(b"type.googleapis.com/bar"),
        og_err.get_payload(b"type.googleapis.com/bar")
    );
}

#[test]
fn test_roundtrip_invalid_utf8_dropped() {
    let mut og_err = StatusError::new(StatusCodeError::NotFound, "not found detail");
    og_err.set_payload(b"type.googleapis.com/foo", b"world");
    og_err.set_payload(b"type.googleapis.com/bar\x80", b"ain't gonna work");
    og_err.set_payload(b"type.googleapis.com/bar", b"hello");

    let trailers = across_wire(trailers_from_status(Err(og_err.clone())));
    let rt_err = status_from_trailers(trailers).unwrap_err();
    assert_eq!(rt_err.code(), og_err.code());
    assert_eq!(rt_err.message(), og_err.message());
    // Other payloads are preserved
    assert_eq!(
        rt_err.get_payload(b"type.googleapis.com/foo"),
        og_err.get_payload(b"type.googleapis.com/foo")
    );
    assert_eq!(
        rt_err.get_payload(b"type.googleapis.com/bar"),
        og_err.get_payload(b"type.googleapis.com/bar")
    );
    // But not the one with invalid UTF-8
    assert!(rt_err.get_payload(b"type.googleapis.com/bar\x80").is_none());
}

#[test]
fn test_roundtrip_no_payload() {
    let og_err = StatusError::new(StatusCodeError::NotFound, "not found detail");

    let trailers = across_wire(trailers_from_status(Err(og_err.clone())));
    let rt_err = status_from_trailers(trailers).unwrap_err();
    assert_eq!(rt_err.code(), og_err.code());
    assert_eq!(rt_err.message(), og_err.message());
    assert!(!rt_err.has_payloads());
}

#[test]
fn test_roundtrip_ok() {
    let trailers = across_wire(trailers_from_status(Ok(())));
    let status = status_from_trailers(trailers);
    assert!(status.is_ok());
}

#[test]
fn test_status_from_trailers_ok() {
    let trailers = client::Trailers::new(Ok(()));

    let status = status_from_trailers(trailers);
    assert!(status.is_ok());
}

#[test]
fn test_status_from_trailers_no_details_bin() {
    let trailers = client::Trailers::new(Err(grpc::status::StatusError::new(
        StatusCodeError::NotFound,
        "Resource missing gRPC status",
    )));

    let restored_err = status_from_trailers(trailers).unwrap_err();
    assert_eq!(restored_err.code(), StatusCodeError::NotFound);
    assert_eq!(restored_err.message(), "Resource missing gRPC status");
    assert!(!restored_err.has_payloads());
}

#[test]
fn test_status_from_trailers_matching_code() {
    let rpc_status_bytes = encode_rpc_status(
        StatusCodeError::NotFound,
        "Resource missing RPC status",
        vec![],
    )
    .expect("rpc status serialization succeeds");

    let mut m = MetadataMap::new();
    m.insert_bin(
        "grpc-status-details-bin",
        &rpc_status_bytes[..],
    );
    let trailers = client::Trailers::new(Err(grpc::status::StatusError::new(
        StatusCodeError::NotFound,
        "Resource missing gRPC status",
    )))
    .with_metadata(m);

    let restored_err = status_from_trailers(trailers).unwrap_err();
    assert_eq!(restored_err.code(), StatusCodeError::NotFound);
    assert_eq!(restored_err.message(), "Resource missing RPC status");
}

#[test]
fn test_status_from_trailers_mismatch_code() {
    let rpc_status_bytes = encode_rpc_status(
        StatusCodeError::NotFound,
        "Resource missing RPC status",
        vec![(b"the_type_url".to_vec(), b"the any value".to_vec())],
    )
    .expect("rpc status serialization succeeds");

    let mut m = MetadataMap::new();
    m.insert_bin(
        "grpc-status-details-bin",
        &rpc_status_bytes[..],
    );
    let trailers = client::Trailers::new(Err(grpc::status::StatusError::new(
        StatusCodeError::PermissionDenied,
        "Permission denied gRPC status",
    )))
    .with_metadata(m);

    let err = status_from_trailers(trailers).unwrap_err();
    assert_eq!(err.code(), StatusCodeError::Internal);
    assert_eq!(
        err.message(),
        "RPC status code mismatch: gRPC code PermissionDenied, google.rpc.Code NotFound"
    );
}

#[test]
fn test_status_from_trailers_mismatch_code_ok() {
    // Empty message is has OK status
    let rpc_status_bytes = b"";
    let mut m = MetadataMap::new();
    m.insert_bin(
        "grpc-status-details-bin",
        &rpc_status_bytes[..],
    );
    let trailers = client::Trailers::new(Err(grpc::status::StatusError::new(
        StatusCodeError::PermissionDenied,
        "Permission denied gRPC status",
    )))
    .with_metadata(m);

    let err = status_from_trailers(trailers).unwrap_err();
    assert_eq!(err.code(), StatusCodeError::Internal);
    assert_eq!(
        err.message(),
        "grpc-status-details-bin status code was OK, but should always be an error"
    );
}

#[test]
fn test_status_from_trailers_ok_with_details_bin() {
    let rpc_status_bytes = encode_rpc_status(
        StatusCodeError::NotFound,
        "Resource missing RPC status",
        vec![],
    )
    .expect("rpc status serialization succeeds");

    let mut m = MetadataMap::new();
    m.insert_bin(
        "grpc-status-details-bin",
        &rpc_status_bytes[..],
    );
    let trailers = client::Trailers::new(Ok(())).with_metadata(m);

    let err = status_from_trailers(trailers).unwrap_err();
    assert_eq!(err.code(), StatusCodeError::Internal);
    assert_eq!(
        err.message(),
        "grpc-status-details-bin metadata cannot be present when gRPC status code is OK"
    );
}

#[test]
fn test_status_from_trailers_corrupt() {
    let mut m = MetadataMap::new();
    m.insert_bin(
        "grpc-status-details-bin",
        &b"not actually encoded proto"[..],
    );
    let trailers = client::Trailers::new(Err(grpc::status::StatusError::new(
        StatusCodeError::PermissionDenied,
        "Permission denied gRPC status",
    )))
    .with_metadata(m);

    let err = status_from_trailers(trailers).unwrap_err();
    assert_eq!(err.code(), StatusCodeError::Internal);
    assert!(
        err.message()
            .contains("Failed to parse grpc-status-details-bin:")
    );
}

fn details_trailers(status: Result<(), grpc::status::StatusError>, details: &[u8]) -> client::Trailers {
    let mut m = MetadataMap::new();
    m.insert_bin("grpc-status-details-bin", details);
    client::Trailers::new(status).with_metadata(m)
}

fn not_found() -> Result<(), grpc::status::StatusError> {
    Err(grpc::status::StatusError::new(StatusCodeError::NotFound, "plain"))
}

#[test]
fn details_are_removed_when_they_are_read() {
    let bytes = encode_rpc_status(StatusCodeError::NotFound, "rich", vec![]).unwrap();
    let err = status_from_trailers(details_trailers(not_found(), &bytes)).unwrap_err();
    assert_eq!(err.message(), "rich");
    assert!(!err.has_payloads());
}

#[test]
fn a_later_payload_of_a_type_takes_the_place_of_an_earlier_one() {
    let mut err = StatusError::new(StatusCodeError::Aborted, "m");
    err.set_payload(b"t", b"first");
    err.set_payload(b"u", b"other");
    err.set_payload(b"t", b"second");
    assert_eq!(err.get_payload(b"t"), Some(&b"second"[..]));
    assert_eq!(err.get_payload(b"v"), None);
    let (code, message, payloads) = err.into_parts();
    assert_eq!(code, StatusCodeError::Aborted);
    assert_eq!(message, "m");
    assert_eq!(payloads.len(), 2);
}

#[test]
fn a_status_is_written_as_its_fields() {
    let bytes = encode_rpc_status(
        StatusCodeError::NotFound,
        "hi",
        vec![(b"a".to_vec(), b"b".to_vec())],
    )
    .unwrap();
    assert_eq!(
        bytes,
        [0x08, 5, 0x12, 2, b'h', b'i', 0x1a, 6, 0x0a, 1, b'a', 0x12, 1, b'b']
    );
    let status = decode_status(&bytes).unwrap();
    assert_eq!(status.code, 5);
    assert_eq!(status.message, "hi");
    assert_eq!(status.details, vec![(b"a".to_vec(), b"b".to_vec())]);
}

#[test]
fn a_status_is_read_with_fields_in_any_order() {
    let mut any = Any::new();
    any.set_type_url("url");
    any.set_value(b"value");
    let any_bytes = any.serialize().unwrap();

    let mut bytes = vec![0x1a, any_bytes.len() as u8];
    bytes.extend_from_slice(&any_bytes);
    // An unknown field, the message twice, and the code last.
    bytes.extend_from_slice(&[0x20, 7, 0x12, 1, b'x', 0x12, 1, b'y', 0x08, 3]);
    let status = decode_status(&bytes).unwrap();
    assert_eq!(status.code, 3);
    assert_eq!(status.message, "y");
    assert_eq!(status.details, vec![(b"url".to_vec(), b"value".to_vec())]);

    assert!(decode_status(&[0x08]).is_none());
    assert!(decode_status(&[0x12, 1, 0xff]).is_none());
    assert!(decode_status(&[0x1a, 1, 0xff]).is_none());
    let empty = decode_status(&[]).unwrap();
    assert_eq!(empty.code, 0);
    assert_eq!(empty.message, "");
}

#[test]
fn an_unknown_code_in_the_details_is_taken_as_unknown() {
    let status = Err(grpc::status::StatusError::new(StatusCodeError::Unknown, "plain"));
    let err = status_from_trailers(details_trailers(status, &[0x08, 99])).unwrap_err();
    assert_eq!(err.code(), StatusCodeError::Unknown);
}

#[test]
fn a_message_longer_than_a_length_can_say_is_not_serialized() {
    let long = String::from_utf8(vec![0u8; 0x8000_0000]).unwrap();
    assert!(encode_rpc_status(StatusCodeError::Internal, &long, Vec::new()).is_none());
    let short = &long[..3];
    assert!(encode_rpc_status(StatusCodeError::Internal, short, Vec::new()).is_some());
}
