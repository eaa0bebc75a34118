use grpc::server::transport::hyper::status::infer_grpc_status_from_http_status;
use grpc::status::StatusCode;

#[test]
fn test_infer_grpc_status_from_http_status() {
    // gRPC status codes should be treated as Unknown (since they are not valid HTTP codes)
    assert_eq!(infer_grpc_status_from_http_status(0), StatusCode::Unknown);
    assert_eq!(infer_grpc_status_from_http_status(5), StatusCode::Unknown);
    assert_eq!(infer_grpc_status_from_http_status(16), StatusCode::Unknown);

    // HTTP status codes
    assert_eq!(infer_grpc_status_from_http_status(200), StatusCode::OK);
    assert_eq!(infer_grpc_status_from_http_status(400), StatusCode::Internal);
    assert_eq!(infer_grpc_status_from_http_status(401), StatusCode::Unauthenticated);
    assert_eq!(infer_grpc_status_from_http_status(403), StatusCode::PermissionDenied);
    assert_eq!(infer_grpc_status_from_http_status(404), StatusCode::Unimplemented);
    assert_eq!(infer_grpc_status_from_http_status(429), StatusCode::Unavailable);
    assert_eq!(infer_grpc_status_from_http_status(502), StatusCode::Unavailable);
    assert_eq!(infer_grpc_status_from_http_status(503), StatusCode::Unavailable);
    assert_eq!(infer_grpc_status_from_http_status(504), StatusCode::Unavailable);

    // Unknown
    assert_eq!(infer_grpc_status_from_http_status(99), StatusCode::Unknown);
    assert_eq!(infer_grpc_status_from_http_status(500), StatusCode::Unknown);
}
