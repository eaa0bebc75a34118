use bytes::Bytes;
use grpc::buf::Buf;
use grpc::client::CallOptions;
use grpc::interop::messages::{
    Empty, SimpleRequest, StreamingInputCallRequest, StreamingOutputCallRequest,
};
use grpc::interop::server_grpc::{
    server_payload, EchoMetadataInterceptor, TestServiceHandler, TestServiceImpl,
};
use grpc::metadata::MetadataMap;
use grpc::protobuf::message::{Message, ParseMessage};
use grpc::protobuf::wire::{write_delimited_field, write_varint_field};
use grpc::rpc::{
    RecvMessage, RequestHeaders, ResponseHeaders, SendMessage, ServerResponseStreamItem, Trailers,
};
use grpc::server::interceptor::Intercepted;
use grpc::server::router::{Router, RouterBuilder};
use grpc::server::service::{Service, ServiceExt};
use grpc::server::{Handle, RecvStream, SendOptions, SendStream};
use grpc::status::StatusCodeError;
use std::collections::VecDeque;
use std::sync::Arc;

struct Requests {
    messages: VecDeque<Bytes>,
    fails: bool,
}

fn requests(messages: &[Vec<u8>]) -> Requests {
    Requests {
        messages: messages.iter().map(|m| Bytes::copy_from_slice(m)).collect(),
        fails: false,
    }
}

impl RecvStream for Requests {
    fn next<M: RecvMessage>(&mut self, msg: &mut M) -> Option<Result<(), ()>> {
        match self.messages.pop_front() {
            Some(mut bytes) => Some(msg.decode(&mut bytes).map_err(|_| ())),
            None if self.fails => Some(Err(())),
            None => None,
        }
    }
}

#[derive(Default)]
struct Responses {
    headers: Vec<ResponseHeaders>,
    messages: Vec<Vec<u8>>,
}

impl SendStream for Responses {
    fn send<M: SendMessage>(
        &mut self,
        item: ServerResponseStreamItem<'_, M>,
        _options: SendOptions,
    ) -> Result<(), ()> {
        match item {
            ServerResponseStreamItem::Headers(h) => self.headers.push(h),
            ServerResponseStreamItem::Message(m) => {
                let mut buf = m.encode().map_err(|_| ())?;
                let len = buf.remaining();
                self.messages.push(buf.copy_to_bytes(len).to_vec());
            }
        }
        Ok(())
    }
}

type TestRouter = Router<
    Intercepted<
        Arc<grpc::server::interceptor::Identity>,
        Intercepted<Arc<EchoMetadataInterceptor>, TestServiceHandler>,
    >,
>;

fn router() -> TestRouter {
    RouterBuilder::new()
        .add_service(TestServiceImpl {}.with_interceptor(EchoMetadataInterceptor {}))
        .build()
}

fn call_with(method: &str, metadata: MetadataMap, rx: Requests) -> (Trailers, Responses) {
    let path = format!("/grpc.testing.TestService/{method}");
    let headers = RequestHeaders::new().with_method_name(&path).with_metadata(metadata);
    router().handle(headers, CallOptions::default(), Responses::default(), rx)
}

fn call(method: &str, messages: &[Vec<u8>]) -> (Trailers, Responses) {
    call_with(method, MetadataMap::new(), requests(messages))
}

fn error_of(trailers: &Trailers) -> (StatusCodeError, String) {
    let err = trailers.status().as_ref().unwrap_err();
    (err.code(), err.message().to_string())
}

fn internal(message: &str) -> (StatusCodeError, String) {
    (StatusCodeError::Internal, message.to_string())
}

fn payload(size: usize) -> Vec<u8> {
    let mut out = Vec::new();
    write_delimited_field(&mut out, 2, &vec![7u8; size]);
    out
}

fn echo_status(code: u64, message: &str) -> Vec<u8> {
    let mut out = Vec::new();
    write_varint_field(&mut out, 1, code);
    write_delimited_field(&mut out, 2, message.as_bytes());
    out
}

fn simple_request(size: i32, status: Option<Vec<u8>>) -> Vec<u8> {
    let mut out = Vec::new();
    write_varint_field(&mut out, 2, size as i64 as u64);
    write_delimited_field(&mut out, 3, &payload(4));
    if let Some(s) = status {
        write_delimited_field(&mut out, 7, &s);
    }
    out
}

fn output_request(sizes: &[i32], status: Option<Vec<u8>>) -> Vec<u8> {
    let mut out = Vec::new();
    for size in sizes {
        let mut param = Vec::new();
        write_varint_field(&mut param, 1, *size as i64 as u64);
        write_delimited_field(&mut out, 2, &param);
    }
    if let Some(s) = status {
        write_delimited_field(&mut out, 7, &s);
    }
    out
}

fn input_request(size: usize) -> Vec<u8> {
    let mut out = Vec::new();
    write_delimited_field(&mut out, 1, &payload(size));
    out
}

/// The response with a payload of so many zeros, for sizes under 100.
fn payload_response(size: usize) -> Vec<u8> {
    if size == 0 {
        return vec![0x0a, 0];
    }
    let mut out = vec![0x0a, size as u8 + 2, 0x12, size as u8];
    out.extend(vec![0u8; size]);
    out
}

#[test]
fn empty_call_answers_an_empty_message() {
    let (trailers, tx) = call("EmptyCall", &[vec![]]);
    assert!(trailers.status().is_ok());
    assert_eq!(tx.headers.len(), 1);
    assert_eq!(tx.messages, vec![Vec::<u8>::new()]);

    let (trailers, tx) = call("EmptyCall", &[]);
    assert_eq!(error_of(&trailers), internal("no request message received"));
    assert!(tx.headers.is_empty());

    let (trailers, _) = call("EmptyCall", &[vec![0xff]]);
    assert_eq!(error_of(&trailers), internal("failed to receive request"));
}

#[test]
fn unary_call_answers_the_size_that_was_asked_for() {
    let (trailers, tx) = call("UnaryCall", &[simple_request(3, None)]);
    assert!(trailers.status().is_ok());
    assert_eq!(tx.headers.len(), 1);
    assert_eq!(tx.messages, vec![payload_response(3)]);
    let (_, tx) = call("UnaryCall", &[simple_request(0, None)]);
    assert_eq!(tx.messages, vec![payload_response(0)]);
}

#[test]
fn unary_call_answers_the_status_that_was_asked_for() {
    let (trailers, tx) = call("UnaryCall", &[simple_request(3, Some(echo_status(2, "test")))]);
    assert_eq!(error_of(&trailers), (StatusCodeError::Unknown, "test".to_string()));
    assert!(tx.headers.is_empty());
    assert!(tx.messages.is_empty());
}

#[test]
fn unary_call_refuses_what_it_cannot_do() {
    let (trailers, _) = call("UnaryCall", &[simple_request(-1, None)]);
    assert_eq!(
        error_of(&trailers),
        (
            StatusCodeError::InvalidArgument,
            "response_size cannot be negative".to_string()
        )
    );
    let (trailers, _) = call("UnaryCall", &[]);
    assert_eq!(error_of(&trailers), internal("no request message received"));
    let rx = Requests {
        messages: VecDeque::new(),
        fails: true,
    };
    let (trailers, _) = call_with("UnaryCall", MetadataMap::new(), rx);
    assert_eq!(error_of(&trailers), internal("failed to receive request"));
}

#[test]
fn unimplemented_calls_are_unimplemented() {
    let (trailers, _) = call("UnimplementedCall", &[vec![]]);
    assert_eq!(error_of(&trailers), (StatusCodeError::Unimplemented, String::new()));
    let (trailers, _) = call("NoSuchCall", &[vec![]]);
    assert_eq!(error_of(&trailers).0, StatusCodeError::Unimplemented);
}

#[test]
fn streaming_output_call_answers_each_size() {
    let (trailers, tx) = call("StreamingOutputCall", &[output_request(&[3, 0, 1], None)]);
    assert!(trailers.status().is_ok());
    assert_eq!(tx.headers.len(), 1);
    assert_eq!(
        tx.messages,
        vec![payload_response(3), payload_response(0), payload_response(1)]
    );
    let (trailers, tx) = call("StreamingOutputCall", &[]);
    assert_eq!(error_of(&trailers), internal("failed to receive request"));
    assert!(tx.headers.is_empty());
}

#[test]
fn streaming_input_call_answers_the_sum_of_sizes() {
    let (trailers, tx) =
        call("StreamingInputCall", &[input_request(3), input_request(0), input_request(200)]);
    assert!(trailers.status().is_ok());
    assert_eq!(tx.messages, vec![vec![0x08, 203, 1]]);

    let (_, tx) = call("StreamingInputCall", &[]);
    assert_eq!(tx.messages, vec![Vec::<u8>::new()]);

    let (trailers, tx) = call("StreamingInputCall", &[input_request(3), vec![0x0a]]);
    assert_eq!(error_of(&trailers), internal("failed to receive streaming request"));
    assert!(tx.headers.is_empty());
}

#[test]
fn full_duplex_call_answers_each_request() {
    let (trailers, tx) =
        call("FullDuplexCall", &[output_request(&[1, 2], None), output_request(&[3], None)]);
    assert!(trailers.status().is_ok());
    assert_eq!(tx.headers.len(), 1);
    assert_eq!(
        tx.messages,
        vec![payload_response(1), payload_response(2), payload_response(3)]
    );

    let (trailers, tx) = call(
        "FullDuplexCall",
        &[
            output_request(&[1], None),
            output_request(&[2], Some(echo_status(7, "stop"))),
            output_request(&[3], None),
        ],
    );
    assert_eq!(error_of(&trailers), (StatusCodeError::PermissionDenied, "stop".to_string()));
    assert_eq!(tx.headers.len(), 1);
    assert_eq!(tx.messages, vec![payload_response(1)]);

    let (trailers, _) = call("FullDuplexCall", &[vec![0xff]]);
    assert_eq!(error_of(&trailers), internal("failed to receive streaming request"));
}

#[test]
fn custom_metadata_is_echoed() {
    let mut m = MetadataMap::new();
    m.insert("x-grpc-test-echo-initial", "test_initial_metadata_value");
    m.insert_bin("x-grpc-test-echo-trailing-bin", b"\xab\xab\xab");
    let (trailers, tx) = call_with("FullDuplexCall", m, requests(&[output_request(&[1], None)]));
    assert!(trailers.status().is_ok());
    assert_eq!(
        tx.headers[0].metadata().get("x-grpc-test-echo-initial"),
        Some("test_initial_metadata_value")
    );
    assert_eq!(
        trailers.metadata().get_bin("x-grpc-test-echo-trailing-bin"),
        Some(&b"\xab\xab\xab"[..])
    );

    let (trailers, tx) = call("EmptyCall", &[vec![]]);
    assert!(tx.headers[0].metadata().is_empty());
    assert!(trailers.metadata().is_empty());
}

#[test]
fn the_test_service_describes_its_methods() {
    let descriptor = TestServiceImpl {}.descriptor();
    assert_eq!(descriptor.name, "grpc.testing.TestService");
    assert_eq!(descriptor.methods.len(), 6);
    assert_eq!(
        descriptor.methods[5].full_path,
        "/grpc.testing.TestService/FullDuplexCall"
    );
}

#[test]
fn messages_are_read_as_their_fields() {
    let mut request = SimpleRequest::new_message();
    assert!(request.clear_and_parse(&simple_request(9, Some(echo_status(5, "m")))));
    assert_eq!(request.response_size, 9);
    assert_eq!(request.payload.body, vec![7; 4]);
    assert_eq!(request.response_status.code, 5);
    assert_eq!(request.response_status.message, "m");

    let mut request = StreamingOutputCallRequest::new_message();
    assert!(request.clear_and_parse(&output_request(&[4, 5], None)));
    let sizes: Vec<i32> = request.response_parameters.iter().map(|p| p.size).collect();
    assert_eq!(sizes, vec![4, 5]);

    let mut request = StreamingInputCallRequest::new_message();
    assert!(request.clear_and_parse(&input_request(2)));
    assert_eq!(request.payload.body, vec![7; 2]);
    assert!(request.clear_and_parse(&[]));
    assert!(request.payload.body.is_empty());

    let mut empty = Empty::new_message();
    assert!(empty.clear_and_parse(&simple_request(1, None)));
    assert!(!empty.clear_and_parse(&[0x08]));
    assert_eq!(server_payload(3).body, vec![0, 0, 0]);
}
