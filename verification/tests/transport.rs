use bytes::Bytes;
use grpc::buf::Buf;
use grpc::client::CallOptions;
use grpc::metadata::MetadataMap;
use grpc::rpc::{
    RecvMessage, RequestHeaders, ResponseHeaders, SendMessage, ServerResponseStreamItem, Trailers,
};
use grpc::server::accept::{AcceptAction, AcceptEvent, AcceptLoop};
use grpc::server::call::message_wrapper::Incoming;
use grpc::server::call::metadata::Metadata;
use grpc::server::call::request::{HandlerCallOptions, StreamingRequest};
use grpc::server::call::streaming_response_writer::{
    Left, NotSent, Outcome, StreamingResponseBodyWriter, StreamingResponseWriter,
};
use grpc::server::codegen_api::unary::UnaryMethod;
use grpc::server::method_handler::ByteStreamMethodHandler;
use grpc::server::stream::{PushStream, PushStreamConsumer, PushStreamProducer, PushStreamWriter};
use grpc::server::transport::hyper::body::FrameEvent;
use grpc::server::transport::hyper::buffer::BufList;
use grpc::server::transport::hyper::encoder::{
    status_to_header_map, write_result, EncodedFrame, EncoderSource, EncoderStep, HyperEncoderBody,
    ReadyParts,
};
use grpc::server::transport::hyper::producer::{extract_status_and_trailers, HyperStreamProducer};
use grpc::server::transport::hyper::request::{
    extract_request_headers, open_request, run_handler, validate_content_type,
    ByteSourceRecvStream,
};
use grpc::server::transport::hyper::response::{
    on_response_headers, on_trailers_without_headers, streaming_response, trailers_only_error,
    trailers_to_header_map, BodyPhase, BodyStep, GrpcResponseBody, HeadersStep, Polled,
    ReadyResponse, ResponseBody, ResponseFrame, ResponseSource,
};
use grpc::server::transport::hyper::send::{GatheredResponse, HttpSendStream, TakenPart};
use grpc::server::transport::hyper::service::HyperGrpcService;
use grpc::server::transport::hyper::transport::{HyperTransport, ServeStep};
use grpc::server::transport::hyper::Http2Config;
use grpc::server::{Handle, RecvStream, SendOptions, SendStream};
use grpc::status::{ServerStatus, Status, StatusCode, StatusCodeError, StatusError};
use http::{HeaderMap, HeaderValue};
use protobuf::{ClearAndParse, Serialize};
use protobuf_well_known_types::Timestamp;
use std::collections::VecDeque;
use std::sync::{Arc, Mutex};

fn header_map(headers: &[(&'static str, &'static str)]) -> HeaderMap {
    let mut map = HeaderMap::new();
    for (name, value) in headers {
        map.append(*name, HeaderValue::from_static(value));
    }
    map
}

// --- The lowest receiving stream ---

/// A simple RecvMessage that captures raw bytes.
struct BytesCapture {
    data: Option<Bytes>,
}

impl BytesCapture {
    fn new() -> Self {
        Self { data: None }
    }
}

impl RecvMessage for BytesCapture {
    fn set_compressed(&mut self, _compressed: bool) {}

    fn decode<B: Buf>(&mut self, data: &mut B) -> Result<(), String> {
        let len = data.remaining();
        self.data = Some(data.copy_to_bytes(len));
        Ok(())
    }
}

fn body(frames: Vec<FrameEvent>) -> ByteSourceRecvStream<VecDeque<FrameEvent>> {
    ByteSourceRecvStream::new(frames.into())
}

fn data(bytes: &'static [u8]) -> FrameEvent {
    FrameEvent::Data(Bytes::from_static(bytes))
}

#[test]
fn byte_source_yields_data_frame() {
    let mut recv = body(vec![data(b"hello")]);
    let mut msg = BytesCapture::new();

    let result = recv.next(&mut msg);
    assert!(matches!(result, Some(Ok(()))));
    assert_eq!(msg.data.as_deref(), Some(b"hello".as_slice()));
}

#[test]
fn byte_source_skips_empty_data_frame() {
    let mut recv = body(vec![
        data(b""),     // empty — skip
        data(b"real"), // real data
    ]);
    let mut msg = BytesCapture::new();

    let result = recv.next(&mut msg);
    assert!(matches!(result, Some(Ok(()))));
    assert_eq!(msg.data.as_deref(), Some(b"real".as_slice()));
}

#[test]
fn byte_source_trailer_frame_returns_error() {
    let mut recv = body(vec![FrameEvent::Trailers(header_map(&[("grpc-status", "0")]))]);
    let mut msg = BytesCapture::new();

    let result = recv.next(&mut msg);
    assert!(matches!(result, Some(Err(()))));
}

#[test]
fn byte_source_exhausted_returns_none() {
    let mut recv = body(vec![]);
    let mut msg = BytesCapture::new();

    let result = recv.next(&mut msg);
    assert!(result.is_none());
}

#[test]
fn byte_source_multiple_data_frames() {
    let mut recv = body(vec![data(b"one"), data(b"two")]);

    let mut msg1 = BytesCapture::new();
    let result1 = recv.next(&mut msg1);
    assert!(matches!(result1, Some(Ok(()))));
    assert_eq!(msg1.data.as_deref(), Some(b"one".as_slice()));

    let mut msg2 = BytesCapture::new();
    let result2 = recv.next(&mut msg2);
    assert!(matches!(result2, Some(Ok(()))));
    assert_eq!(msg2.data.as_deref(), Some(b"two".as_slice()));

    let mut msg3 = BytesCapture::new();
    let result3 = recv.next(&mut msg3);
    assert!(result3.is_none());
}

#[test]
fn byte_source_fails_with_its_body() {
    let mut recv = body(vec![FrameEvent::Failed("reset".to_string())]);
    assert!(matches!(recv.next(&mut BytesCapture::new()), Some(Err(()))));
}

// --- Requests ---

#[test]
fn content_types_of_grpc_are_accepted() {
    for good in ["application/grpc", "application/grpc+proto", "application/grpc; charset=utf-8"] {
        assert!(validate_content_type(&header_map(&[("content-type", good)])).is_ok());
    }
    let err = validate_content_type(&header_map(&[("content-type", "text/plain")])).unwrap_err();
    assert_eq!(err.code(), StatusCodeError::Unimplemented);
    assert_eq!(err.message(), "unsupported content-type: text/plain");
    let err = validate_content_type(&header_map(&[])).unwrap_err();
    assert_eq!(err.code(), StatusCodeError::Unimplemented);
    assert_eq!(err.message(), "missing content-type header");
}

#[test]
fn request_headers_hold_the_path_and_the_metadata() {
    let map = header_map(&[
        ("content-type", "application/grpc"),
        ("x-key", "value"),
        ("x-key-bin", "aGVsbG8"),
    ]);
    let headers = extract_request_headers("/pkg.Svc/Method", &map);
    assert_eq!(headers.method_name(), "/pkg.Svc/Method");
    assert_eq!(headers.metadata().get("x-key"), Some("value"));
    assert_eq!(headers.metadata().get_bin("x-key-bin"), Some(&b"hello"[..]));
}

#[test]
fn a_request_with_another_content_type_is_answered_by_trailers_only() {
    let refused = open_request("/a/B", &header_map(&[("content-type", "text/html")])).err().unwrap();
    assert_eq!(refused.status, 200);
    assert_eq!(refused.headers["content-type"], "application/grpc");
    match refused.body {
        ResponseBody::TrailersOnly(t) => {
            let map = trailers_to_header_map(&t);
            assert_eq!(map["grpc-status"], "12");
            assert_eq!(map["grpc-message"], "unsupported%20content%2Dtype%3A%20text%2Fhtml");
        }
        ResponseBody::Streaming => panic!("no body follows"),
    }
    let opened = open_request("/a/B", &header_map(&[("content-type", "application/grpc")]));
    assert_eq!(opened.ok().unwrap().method_name(), "/a/B");
}

fn captured() -> HttpSendStream<GatheredResponse> {
    HttpSendStream::new(GatheredResponse::new())
}

/// The number of headers and the pieces of the body that were handed to a response.
fn handed(tx: HttpSendStream<GatheredResponse>) -> (usize, Vec<Bytes>) {
    let mut headers = 0;
    let mut bodies = Vec::new();
    for part in tx.into_sink().parts {
        match part {
            TakenPart::Headers(_) => headers += 1,
            TakenPart::Body(b) => bodies.push(b),
        }
    }
    (headers, bodies)
}

struct Text(&'static [u8]);

impl SendMessage for Text {
    type Encoded = Bytes;

    fn encode(&self) -> Result<Bytes, String> {
        if self.0.is_empty() {
            Err("empty".to_string())
        } else {
            Ok(Bytes::from_static(self.0))
        }
    }
}

#[test]
fn headers_can_be_sent_once() {
    let mut tx = captured();
    let headers = || ServerResponseStreamItem::<Text>::Headers(ResponseHeaders::new());
    assert!(tx.send(headers(), SendOptions::default()).is_ok());
    assert!(tx.send(headers(), SendOptions::default()).is_err());
    let text = Text(b"x");
    let message = ServerResponseStreamItem::Message(&text);
    assert!(tx.send(message, SendOptions::default()).is_ok());
    let broken = Text(b"");
    let message = ServerResponseStreamItem::Message(&broken);
    assert!(tx.send(message, SendOptions::default()).is_err());
    assert_eq!(handed(tx), (1, vec![Bytes::from_static(b"x")]));
}

/// Sends each message back, after headers.
struct Echo;

impl Handle for Echo {
    fn handle<Tx: SendStream, Rx: RecvStream>(
        &self,
        _headers: RequestHeaders,
        _options: CallOptions,
        mut tx: Tx,
        mut rx: Rx,
    ) -> (Trailers, Tx) {
        let headers = ServerResponseStreamItem::<Raw>::Headers(ResponseHeaders::new());
        let _ = tx.send(headers, SendOptions::default());
        loop {
            let mut msg = BytesCapture::new();
            match rx.next(&mut msg) {
                Some(Ok(())) => {
                    let raw = Raw(msg.data.unwrap());
                    let _ = tx.send(ServerResponseStreamItem::Message(&raw), SendOptions::default());
                }
                Some(Err(())) => {
                    let err = StatusError::new(StatusCodeError::Internal, "broken");
                    return (Trailers::new(Err(err)), tx);
                }
                None => return (Trailers::new(Ok(())), tx),
            }
        }
    }
}

struct Raw(Bytes);

impl SendMessage for Raw {
    type Encoded = Bytes;

    fn encode(&self) -> Result<Bytes, String> {
        Ok(self.0.clone())
    }
}

#[test]
fn a_handler_sees_messages_and_the_transport_frames() {
    let rx = body(vec![
        data(b"\x00\x00\x00\x00\x03on"),
        data(b"e\x01\x00\x00\x00\x03two"),
    ]);
    let headers = RequestHeaders::new().with_method_name("/a/B");
    let (trailers, tx) = run_handler(&Http2Config::builder(), &Echo, headers, captured(), rx);
    assert!(trailers.status().is_ok());
    let (headers, bodies) = handed(tx);
    assert_eq!(headers, 1);
    assert_eq!(bodies.len(), 2);
    assert_eq!(&bodies[0][..], b"\x00\x00\x00\x00\x03one");
    assert_eq!(&bodies[1][..], b"\x00\x00\x00\x00\x03two");
}

#[test]
fn a_message_over_the_configured_size_fails_the_stream() {
    let rx = body(vec![data(b"\x00\x00\x00\x00\x03one")]);
    let config = Http2Config::builder().max_message_size(2);
    let (trailers, tx) = run_handler(&config, &Echo, RequestHeaders::new(), captured(), rx);
    assert_eq!(trailers.status().as_ref().unwrap_err().message(), "broken");
    assert!(handed(tx).1.is_empty());
}

// --- Responses ---

#[test]
fn trailers_hold_the_status_and_the_metadata() {
    let mut m = MetadataMap::new();
    m.insert("x-key", "value");
    m.insert_bin("x-key-bin", b"hello");
    let map = trailers_to_header_map(&Trailers::new(Ok(())).with_metadata(m));
    assert_eq!(map["grpc-status"], "0");
    assert!(map.get("grpc-message").is_none());
    assert_eq!(map["x-key"], "value");
    assert_eq!(map["x-key-bin"], "aGVsbG8");
    assert_eq!(map.len(), 3);

    let err = StatusError::new(StatusCodeError::NotFound, "50% \u{e9}\n");
    let map = trailers_to_header_map(&Trailers::new(Err(err)));
    assert_eq!(map["grpc-status"], "5");
    assert_eq!(map["grpc-message"], "50%25%20%C3%A9%0A");
    let err = StatusError::new(StatusCodeError::Unauthenticated, "");
    let map = trailers_to_header_map(&Trailers::new(Err(err)));
    assert_eq!(map["grpc-status"], "16");
    assert!(map.get("grpc-message").is_none());
}

#[test]
fn trailers_only_responses_have_no_data() {
    let response = trailers_only_error(StatusError::new(StatusCodeError::Aborted, "m"));
    assert_eq!(response.status, 200);
    assert_eq!(response.headers["content-type"], "application/grpc");
    assert!(matches!(response.body, ResponseBody::TrailersOnly(_)));
}

#[test]
fn streaming_responses_hold_the_headers_that_were_sent() {
    let mut m = MetadataMap::new();
    m.insert("x-key", "value");
    let response = streaming_response(ResponseHeaders::new().with_metadata(m));
    assert_eq!(response.status, 200);
    assert_eq!(response.headers["content-type"], "application/grpc");
    assert_eq!(response.headers["x-key"], "value");
    assert!(matches!(response.body, ResponseBody::Streaming));

    let step = on_response_headers(Ok(ResponseHeaders::new()));
    assert!(matches!(step, HeadersStep::Respond(r) if r.headers.len() == 1));
    assert!(matches!(on_response_headers(Err(())), HeadersStep::AwaitTrailers));
}

fn message_without_headers(event: Result<Trailers, ()>) -> (StatusCodeError, String) {
    match on_trailers_without_headers(event).body {
        ResponseBody::TrailersOnly(t) => {
            let err = t.into_status().unwrap_err();
            (err.code(), err.message().to_string())
        }
        ResponseBody::Streaming => panic!("no body follows"),
    }
}

#[test]
fn a_call_that_ends_without_headers_is_answered_by_its_error() {
    let err = StatusError::new(StatusCodeError::NotFound, "nope");
    assert_eq!(
        message_without_headers(Ok(Trailers::new(Err(err)))),
        (StatusCodeError::NotFound, "nope".to_string())
    );
    assert_eq!(
        message_without_headers(Ok(Trailers::new(Ok(())))),
        (
            StatusCodeError::Internal,
            "handler completed without sending headers or error".to_string()
        )
    );
    assert_eq!(
        message_without_headers(Err(())),
        (StatusCodeError::Internal, "handler did not send response headers".to_string())
    );
}

#[test]
fn a_body_gives_data_and_last_of_all_trailers() {
    let mut body = GrpcResponseBody::new();
    assert!(matches!(body.on_data(Polled::Pending), BodyStep::Pending));
    let step = body.on_data(Polled::Ready(Some(Bytes::from_static(b"x"))));
    assert!(matches!(step, BodyStep::Data(b) if &b[..] == b"x"));
    assert_eq!(body.phase(), BodyPhase::Data);
    assert!(matches!(body.on_data(Polled::Ready(None)), BodyStep::Advance));
    assert_eq!(body.phase(), BodyPhase::Trailers);
    assert!(matches!(body.on_trailers(Polled::Pending), BodyStep::Pending));
    match body.on_trailers(Polled::Ready(Ok(Trailers::new(Ok(()))))) {
        BodyStep::Trailers(map) => assert_eq!(map["grpc-status"], "0"),
        _ => panic!("trailers are due"),
    }
    assert_eq!(body.phase(), BodyPhase::End);
}

/// Whatever a body gives until it is at its end: the data, and the trailers.
fn polled(response: ReadyResponse) -> (Vec<Bytes>, Vec<HeaderMap>) {
    let mut source = response;
    let mut body = GrpcResponseBody::new();
    let mut data = Vec::new();
    let mut trailers = Vec::new();
    loop {
        match body.poll_frame(&mut source) {
            Polled::Ready(Some(ResponseFrame::Data(b))) => {
                assert!(trailers.is_empty());
                data.push(b);
            }
            Polled::Ready(Some(ResponseFrame::Trailers(map))) => trailers.push(map),
            Polled::Ready(None) => break,
            Polled::Pending => panic!("all is there"),
        }
    }
    assert!(matches!(body.poll_frame(&mut source), Polled::Ready(None)));
    (data, trailers)
}

#[test]
fn a_body_is_polled_to_its_end() {
    let messages = VecDeque::from(vec![Bytes::from_static(b"one"), Bytes::from_static(b"two")]);
    let (data, trailers) = polled(ReadyResponse {
        messages: messages.clone(),
        trailers: Some(Trailers::new(Ok(()))),
    });
    assert_eq!(messages, data);
    assert_eq!(trailers.len(), 1);
    assert_eq!(trailers[0]["grpc-status"], "0");

    let (data, trailers) = polled(ReadyResponse {
        messages: VecDeque::new(),
        trailers: None,
    });
    assert!(data.is_empty());
    assert_eq!(trailers.len(), 1);
    assert_eq!(trailers[0]["grpc-message"], "handler did not return trailers");
}

/// A source whose parts come only every other time.
struct Slow {
    parts: ReadyResponse,
    ready: bool,
}

impl ResponseSource for Slow {
    fn poll_data(&mut self) -> Polled<Option<Bytes>> {
        self.ready = !self.ready;
        if self.ready {
            return Polled::Pending;
        }
        self.parts.poll_data()
    }

    fn poll_trailers(&mut self) -> Polled<Result<Trailers, ()>> {
        self.ready = !self.ready;
        if self.ready {
            return Polled::Pending;
        }
        self.parts.poll_trailers()
    }
}

#[test]
fn a_body_waits_for_its_parts() {
    let mut source = Slow {
        parts: ReadyResponse {
            messages: VecDeque::from(vec![Bytes::from_static(b"x")]),
            trailers: Some(Trailers::new(Ok(()))),
        },
        ready: false,
    };
    let mut body = GrpcResponseBody::new();
    assert!(matches!(body.poll_frame(&mut source), Polled::Pending));
    let step = body.poll_frame(&mut source);
    assert!(matches!(step, Polled::Ready(Some(ResponseFrame::Data(_)))));
    assert!(matches!(body.poll_frame(&mut source), Polled::Pending));
    // The messages are over, and the trailers are not there yet.
    assert!(matches!(body.poll_frame(&mut source), Polled::Pending));
    let step = body.poll_frame(&mut source);
    assert!(matches!(step, Polled::Ready(Some(ResponseFrame::Trailers(_)))));
    assert!(matches!(body.poll_frame(&mut source), Polled::Ready(None)));
}

#[test]
fn a_handler_without_trailers_is_an_internal_error() {
    let mut body = GrpcResponseBody::new();
    body.on_data(Polled::Ready(None));
    match body.on_trailers(Polled::Ready(Err(()))) {
        BodyStep::Trailers(map) => {
            assert_eq!(map["grpc-status"], "13");
            assert_eq!(map["grpc-message"], "handler did not return trailers");
        }
        _ => panic!("trailers are due"),
    }
}

// --- Reading of bodies ---

#[derive(Default)]
struct Produced {
    items: Vec<Vec<u8>>,
    trailers: Option<Metadata>,
}

#[derive(Clone, Default)]
struct ItemWriter {
    state: Arc<Mutex<Produced>>,
    refuses: bool,
}

impl StreamingResponseBodyWriter<Incoming<BufList<Bytes>>> for ItemWriter {
    fn write(&mut self, mut item: Incoming<BufList<Bytes>>) -> Result<(), Status> {
        if self.refuses {
            return Err(Status::new(StatusCode::Cancelled, "refused"));
        }
        let len = item.message_bytes.remaining();
        let bytes = item.message_bytes.copy_to_bytes(len).to_vec();
        self.state.lock().unwrap().items.push(bytes);
        Ok(())
    }

    fn send_trailing_metadata(self, trailers: Metadata) -> Result<(), NotSent<Self>> {
        self.state.lock().unwrap().trailers = Some(trailers);
        if self.refuses {
            return Err(NotSent {
                status: Status::new(StatusCode::Cancelled, "refused"),
                writer: None,
            });
        }
        Ok(())
    }
}

/// What comes of a body: its result, its messages and its trailers.
fn produce(frames: Vec<FrameEvent>) -> (Result<(), Status>, Vec<Vec<u8>>, Option<Metadata>) {
    let writer = ItemWriter::default();
    let state = writer.state.clone();
    let producer = HyperStreamProducer::new(VecDeque::from(frames));
    let (result, unused) = producer.produce_to_writer(writer);
    let state = std::mem::take(&mut *state.lock().unwrap());
    // The writer comes back where no trailing metadata was sent.
    assert_eq!(unused.is_some(), state.trailers.is_none());
    (result, state.items, state.trailers)
}

fn hello_frame() -> FrameEvent {
    // Header + Body: 5 bytes header + "hello"
    FrameEvent::Data(Bytes::from_static(b"\x00\x00\x00\x00\x05hello"))
}

#[test]
fn test_produce_response_success() {
    // Trailers: grpc-status: 200 (HTTP OK -> gRPC OK)
    let trailers = header_map(&[("grpc-status", "200")]);

    let (res, items, trailers) = produce(vec![hello_frame(), FrameEvent::Trailers(trailers)]);
    assert!(res.is_ok());

    assert_eq!(items.len(), 1);
    assert!(trailers.is_some());
}

#[test]
fn test_produce_response_error() {
    // Trailers: grpc-status: 404 (HTTP Not Found -> gRPC Unimplemented)
    let trailers = header_map(&[("grpc-status", "404")]);

    let (res, _, _) = produce(vec![FrameEvent::Trailers(trailers)]);
    assert!(res.is_err());
    assert_eq!(res.err().unwrap().code(), StatusCode::Unimplemented);
}

#[test]
fn test_produce_request_no_trailers() {
    // Just data, then None
    let (res, items, trailers) = produce(vec![hello_frame()]);
    assert!(res.is_ok());

    assert_eq!(items, vec![b"hello".to_vec()]);
    // Should have default trailers (empty)
    assert!(trailers.unwrap().inner.is_empty());
}

#[test]
fn test_produce_partial_data() {
    // Incomplete header (3 bytes)
    let (res, _, _) = produce(vec![FrameEvent::Data(Bytes::from_static(&[0, 0, 0]))]);
    let err = res.err().unwrap();
    assert_eq!(err.code(), StatusCode::Internal);
    assert_eq!(err.message(), "Partial gRPC message");
}

#[test]
fn a_body_that_fails_ends_with_its_error() {
    let (res, items, trailers) = produce(vec![
        FrameEvent::Other,
        hello_frame(),
        FrameEvent::Failed("reset".to_string()),
    ]);
    assert_eq!(items.len(), 1);
    assert!(trailers.is_none());
    let err = res.err().unwrap();
    assert_eq!(err.code(), StatusCode::Internal);
    assert_eq!(err.message(), "reset");
}

#[test]
fn a_body_is_read_however_it_is_cut() {
    let all = b"\x00\x00\x00\x00\x03one\x01\x00\x00\x00\x00\x00\x00\x00\x00\x05three";
    for size in 1..=all.len() {
        let frames =
            all.chunks(size).map(|c| FrameEvent::Data(Bytes::copy_from_slice(c))).collect();
        let (res, items, _) = produce(frames);
        assert!(res.is_ok());
        assert_eq!(items, vec![b"one".to_vec(), b"".to_vec(), b"three".to_vec()]);
    }
}

#[test]
fn a_writer_that_refuses_ends_the_reading() {
    let writer = ItemWriter {
        refuses: true,
        ..ItemWriter::default()
    };
    let state = writer.state.clone();
    let producer = HyperStreamProducer::new(VecDeque::from(vec![hello_frame()]));
    let err = producer.produce_to_writer(writer.clone()).0.err().unwrap();
    assert_eq!(err.message(), "refused");
    assert!(state.lock().unwrap().trailers.is_none());

    let err = HyperStreamProducer::new(VecDeque::new()).produce_to_writer(writer).0.err().unwrap();
    assert_eq!(err.message(), "refused");
}

#[test]
fn a_body_is_a_stream_of_its_messages() {
    let trailers = header_map(&[("grpc-status", "503"), ("grpc-message", "busy")]);
    let producer = HyperStreamProducer::new(VecDeque::from(vec![
        hello_frame(),
        FrameEvent::Trailers(trailers),
    ]));
    let (res, writer) = producer.produce(PushStreamWriter::new(Lengths(Vec::new())));
    let err = res.err().unwrap();
    assert_eq!((err.code(), err.message()), (StatusCode::Unavailable, "busy"));
    assert_eq!(writer.into_consumer().0, vec![5]);
}

struct Lengths(Vec<usize>);

impl PushStreamConsumer<Incoming<BufList<Bytes>>> for Lengths {
    fn write(&mut self, item: Incoming<BufList<Bytes>>) -> Result<(), Status> {
        self.0.push(item.message_bytes.remaining());
        Ok(())
    }
}

#[test]
fn status_is_taken_out_of_trailers() {
    let map = header_map(&[("grpc-status", "403"), ("grpc-message", "no"), ("x-key", "v")]);
    let (status, metadata) = extract_status_and_trailers(map).ok().unwrap();
    let status = status.unwrap();
    assert_eq!(status.code(), StatusCode::PermissionDenied);
    assert_eq!(status.message(), "no");
    assert_eq!(metadata.inner.len(), 1);
    assert_eq!(metadata.inner["x-key"], "v");

    let (status, metadata) =
        extract_status_and_trailers(header_map(&[("grpc-message", "kept")])).ok().unwrap();
    assert!(status.is_none());
    assert_eq!(metadata.inner["grpc-message"], "kept");

    for bad in ["x", "", "99999999999"] {
        let err = extract_status_and_trailers(header_map(&[("grpc-status", bad)])).err().unwrap();
        assert_eq!(err.message(), "Invalid grpc-status header value");
    }
    let mut map = header_map(&[("grpc-status", "200")]);
    map.insert("grpc-message", HeaderValue::from_bytes(b"\xff").unwrap());
    let err = extract_status_and_trailers(map).err().unwrap();
    assert_eq!(err.message(), "Invalid grpc-message header value");
}

// --- Writing of bodies ---

#[test]
fn statuses_become_headers() {
    let trailers = Metadata::new(header_map(&[("x-key", "v"), ("grpc-status", "7")]));
    let map = status_to_header_map(&Status::new(StatusCode::NotFound, "gone"), &trailers)
        .ok()
        .unwrap();
    assert_eq!(map["grpc-status"], "5");
    assert_eq!(map["grpc-message"], "gone");
    assert_eq!(map["x-key"], "v");
    let map = status_to_header_map(&Status::new(StatusCode::OK, ""), &Metadata::default())
        .ok()
        .unwrap();
    assert_eq!(map["grpc-status"], "0");
    assert_eq!(map.len(), 1);
    let err = status_to_header_map(&Status::new(StatusCode::NotFound, "a\nb"), &trailers)
        .err()
        .unwrap();
    assert_eq!(err.code(), StatusCode::Internal);
    assert_eq!(err.message(), "Invalid status message");
}

#[test]
fn a_body_waits_for_the_status_and_the_trailers() {
    let mut body = HyperEncoderBody::new();
    assert!(matches!(body.on_message::<Bytes>(Polled::Pending), EncoderStep::Pending));
    match body.on_message(Polled::Ready(Some(Bytes::from_static(b"hi")))) {
        EncoderStep::Data(mut frame) => {
            let len = frame.remaining();
            assert_eq!(&frame.copy_to_bytes(len)[..], b"\x00\x00\x00\x00\x02hi");
        }
        _ => panic!("a frame is due"),
    }
    assert!(matches!(body.on_message::<Bytes>(Polled::Ready(None)), EncoderStep::Join));
    let step = body.on_join::<Bytes>(
        Polled::Ready(Ok(Status::new(StatusCode::OK, ""))),
        Polled::Pending,
    );
    assert!(matches!(step, EncoderStep::Pending));
    assert!(!body.needs_status());
    assert!(body.needs_trailers());
    match body.on_join::<Bytes>(Polled::Pending, Polled::Ready(Err(()))) {
        EncoderStep::Trailers(map) => assert_eq!(map["grpc-status"], "0"),
        _ => panic!("trailers are due"),
    }
}

#[test]
fn a_dropped_status_is_an_internal_error() {
    let mut body = HyperEncoderBody::new();
    match body.on_join::<Bytes>(Polled::Ready(Err(())), Polled::Ready(Ok(Metadata::default()))) {
        EncoderStep::Trailers(map) => {
            assert_eq!(map["grpc-status"], "13");
            assert_eq!(
                map["grpc-message"],
                "Handler dropped status channel without waiting"
            );
        }
        _ => panic!("trailers are due"),
    }
}

#[test]
fn a_status_that_cannot_be_told_fails_the_body() {
    let mut body = HyperEncoderBody::new();
    let step = body.on_join::<Bytes>(
        Polled::Ready(Ok(Status::new(StatusCode::Aborted, "\u{1}"))),
        Polled::Ready(Err(())),
    );
    assert!(matches!(step, EncoderStep::Error(e) if e.message() == "Invalid status message"));
}

/// The bytes of a framed message.
fn data_of(step: Polled<Result<EncodedFrame<Bytes>, Status>>) -> Vec<u8> {
    match step {
        Polled::Ready(Ok(EncodedFrame::Data(mut frame))) => {
            let len = frame.remaining();
            frame.copy_to_bytes(len).to_vec()
        }
        _ => panic!("a message is due"),
    }
}

#[test]
fn an_encoded_body_is_polled_to_its_end() {
    let mut source = ReadyParts {
        messages: VecDeque::from(vec![Bytes::from_static(b"hi"), Bytes::new()]),
        status: Some(Status::new(StatusCode::NotFound, "gone")),
        trailers: None,
    };
    let mut body = HyperEncoderBody::new();
    assert_eq!(data_of(body.poll_frame(&mut source)), b"\0\0\0\0\x02hi");
    assert_eq!(data_of(body.poll_frame(&mut source)), b"\0\0\0\0\0");
    // Asked behind its end, the body gives its end again.
    for _ in 0..2 {
        match body.poll_frame(&mut source) {
            Polled::Ready(Ok(EncodedFrame::Trailers(map))) => {
                assert_eq!(map.len(), 2);
                assert_eq!(map["grpc-status"], "5");
                assert_eq!(map["grpc-message"], "gone");
            }
            _ => panic!("the trailers are due"),
        }
    }
}

#[test]
fn an_encoded_body_fails_where_its_status_cannot_be_told() {
    let mut source = ReadyParts {
        messages: VecDeque::<Bytes>::new(),
        status: Some(Status::new(StatusCode::Internal, "two\nlines")),
        trailers: Some(Metadata::default()),
    };
    let mut body = HyperEncoderBody::new();
    let step = body.poll_frame(&mut source);
    assert!(matches!(step, Polled::Ready(Err(e)) if e.message() == "Invalid status message"));
}

/// Parts of which each is there only every other time that it is asked for.
struct SlowParts {
    parts: ReadyParts<Bytes>,
    asked: [bool; 3],
}

impl SlowParts {
    fn must_wait(&mut self, part: usize) -> bool {
        self.asked[part] = !self.asked[part];
        self.asked[part]
    }
}

impl EncoderSource<Bytes> for SlowParts {
    fn poll_message(&mut self) -> Polled<Option<Bytes>> {
        if self.must_wait(0) {
            return Polled::Pending;
        }
        self.parts.poll_message()
    }

    fn poll_status(&mut self) -> Polled<Result<Status, ()>> {
        if self.must_wait(1) {
            return Polled::Pending;
        }
        self.parts.poll_status()
    }

    fn poll_trailers(&mut self) -> Polled<Result<Metadata, ()>> {
        if self.must_wait(2) {
            return Polled::Pending;
        }
        self.parts.poll_trailers()
    }
}

#[test]
fn an_encoded_body_waits_for_its_parts() {
    let mut source = SlowParts {
        parts: ReadyParts {
            messages: VecDeque::from(vec![Bytes::from_static(b"x")]),
            status: None,
            trailers: Some(Metadata::default()),
        },
        asked: [false, false, true],
    };
    let mut body = HyperEncoderBody::new();
    assert!(matches!(body.poll_frame(&mut source), Polled::Pending));
    assert_eq!(data_of(body.poll_frame(&mut source)), b"\0\0\0\0\x01x");
    assert!(matches!(body.poll_frame(&mut source), Polled::Pending));
    // The messages are over, the metadata is there and the status is not.
    assert!(matches!(body.poll_frame(&mut source), Polled::Pending));
    assert!(!body.needs_trailers());
    assert!(body.needs_status());
    assert!(matches!(body.poll_frame(&mut source), Polled::Pending));
    match body.poll_frame(&mut source) {
        Polled::Ready(Ok(EncodedFrame::Trailers(map))) => {
            assert_eq!(map["grpc-status"], "13");
            assert_eq!(map["grpc-message"], "Handler dropped status channel without waiting");
        }
        _ => panic!("the trailers are due"),
    }
}

#[test]
fn writing_to_a_body_that_is_gone_fails() {
    assert!(write_result(true).is_ok());
    let err = write_result(false).err().unwrap();
    assert_eq!(err.code(), StatusCode::Internal);
    assert_eq!(err.message(), "Response receiver dropped");
}

// --- Whole calls ---

struct EchoHandler;

impl UnaryMethod<Timestamp, Timestamp> for EchoHandler {
    fn unary(&self, req: &Timestamp, resp: &mut Timestamp) -> Result<(), ServerStatus> {
        resp.set_seconds(req.seconds());
        resp.set_nanos(req.nanos());
        Ok(())
    }
}

struct DetailsHandler;

impl UnaryMethod<Timestamp, Timestamp> for DetailsHandler {
    fn unary(&self, _req: &Timestamp, resp: &mut Timestamp) -> Result<(), ServerStatus> {
        resp.set_seconds(999);
        Ok(())
    }
}

/// Takes the body of a request through the service to the response: its headers, its data and its
/// trailers.
fn full_cycle<H: UnaryMethod<Timestamp, Timestamp>>(
    handler: H,
    body: Vec<u8>,
) -> (HeaderMap, Bytes, HeaderMap) {
    let service = HyperGrpcService::new(Arc::new(handler));
    let (read, items, _) = produce(vec![FrameEvent::Data(Bytes::from(body))]);
    assert!(read.is_ok());
    let mut req = Timestamp::new();
    req.clear_and_parse(&items[0]).unwrap();
    let mut resp = Timestamp::new();
    let result = service.handler().unary(&req, &mut resp).map_err(|e| e.into_status());

    let headers = service.response_headers(Some(Metadata::default()));
    let mut encoder = HyperEncoderBody::new();
    let message = Bytes::from(resp.serialize().unwrap());
    let frame = match encoder.on_message(Polled::Ready(Some(message))) {
        EncoderStep::Data(mut frame) => {
            let len = frame.remaining();
            frame.copy_to_bytes(len)
        }
        _ => panic!("a frame is due"),
    };
    let status = service.final_status(result);
    let trailers = match encoder
        .on_join::<Bytes>(Polled::Ready(Ok(status)), Polled::Ready(Ok(Metadata::default())))
    {
        EncoderStep::Trailers(map) => map,
        _ => panic!("trailers are due"),
    };
    (headers, frame, trailers)
}

fn framed(ts: &Timestamp) -> Vec<u8> {
    let payload = ts.serialize().unwrap();
    let mut body = vec![0];
    body.extend_from_slice(&(payload.len() as u32).to_be_bytes());
    body.extend_from_slice(&payload);
    body
}

#[test]
fn test_hyper_transport_full_cycle() {
    let mut ts = Timestamp::new();
    ts.set_seconds(12345);

    let (headers, data, trailers) = full_cycle(EchoHandler, framed(&ts));

    // Verify Headers
    assert_eq!(headers.get("content-type").unwrap(), "application/grpc");

    // Check payload
    let resp_payload = &data[5..];
    let mut resp_ts = Timestamp::new();
    resp_ts.clear_and_parse(resp_payload).unwrap();
    assert_eq!(resp_ts.seconds(), 12345);

    // Verify Trailers
    assert_eq!(trailers.get("grpc-status").unwrap(), "0"); // OK
}

#[test]
fn test_hyper_transport_details() {
    // Construct valid empty Timestamp request (0,0)
    let ts = Timestamp::new();

    let (_, data, trailers) = full_cycle(DetailsHandler, framed(&ts));

    // Verify Data
    let resp_payload = &data[5..];
    let mut resp_ts = Timestamp::new();
    resp_ts.clear_and_parse(resp_payload).unwrap();
    assert_eq!(resp_ts.seconds(), 999);

    assert_eq!(trailers.get("grpc-status").unwrap(), "0");
}

#[test]
fn services_add_the_path_to_the_metadata() {
    let service = HyperGrpcService::new(Arc::new(()));
    let map = header_map(&[("x-key", "v"), ("path", "old")]);
    let metadata = service.request_metadata(&map, "/a/B");
    assert_eq!(metadata.inner["path"], "/a/B");
    assert_eq!(metadata.inner["x-key"], "v");
    let metadata = service.request_metadata(&map, "/a\n");
    assert_eq!(metadata.inner["path"], "old");

    assert_eq!(service.final_status(Ok(())).code(), StatusCode::OK);
    let status = service.final_status(Err(Status::new(StatusCode::Aborted, "m")));
    assert_eq!((status.code(), status.message()), (StatusCode::Aborted, "m"));

    let headers = service.response_headers(None);
    assert_eq!(headers.len(), 1);
    let headers = service.response_headers(Some(Metadata::new(header_map(&[
        ("x-key", "v"),
        ("content-type", "text/plain"),
    ]))));
    assert_eq!(headers["content-type"], "application/grpc");
    assert_eq!(headers["x-key"], "v");
}

// --- Serving ---

struct MockWriter {
    written: Arc<Mutex<Vec<Bytes>>>,
}

impl StreamingResponseWriter<Bytes> for MockWriter {
    type BodyWriter = MockWriter;

    fn send_initial_metadata(self, _metadata: Metadata) -> Result<MockWriter, NotSent<Self>> {
        Ok(self)
    }
}

impl StreamingResponseBodyWriter<Bytes> for MockWriter {
    fn write(&mut self, message: Bytes) -> Result<(), Status> {
        self.written.lock().unwrap().push(message);
        Ok(())
    }

    fn send_trailing_metadata(self, _metadata: Metadata) -> Result<(), NotSent<Self>> {
        Ok(())
    }
}

struct MockProducer;

impl PushStreamProducer<Incoming<BufList<Bytes>>> for MockProducer {
    fn produce<C: PushStreamConsumer<Incoming<BufList<Bytes>>>>(
        self,
        writer: PushStreamWriter<Incoming<BufList<Bytes>>, C>,
    ) -> (Result<(), Status>, PushStreamWriter<Incoming<BufList<Bytes>>, C>) {
        (Ok(()), writer)
    }
}

struct MockHandler;

impl ByteStreamMethodHandler<BufList<Bytes>, Bytes, MockWriter, MockProducer> for MockHandler {
    fn call(
        &self,
        _options: HandlerCallOptions,
        _req: StreamingRequest<Incoming<BufList<Bytes>>, MockProducer>,
        resp: MockWriter,
    ) -> Outcome<MockWriter, MockWriter> {
        (Ok(()), Left::Response(resp))
    }
}

/// Serves one simulated request for each connection.
fn serve<H>(handler: H, accepted: Vec<Result<(), String>>) -> Result<(), Status>
where
    H: ByteStreamMethodHandler<BufList<Bytes>, Bytes, MockWriter, MockProducer>,
{
    let transport = HyperTransport::new();
    for event in accepted {
        match transport.on_accept(event) {
            ServeStep::Serve => {
                let writer = MockWriter {
                    written: Arc::new(Mutex::new(Vec::new())),
                };
                let req =
                    StreamingRequest::new(PushStream::new(MockProducer), Metadata::default());
                handler.call(HandlerCallOptions::default(), req, writer).0?;
            }
            ServeStep::Stop(status) => return Err(status),
        }
    }
    Ok(())
}

#[test]
fn test_server_transport_serve() {
    let result = serve(MockHandler, vec![Ok(())]);
    assert!(result.is_ok());
}

#[test]
fn a_listener_that_fails_ends_the_serving() {
    let result = serve(MockHandler, vec![Ok(()), Err("mock".to_string()), Ok(())]);
    let err = result.err().unwrap();
    assert_eq!(err.code(), StatusCode::Internal);
    assert_eq!(err.message(), "mock");
}

#[test]
fn a_serving_loop_drains_before_it_returns() {
    let mut l = AcceptLoop::new(true);
    assert_eq!(l.step(AcceptEvent::Connection), AcceptAction::Serve);
    assert_eq!(l.step(AcceptEvent::Connection), AcceptAction::Serve);
    assert_eq!(l.step(AcceptEvent::ConnectionDone), AcceptAction::Wait);
    assert!(l.is_accepting());
    assert_eq!(l.step(AcceptEvent::Shutdown), AcceptAction::NotifyAndDrain);
    assert!(!l.is_accepting());
    assert_eq!(l.step(AcceptEvent::ConnectionDone), AcceptAction::Return);

    let mut l = AcceptLoop::new(true);
    assert_eq!(l.step(AcceptEvent::Connection), AcceptAction::Serve);
    assert_eq!(l.step(AcceptEvent::ListenerClosed), AcceptAction::Drain);
    assert_eq!(l.step(AcceptEvent::ConnectionDone), AcceptAction::Return);
}

#[test]
fn a_server_without_a_handler_drops_connections() {
    let mut l = AcceptLoop::new(false);
    assert_eq!(l.step(AcceptEvent::Connection), AcceptAction::Drop);
    assert_eq!(l.step(AcceptEvent::ListenerClosed), AcceptAction::Return);
    assert_eq!(AcceptLoop::new(true).step(AcceptEvent::Shutdown), AcceptAction::Return);
}
