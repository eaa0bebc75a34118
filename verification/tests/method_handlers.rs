use bytes::Bytes;
use grpc::buf::Buf;
use grpc::codec::compression::{CodecRegistry, Compressor};
use grpc::codec::serialization::{Deserialize, Serialize};
use grpc::server::call::lazy::Lazy;
use grpc::server::call::message_wrapper::{
    CompressionEncoding, Incoming, MessageReadOptions, MessageWriteOptions, Outgoing,
};
use grpc::server::call::metadata::Metadata;
use grpc::server::call::request::{HandlerCallOptions, StreamingRequest};
use grpc::server::call::streaming_response_writer::{
    ended_by, not_begun, Left, NotSent, Outcome, StreamingResponseBodyWriter,
    StreamingResponseWriter,
};
use grpc::server::call::test_util::{
    InitialMetadataWriter, StreamingResponseImpl, TrailingMetadataWriter,
};
use grpc::server::codegen_api::bidi_streaming::BidiStreamingMethod;
use grpc::server::codegen_api::client_streaming::ClientStreamingMethod;
use grpc::server::codegen_api::server_streaming::ServerStreamingMethod;
use grpc::server::codegen_api::service::{Service, ServiceRegistrar};
use grpc::server::codegen_api::unary::UnaryMethod;
use grpc::server::method_handler::{
    BidiStreamingAdapter, ByteStreamMethodHandler, CodecMessageStreamHandler,
    GenericByteStreamAdapter, GenericByteStreamMethodHandler, MessageStreamHandler,
    ServerStreamingAdapter,
};
use grpc::server::stream::{PushStream, PushStreamConsumer, PushStreamProducer, PushStreamWriter};
use grpc::status::{ServerStatus, Status, StatusCode};
use http::{HeaderMap, HeaderValue};
use protobuf_well_known_types::Timestamp;
use std::sync::atomic::{AtomicBool, Ordering};
use std::sync::{Arc, Mutex};

// --- Service registration ---

struct MockRegistrar {
    paths: Vec<String>,
}

impl ServiceRegistrar for MockRegistrar {
    fn register_unary<Req, Resp, H: UnaryMethod<Req, Resp>>(&mut self, path: &str, _handler: H) {
        self.paths.push(path.to_string());
    }

    fn register_server_streaming<Req, Resp, H: ServerStreamingMethod<Req, Resp>>(
        &mut self,
        _path: &str,
        _handler: H,
    ) {
    }

    fn register_client_streaming<Req, Resp, H: ClientStreamingMethod<Req, Resp>>(
        &mut self,
        _path: &str,
        _handler: H,
    ) {
    }

    fn register_bidi_streaming<Req, Resp, H: BidiStreamingMethod<Req, Resp>>(
        &mut self,
        _path: &str,
        _handler: H,
    ) {
    }
}

struct MockService;

impl Service for MockService {
    fn register_methods<R: ServiceRegistrar>(self, registrar: &mut R) {
        registrar.register_unary("/test", MockUnaryHandler);
    }
}

struct MockUnaryHandler;

impl UnaryMethod<Timestamp, Timestamp> for MockUnaryHandler {
    fn unary(&self, _req: &Timestamp, _resp: &mut Timestamp) -> Result<(), ServerStatus> {
        Ok(())
    }
}

#[test]
fn test_service_registration() {
    let mut registrar = MockRegistrar { paths: Vec::new() };
    let service = MockService;
    service.register_methods(&mut registrar);
    assert_eq!(registrar.paths, vec!["/test"]);
}

// --- Adapters of streaming methods ---

struct MockLazy(Timestamp);

impl Lazy<Timestamp> for MockLazy {
    fn resolve(self, mut dest: Timestamp) -> (Timestamp, Result<(), Status>) {
        dest.set_seconds(self.0.seconds());
        (dest, Ok(()))
    }
}

fn timestamp(seconds: i64) -> Timestamp {
    let mut t = Timestamp::new();
    t.set_seconds(seconds);
    t
}

struct MockLazyProducer {
    items: Vec<Timestamp>,
}

impl PushStreamProducer<MockLazy> for MockLazyProducer {
    fn produce<C: PushStreamConsumer<MockLazy>>(
        self,
        mut writer: PushStreamWriter<MockLazy, C>,
    ) -> (Result<(), Status>, PushStreamWriter<MockLazy, C>) {
        for item in self.items {
            if let Err(e) = writer.write(MockLazy(item)) {
                return (Err(e), writer);
            }
        }
        (Ok(()), writer)
    }
}

#[derive(Clone)]
struct MockMetadataWriter {
    sent_initial: Arc<AtomicBool>,
    sent_trailing: Arc<AtomicBool>,
}

impl MockMetadataWriter {
    fn new() -> Self {
        Self {
            sent_initial: Arc::new(AtomicBool::new(false)),
            sent_trailing: Arc::new(AtomicBool::new(false)),
        }
    }
}

impl InitialMetadataWriter for MockMetadataWriter {
    fn send_initial_metadata(self, _metadata: Metadata) -> Result<(), Status> {
        self.sent_initial.store(true, Ordering::SeqCst);
        Ok(())
    }
}

impl TrailingMetadataWriter for MockMetadataWriter {
    fn send_trailing_metadata(self, _metadata: Metadata) -> Result<(), Status> {
        self.sent_trailing.store(true, Ordering::SeqCst);
        Ok(())
    }
}

struct MockV2Consumer {
    seconds: Arc<Mutex<Vec<i64>>>,
}

impl PushStreamConsumer<Outgoing<Timestamp>> for MockV2Consumer {
    fn write(&mut self, item: Outgoing<Timestamp>) -> Result<(), Status> {
        self.seconds.lock().unwrap().push(item.message.seconds());
        Ok(())
    }
}

/// What comes of a handler that is given requests: its result, the responses, and which metadata
/// was sent.
fn handled<H>(handler: &H, requests: &[i64]) -> (Result<(), Status>, Vec<i64>, bool, bool)
where
    H: MessageStreamHandler<
        Timestamp,
        Timestamp,
        MockLazy,
        MockLazyProducer,
        StreamingResponseImpl<
            Outgoing<Timestamp>,
            MockV2Consumer,
            MockMetadataWriter,
            MockMetadataWriter,
        >,
    >,
{
    let producer = MockLazyProducer {
        items: requests.iter().map(|s| timestamp(*s)).collect(),
    };
    let req = StreamingRequest::new(PushStream::new(producer), Metadata::default());
    let seconds = Arc::new(Mutex::new(Vec::new()));
    let stream_writer = PushStreamWriter::new(MockV2Consumer {
        seconds: seconds.clone(),
    });
    let metadata_writer = MockMetadataWriter::new();
    let writer = StreamingResponseImpl::new(
        stream_writer,
        metadata_writer.clone(),
        metadata_writer.clone(),
    );
    let (r, _) = handler.call(HandlerCallOptions::default(), req, writer);
    let written = seconds.lock().unwrap().clone();
    (
        r,
        written,
        metadata_writer.sent_initial.load(Ordering::SeqCst),
        metadata_writer.sent_trailing.load(Ordering::SeqCst),
    )
}

struct MockBidiStreamingMethodV2;

impl BidiStreamingMethod<Timestamp, Timestamp> for MockBidiStreamingMethodV2 {
    fn bidi_streaming<P: PushStreamProducer<Timestamp>, C: PushStreamConsumer<Timestamp>>(
        &self,
        _req: PushStream<Timestamp, P>,
        mut writer: PushStreamWriter<Timestamp, C>,
    ) -> (Result<(), ServerStatus>, PushStreamWriter<Timestamp, C>) {
        // Write one item
        writer.write(timestamp(100)).ok().unwrap();
        (Ok(()), writer)
    }
}

#[test]
fn test_bidi_streaming_adapter_v2_success() {
    let adapter = BidiStreamingAdapter(MockBidiStreamingMethodV2);

    let (result, written, initial, trailing) = handled(&adapter, &[]);

    assert!(result.is_ok());
    assert_eq!(written, vec![100]);
    assert!(initial);
    assert!(trailing);
}

/// A consumer of requests that answers each with its double.
struct Doubler<C> {
    writer: PushStreamWriter<Timestamp, C>,
}

impl<C: PushStreamConsumer<Timestamp>> PushStreamConsumer<Timestamp> for Doubler<C> {
    fn write(&mut self, item: Timestamp) -> Result<(), Status> {
        self.writer.write(timestamp(item.seconds() * 2))
    }
}

struct Doubling;

impl BidiStreamingMethod<Timestamp, Timestamp> for Doubling {
    fn bidi_streaming<P: PushStreamProducer<Timestamp>, C: PushStreamConsumer<Timestamp>>(
        &self,
        req: PushStream<Timestamp, P>,
        writer: PushStreamWriter<Timestamp, C>,
    ) -> (Result<(), ServerStatus>, PushStreamWriter<Timestamp, C>) {
        let (r, doubler) = req.run(PushStreamWriter::new(Doubler { writer }));
        let r = r.map_err(|e| ServerStatus::new(e.code(), e.message()));
        (r, doubler.into_consumer().writer)
    }
}

#[test]
fn bidi_requests_are_read_and_answered_in_order() {
    let (result, written, _, trailing) = handled(&BidiStreamingAdapter(Doubling), &[1, 2, 3]);
    assert!(result.is_ok());
    assert_eq!(written, vec![2, 4, 6]);
    assert!(trailing);
}

struct FailingBidi;

impl BidiStreamingMethod<Timestamp, Timestamp> for FailingBidi {
    fn bidi_streaming<P: PushStreamProducer<Timestamp>, C: PushStreamConsumer<Timestamp>>(
        &self,
        _req: PushStream<Timestamp, P>,
        writer: PushStreamWriter<Timestamp, C>,
    ) -> (Result<(), ServerStatus>, PushStreamWriter<Timestamp, C>) {
        (Err(ServerStatus::new(StatusCode::Aborted, "stop")), writer)
    }
}

#[test]
fn a_failed_bidi_method_sends_no_trailing_metadata() {
    let (result, _, initial, trailing) = handled(&BidiStreamingAdapter(FailingBidi), &[]);
    let err = result.err().unwrap();
    assert_eq!(err.code(), StatusCode::Aborted);
    assert_eq!(err.message(), "stop");
    assert!(initial);
    assert!(!trailing);
}

struct MockServerStreamingMethodV2 {
    expected_req: Timestamp,
}

impl ServerStreamingMethod<Timestamp, Timestamp> for MockServerStreamingMethodV2 {
    fn server_streaming<C: PushStreamConsumer<Timestamp>>(
        &self,
        req: &Timestamp,
        mut writer: PushStreamWriter<Timestamp, C>,
    ) -> (Result<(), ServerStatus>, PushStreamWriter<Timestamp, C>) {
        if req.seconds() != self.expected_req.seconds() {
            return (Err(ServerStatus::new(StatusCode::Internal, "req mismatch")), writer);
        }
        writer.write(timestamp(req.seconds())).ok().unwrap();
        (Ok(()), writer)
    }
}

#[test]
fn test_server_streaming_adapter_v2_success() {
    let adapter = ServerStreamingAdapter(MockServerStreamingMethodV2 {
        expected_req: timestamp(42),
    });

    let (result, written, sent_initial, sent_trailing) = handled(&adapter, &[42]);

    assert!(result.is_ok());
    assert_eq!(written, vec![42]);
    assert!(sent_initial);
    assert!(sent_trailing);
}

#[test]
fn a_server_streaming_method_has_one_request() {
    let adapter = ServerStreamingAdapter(MockServerStreamingMethodV2 {
        expected_req: timestamp(42),
    });

    let (result, written, _, trailing) = handled(&adapter, &[42, 43]);
    assert_eq!(result.err().unwrap().code(), StatusCode::Internal);
    assert_eq!(written, vec![42]);
    assert!(!trailing);

    let (result, _, _, trailing) = handled(&adapter, &[41]);
    assert_eq!(result.err().unwrap().message(), "req mismatch");
    assert!(!trailing);
}

// --- Messages as bytes ---

/// A message of one number, in decimal digits.
#[derive(Default)]
struct Number(u64);

impl Serialize for Number {
    fn serialize(&self, buf: &mut Vec<u8>) -> Result<(), Status> {
        if self.0 == 13 {
            return Err(Status::new(StatusCode::Internal, "unlucky"));
        }
        buf.extend_from_slice(self.0.to_string().as_bytes());
        Ok(())
    }
}

impl Deserialize for Number {
    fn deserialize<B: Buf>(&mut self, buf: &mut B) -> Result<(), Status> {
        let len = buf.remaining();
        let text = String::from_utf8(buf.copy_to_bytes(len).to_vec()).unwrap();
        self.0 = text.parse().map_err(|_| Status::new(StatusCode::Internal, "no number"))?;
        Ok(())
    }
}

/// Turns bytes around; fails on an empty message.
struct Reversal;

impl Compressor for Reversal {
    fn compress(&self, bytes: &[u8]) -> Result<Vec<u8>, String> {
        if bytes == b"99" {
            return Err("too dense".to_string());
        }
        Ok(bytes.iter().rev().copied().collect())
    }

    fn decompress<B: Buf>(&self, data: &mut B) -> Result<Vec<u8>, String> {
        let len = data.remaining();
        if len == 0 {
            return Err("nothing there".to_string());
        }
        Ok(data.copy_to_bytes(len).iter().rev().copied().collect())
    }
}

struct Registry;

impl CodecRegistry for Registry {
    type Codec = Reversal;

    fn get_codec(name: &str) -> Option<Arc<Reversal>> {
        if name == "reversal" {
            Some(Arc::new(Reversal))
        } else {
            None
        }
    }
}

/// A handler that records the requests and returns fixed responses.
struct NumberHandler {
    received: Arc<Mutex<Vec<u64>>>,
    resps_to_return: Vec<(u64, Option<MessageWriteOptions>)>,
}

struct Collecting {
    received: Arc<Mutex<Vec<u64>>>,
}

impl<L: Lazy<Number>> PushStreamConsumer<L> for Collecting {
    fn write(&mut self, item: L) -> Result<(), Status> {
        let (msg, r) = item.resolve(Number::default());
        r?;
        self.received.lock().unwrap().push(msg.0);
        Ok(())
    }
}

impl<
        L: Lazy<Number>,
        P: PushStreamProducer<L>,
        W: StreamingResponseWriter<Outgoing<Number>>,
    > MessageStreamHandler<Number, Number, L, P, W> for NumberHandler
{
    fn call(
        &self,
        _options: HandlerCallOptions,
        req: StreamingRequest<L, P>,
        writer: W,
    ) -> Outcome<W, W::BodyWriter> {
        let (_, stream) = req.into_parts();
        let consumer = Collecting {
            received: self.received.clone(),
        };
        if let Err(e) = stream.run(PushStreamWriter::new(consumer)).0 {
            return (Err(e), Left::Response(writer));
        }

        let mut body_writer = match writer.send_initial_metadata(Metadata::default()) {
            Ok(body_writer) => body_writer,
            Err(e) => return not_begun(e),
        };
        for (number, options) in &self.resps_to_return {
            let mut outgoing = Outgoing::new(Number(*number));
            outgoing.options = *options;
            if let Err(e) = body_writer.write(outgoing) {
                return (Err(e), Left::Body(body_writer));
            }
        }
        ended_by(body_writer.send_trailing_metadata(Metadata::default()))
    }
}

struct RawProducer {
    messages: Vec<Incoming<Bytes>>,
}

impl PushStreamProducer<Incoming<Bytes>> for RawProducer {
    fn produce<C: PushStreamConsumer<Incoming<Bytes>>>(
        self,
        mut writer: PushStreamWriter<Incoming<Bytes>, C>,
    ) -> (Result<(), Status>, PushStreamWriter<Incoming<Bytes>, C>) {
        for msg in self.messages {
            if let Err(e) = writer.write(msg) {
                return (Err(e), writer);
            }
        }
        (Ok(()), writer)
    }
}

#[derive(Clone, Default)]
struct RawWriter {
    written: Arc<Mutex<Vec<Bytes>>>,
    begun: Arc<Mutex<bool>>,
}

impl StreamingResponseWriter<Bytes> for RawWriter {
    type BodyWriter = RawWriter;

    fn send_initial_metadata(self, _metadata: Metadata) -> Result<RawWriter, NotSent<Self>> {
        *self.begun.lock().unwrap() = true;
        Ok(self)
    }
}

impl StreamingResponseBodyWriter<Bytes> for RawWriter {
    fn write(&mut self, message: Bytes) -> Result<(), Status> {
        self.written.lock().unwrap().push(message);
        Ok(())
    }

    fn send_trailing_metadata(self, _metadata: Metadata) -> Result<(), NotSent<Self>> {
        Ok(())
    }
}

fn raw_request(
    messages: &[&[u8]],
    headers: &[(&'static str, &'static str)],
) -> StreamingRequest<Incoming<Bytes>, RawProducer> {
    let messages = messages
        .iter()
        .map(|m| Incoming {
            message_bytes: Bytes::copy_from_slice(m),
            options: Some(MessageReadOptions { compressed: false }),
        })
        .collect();
    let mut map = HeaderMap::new();
    for (name, value) in headers {
        map.insert(*name, HeaderValue::from_static(value));
    }
    StreamingRequest::new(PushStream::new(RawProducer { messages }), Metadata::new(map))
}

/// What comes of a call: its result, the requests and the responses.
fn coded(
    messages: &[&[u8]],
    headers: &[(&'static str, &'static str)],
    encoding: Option<&str>,
    responses: &[(u64, Option<MessageWriteOptions>)],
) -> (Result<(), Status>, Vec<u64>, Vec<Vec<u8>>) {
    let received = Arc::new(Mutex::new(Vec::new()));
    let handler: CodecMessageStreamHandler<NumberHandler, Registry, Number, Number> =
        CodecMessageStreamHandler::new(NumberHandler {
            received: received.clone(),
            resps_to_return: responses.to_vec(),
        });
    let writer = RawWriter::default();
    let options = HandlerCallOptions {
        compression_encoding: encoding.map(|e| e.to_string()),
    };
    let (r, left) = GenericByteStreamMethodHandler::call(
        &handler,
        options,
        raw_request(messages, headers),
        writer.clone(),
    );
    // What is left says whether anything was sent.
    assert_eq!(matches!(left, Left::Response(_)), !*writer.begun.lock().unwrap());
    let received = received.lock().unwrap().clone();
    let written = writer.written.lock().unwrap().iter().map(|b| b.to_vec()).collect();
    (r, received, written)
}

#[test]
fn test_codec_message_stream_handler_success() {
    let (result, received, written) =
        coded(&[b"10", b"20"], &[], None, &[(100, None), (200, None)]);

    assert!(result.is_ok());
    assert_eq!(received, vec![10, 20]);
    assert_eq!(written, vec![b"100".to_vec(), b"200".to_vec()]);
}

#[test]
fn a_compressed_call_is_decompressed() {
    let (result, received, written) =
        coded(&[b"01", b"02"], &[("grpc-encoding", "reversal")], None, &[(123, None)]);
    assert!(result.is_ok());
    assert_eq!(received, vec![10, 20]);
    assert_eq!(written, vec![b"123".to_vec()]);
}

#[test]
fn an_unknown_encoding_is_unimplemented() {
    let (result, received, _) = coded(&[b"01"], &[("grpc-encoding", "zip")], None, &[]);
    let err = result.err().unwrap();
    assert_eq!(err.code(), StatusCode::Unimplemented);
    assert!(err.message().contains("zip"));
    assert!(received.is_empty());
}

#[test]
fn a_message_that_cannot_be_decompressed_fails_the_call() {
    let (result, _, _) = coded(&[b""], &[("grpc-encoding", "reversal")], None, &[]);
    let err = result.err().unwrap();
    assert_eq!(err.code(), StatusCode::Internal);
    assert_eq!(err.message(), "decompression error: nothing there");
}

#[test]
fn a_message_that_cannot_be_read_fails_the_call() {
    let (result, _, _) = coded(&[b"x"], &[], None, &[]);
    assert_eq!(result.err().unwrap().message(), "no number");
}

const ACCEPTS: (&str, &str) = ("grpc-accept-encoding", "gzip, reversal");

fn compression(compression: CompressionEncoding) -> Option<MessageWriteOptions> {
    Some(MessageWriteOptions { compression })
}

#[test]
fn responses_are_compressed_as_their_options_say() {
    let responses = [
        (12, None),
        (34, compression(CompressionEncoding::Inherit)),
        (56, compression(CompressionEncoding::Enabled)),
        (78, compression(CompressionEncoding::Disabled)),
    ];
    let (result, _, written) = coded(&[], &[ACCEPTS], Some("reversal"), &responses);
    assert!(result.is_ok());
    assert_eq!(
        written,
        vec![b"21".to_vec(), b"43".to_vec(), b"65".to_vec(), b"78".to_vec()]
    );
}

#[test]
fn responses_are_not_compressed_where_the_client_does_not_accept_it() {
    let (result, _, written) = coded(&[], &[], Some("reversal"), &[(12, None)]);
    assert!(result.is_ok());
    assert_eq!(written, vec![b"12".to_vec()]);
}

#[test]
fn a_response_that_cannot_be_compressed_fails_the_call() {
    let (result, _, written) = coded(&[], &[ACCEPTS], Some("reversal"), &[(99, None)]);
    let err = result.err().unwrap();
    assert_eq!(err.code(), StatusCode::Internal);
    assert!(err.message().contains("too dense"));
    assert!(written.is_empty());
}

#[test]
fn a_response_that_cannot_be_serialized_fails_the_call() {
    let (result, _, written) = coded(&[], &[], None, &[(13, None)]);
    let err = result.err().unwrap();
    assert_eq!(err.code(), StatusCode::Internal);
    assert_eq!(
        err.message(),
        "serialization error: Status { code: Internal, message: \"unlucky\" }"
    );
    assert!(written.is_empty());
}

#[test]
fn a_generic_handler_is_a_handler_for_each_writer() {
    let received = Arc::new(Mutex::new(Vec::new()));
    let handler: CodecMessageStreamHandler<NumberHandler, Registry, Number, Number> =
        CodecMessageStreamHandler::new(NumberHandler {
            received: received.clone(),
            resps_to_return: vec![],
        });
    let (r, left) = ByteStreamMethodHandler::call(
        &GenericByteStreamAdapter(handler),
        HandlerCallOptions::default(),
        raw_request(&[b"7"], &[]),
        RawWriter::default(),
    );
    assert!(r.is_ok());
    assert!(matches!(left, Left::Nothing));
    assert_eq!(*received.lock().unwrap(), vec![7]);
}

#[test]
fn accepted_encodings_are_listed_in_the_metadata() {
    let mut map = HeaderMap::new();
    map.insert("grpc-accept-encoding", HeaderValue::from_static("gzip, reversal,br"));
    map.insert("grpc-encoding", HeaderValue::from_static("gzip"));
    let metadata = Metadata::new(map);
    assert!(metadata.accepts_encoding("gzip"));
    assert!(metadata.accepts_encoding("reversal"));
    assert!(metadata.accepts_encoding("br"));
    assert!(!metadata.accepts_encoding("zip"));
    assert_eq!(metadata.encoding(), Some("gzip"));
    assert_eq!(Metadata::default().encoding(), None);
    assert!(!Metadata::default().accepts_encoding("gzip"));
}
