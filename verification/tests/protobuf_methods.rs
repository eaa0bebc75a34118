//! The methods of a protobuf service, with `protobuf_well_known_types::Any` as the message type.

use bytes::Bytes;
use grpc::buf::Buf;
use grpc::client::CallOptions;
use grpc::protobuf::message::{Message, ParseMessage, SerializeMessage};
use grpc::protobuf::status::{Status, StatusError};
use grpc::protobuf::{
    BidiStreamingAdapter, BidiStreamingMethod, ClientStreamingAdapter, ClientStreamingMethod,
    GrpcStreamingRequest, GrpcStreamingResponse, ServerStreamingAdapter, ServerStreamingMethod,
    UnaryAdapter, UnaryMethod,
};
use grpc::rpc::{RecvMessage, RequestHeaders, SendMessage, ServerResponseStreamItem, Trailers};
use grpc::server::descriptor::{MethodDescriptor, MethodType, ServiceDescriptor};
use grpc::server::service::{Registrations, Service, ServiceRegistrar};
use grpc::server::{Handle, RecvStream, SendOptions, SendStream};
use grpc::status::StatusCodeError;
use protobuf::ClearAndParse;
use protobuf::Serialize;
use protobuf_well_known_types::Any;
use std::collections::VecDeque;
use std::sync::Arc;

// ---------------------------------------------------------------------------
// Test harness: a message type and mock send/recv streams.
// ---------------------------------------------------------------------------

struct AnyMessage(Any);

impl Message for AnyMessage {
    fn new_message() -> Self {
        AnyMessage(Any::new())
    }
}

impl ParseMessage for AnyMessage {
    fn clear_and_parse(&mut self, bytes: &[u8]) -> bool {
        self.0.clear_and_parse(bytes).is_ok()
    }
}

impl SerializeMessage for AnyMessage {
    fn serialize(&self) -> Option<Vec<u8>> {
        self.0.serialize().ok()
    }
}

fn encode(msg: &AnyMessage) -> Bytes {
    Bytes::from(msg.0.serialize().expect("serialize should succeed"))
}

fn any(type_url: &str) -> AnyMessage {
    let mut a = Any::new();
    a.set_type_url(type_url);
    AnyMessage(a)
}

fn type_url_of(bytes: &[u8]) -> String {
    let mut got = Any::new();
    got.clear_and_parse(bytes).expect("response should parse");
    got.type_url().to_string()
}

/// A receive stream that yields a fixed sequence of encoded messages.
struct Messages(VecDeque<Bytes>);

impl Messages {
    fn new(msgs: impl IntoIterator<Item = Bytes>) -> Self {
        Self(msgs.into_iter().collect())
    }
}

impl RecvStream for Messages {
    fn next<M: RecvMessage>(&mut self, msg: &mut M) -> Option<Result<(), ()>> {
        let mut bytes = self.0.pop_front()?;
        Some(msg.decode(&mut bytes).map_err(|_| ()))
    }
}

/// A send stream that records the encoded bytes of every message sent.
#[derive(Default)]
struct Captured {
    messages: Vec<Vec<u8>>,
    finals: Vec<bool>,
}

impl SendStream for Captured {
    fn send<M: SendMessage>(
        &mut self,
        item: ServerResponseStreamItem<'_, M>,
        options: SendOptions,
    ) -> Result<(), ()> {
        if let ServerResponseStreamItem::Message(m) = item {
            let mut buf = m.encode().expect("encode should succeed");
            let mut bytes = vec![0u8; buf.remaining()];
            buf.copy_to_slice(&mut bytes);
            self.messages.push(bytes);
            self.finals.push(options.final_msg);
        }
        Ok(())
    }
}

fn handled<H: Handle>(handler: &H, rx: Messages) -> (Trailers, Captured) {
    handler.handle(RequestHeaders::new(), CallOptions::default(), Captured::default(), rx)
}

// ---------------------------------------------------------------------------
// Unary methods.
// ---------------------------------------------------------------------------

struct EchoMethod;

impl UnaryMethod for EchoMethod {
    type Request = AnyMessage;
    type Response = AnyMessage;

    fn call(&self, request: &AnyMessage, response: &mut AnyMessage) -> Status {
        response.0.set_type_url(request.0.type_url());
        Ok(())
    }
}

struct FailMethod;

impl UnaryMethod for FailMethod {
    type Request = AnyMessage;
    type Response = AnyMessage;

    fn call(&self, _request: &AnyMessage, _response: &mut AnyMessage) -> Status {
        Err(StatusError::new(StatusCodeError::NotFound, "nope"))
    }
}

#[test]
fn unary_happy_path_echoes_and_returns_ok() {
    let adapter = UnaryAdapter::<EchoMethod>::new(EchoMethod);
    let rx = Messages::new([encode(&any("type.googleapis.com/echo"))]);

    let (trailers, tx) = handled(&adapter, rx);

    assert!(trailers.status().is_ok());
    assert_eq!(tx.messages.len(), 1);
    assert_eq!(type_url_of(&tx.messages[0]), "type.googleapis.com/echo");
}

#[test]
fn unary_error_status_produces_trailers_and_no_message() {
    let adapter = UnaryAdapter::<FailMethod>::new(FailMethod);
    let rx = Messages::new([encode(&AnyMessage(Any::new()))]);

    let (trailers, tx) = handled(&adapter, rx);

    let err = trailers.status().as_ref().unwrap_err();
    assert_eq!(err.code(), StatusCodeError::NotFound);
    assert!(tx.messages.is_empty());
}

#[test]
fn unary_missing_request_is_internal_error() {
    let adapter = UnaryAdapter::<EchoMethod>::new(EchoMethod);

    let (trailers, tx) = handled(&adapter, Messages::new([]));

    let err = trailers.status().as_ref().unwrap_err();
    assert_eq!(err.code(), StatusCodeError::Internal);
    assert!(tx.messages.is_empty());
}

#[test]
fn unary_broken_request_is_internal_error() {
    let adapter = UnaryAdapter::<EchoMethod>::new(EchoMethod);

    let (trailers, tx) = handled(&adapter, Messages::new([Bytes::from_static(b"\xff")]));

    let err = trailers.status().as_ref().unwrap_err();
    assert_eq!(err.code(), StatusCodeError::Internal);
    assert!(tx.messages.is_empty());
}

#[test]
fn unary_response_is_the_final_message() {
    let adapter = UnaryAdapter::<EchoMethod>::new(EchoMethod);
    let (_, tx) = handled(&adapter, Messages::new([encode(&any("x"))]));
    assert_eq!(tx.finals, vec![true]);
}

struct Detailed;

impl UnaryMethod for Detailed {
    type Request = AnyMessage;
    type Response = AnyMessage;

    fn call(&self, _request: &AnyMessage, _response: &mut AnyMessage) -> Status {
        let mut err = StatusError::new(StatusCodeError::Aborted, "again");
        err.set_payload(b"type", b"payload");
        Err(err)
    }
}

#[test]
fn unary_error_details_are_in_the_trailers() {
    let adapter = UnaryAdapter::new(Detailed);
    let (trailers, _) = handled(&adapter, Messages::new([encode(&any("x"))]));
    assert!(trailers.metadata().get_bin("grpc-status-details-bin").is_some());
    assert_eq!(trailers.status().as_ref().unwrap_err().message(), "again");
}

// ---------------------------------------------------------------------------
// Per-cardinality dispatch tests.
// ---------------------------------------------------------------------------

/// Server-streaming: emits `n` responses.
struct Repeat {
    n: usize,
}

impl ServerStreamingMethod for Repeat {
    type Request = AnyMessage;
    type Response = AnyMessage;

    fn call<Tx: SendStream>(
        &self,
        _request: &AnyMessage,
        mut responses: GrpcStreamingResponse<AnyMessage, Tx>,
    ) -> (Status, GrpcStreamingResponse<AnyMessage, Tx>) {
        for _ in 0..self.n {
            let resp = any("echo");
            if responses.send(&resp).is_err() {
                return (Err(StatusError::new(StatusCodeError::Cancelled, "send failed")), responses);
            }
        }
        (Ok(()), responses)
    }
}

#[test]
fn server_streaming_emits_n_responses_and_ok() {
    let adapter = ServerStreamingAdapter::new(Repeat { n: 3 });
    let rx = Messages::new([encode(&any("type.googleapis.com/echo"))]);

    let (trailers, tx) = handled(&adapter, rx);

    assert!(trailers.status().is_ok());
    assert_eq!(tx.messages.len(), 3);
    assert_eq!(tx.finals, vec![false, false, false]);
}

#[test]
fn server_streaming_missing_request_is_internal_error() {
    let adapter = ServerStreamingAdapter::new(Repeat { n: 3 });
    let (trailers, tx) = handled(&adapter, Messages::new([]));
    assert_eq!(trailers.status().as_ref().unwrap_err().code(), StatusCodeError::Internal);
    assert!(tx.messages.is_empty());
}

/// Client-streaming: counts request messages and reports the count.
struct Count;

impl ClientStreamingMethod for Count {
    type Request = AnyMessage;
    type Response = AnyMessage;

    fn call<Rx: RecvStream>(
        &self,
        mut requests: GrpcStreamingRequest<AnyMessage, Rx>,
        response: &mut AnyMessage,
    ) -> Status {
        let mut count = 0usize;
        while requests.recv().is_some() {
            count += 1;
        }
        response.0.set_type_url(format!("count/{count}"));
        Ok(())
    }
}

#[test]
fn client_streaming_counts_requests_and_flushes_one_response() {
    let adapter = ClientStreamingAdapter::new(Count);
    let rx = Messages::new([encode(&any("a")), encode(&any("b")), encode(&any("c"))]);

    let (trailers, tx) = handled(&adapter, rx);

    assert!(trailers.status().is_ok());
    assert_eq!(tx.messages.len(), 1);
    assert_eq!(tx.finals, vec![true]);
    assert_eq!(type_url_of(&tx.messages[0]), "count/3");
}

/// Bidi: echoes every request message back as a response.
struct Echo;

impl BidiStreamingMethod for Echo {
    type Request = AnyMessage;
    type Response = AnyMessage;

    fn call<Tx: SendStream, Rx: RecvStream>(
        &self,
        mut requests: GrpcStreamingRequest<AnyMessage, Rx>,
        mut responses: GrpcStreamingResponse<AnyMessage, Tx>,
    ) -> (Status, GrpcStreamingResponse<AnyMessage, Tx>) {
        while let Some(req) = requests.recv() {
            if responses.send(&req).is_err() {
                return (Err(StatusError::new(StatusCodeError::Cancelled, "send failed")), responses);
            }
        }
        (Ok(()), responses)
    }
}

#[test]
fn bidi_echoes_each_request() {
    let adapter = BidiStreamingAdapter::new(Echo);
    let rx = Messages::new([encode(&any("x")), encode(&any("y"))]);

    let (trailers, tx) = handled(&adapter, rx);

    assert!(trailers.status().is_ok());
    assert_eq!(tx.messages.len(), 2);
    assert_eq!(type_url_of(&tx.messages[0]), "x");
    assert_eq!(type_url_of(&tx.messages[1]), "y");
}

// ---------------------------------------------------------------------------
// A stand-in for generated code that registers one method of every cardinality.
// ---------------------------------------------------------------------------

/// Application service trait (what generated code would emit and the user implements).
trait DemoService {
    fn unary(&self, request: &AnyMessage, response: &mut AnyMessage) -> Status;
    fn server_stream<Tx: SendStream>(
        &self,
        request: &AnyMessage,
        responses: GrpcStreamingResponse<AnyMessage, Tx>,
    ) -> (Status, GrpcStreamingResponse<AnyMessage, Tx>);
    fn client_stream<Rx: RecvStream>(
        &self,
        requests: GrpcStreamingRequest<AnyMessage, Rx>,
        response: &mut AnyMessage,
    ) -> Status;
    fn bidi<Tx: SendStream, Rx: RecvStream>(
        &self,
        requests: GrpcStreamingRequest<AnyMessage, Rx>,
        responses: GrpcStreamingResponse<AnyMessage, Tx>,
    ) -> (Status, GrpcStreamingResponse<AnyMessage, Tx>);
}

struct DemoUnary<T> {
    service: Arc<T>,
}

impl<T: DemoService> UnaryMethod for DemoUnary<T> {
    type Request = AnyMessage;
    type Response = AnyMessage;

    fn call(&self, request: &AnyMessage, response: &mut AnyMessage) -> Status {
        self.service.unary(request, response)
    }
}

struct DemoServerStream<T> {
    service: Arc<T>,
}

impl<T: DemoService> ServerStreamingMethod for DemoServerStream<T> {
    type Request = AnyMessage;
    type Response = AnyMessage;

    fn call<Tx: SendStream>(
        &self,
        request: &AnyMessage,
        responses: GrpcStreamingResponse<AnyMessage, Tx>,
    ) -> (Status, GrpcStreamingResponse<AnyMessage, Tx>) {
        self.service.server_stream(request, responses)
    }
}

struct DemoClientStream<T> {
    service: Arc<T>,
}

impl<T: DemoService> ClientStreamingMethod for DemoClientStream<T> {
    type Request = AnyMessage;
    type Response = AnyMessage;

    fn call<Rx: RecvStream>(
        &self,
        requests: GrpcStreamingRequest<AnyMessage, Rx>,
        response: &mut AnyMessage,
    ) -> Status {
        self.service.client_stream(requests, response)
    }
}

struct DemoBidi<T> {
    service: Arc<T>,
}

impl<T: DemoService> BidiStreamingMethod for DemoBidi<T> {
    type Request = AnyMessage;
    type Response = AnyMessage;

    fn call<Tx: SendStream, Rx: RecvStream>(
        &self,
        requests: GrpcStreamingRequest<AnyMessage, Rx>,
        responses: GrpcStreamingResponse<AnyMessage, Tx>,
    ) -> (Status, GrpcStreamingResponse<AnyMessage, Tx>) {
        self.service.bidi(requests, responses)
    }
}

enum DemoHandler<T> {
    Unary(UnaryAdapter<DemoUnary<T>>),
    ServerStream(ServerStreamingAdapter<DemoServerStream<T>>),
    ClientStream(ClientStreamingAdapter<DemoClientStream<T>>),
    Bidi(BidiStreamingAdapter<DemoBidi<T>>),
}

impl<T: DemoService> Handle for DemoHandler<T> {
    fn handle<Tx: SendStream, Rx: RecvStream>(
        &self,
        headers: RequestHeaders,
        options: CallOptions,
        tx: Tx,
        rx: Rx,
    ) -> (Trailers, Tx) {
        match self {
            DemoHandler::Unary(h) => h.handle(headers, options, tx, rx),
            DemoHandler::ServerStream(h) => h.handle(headers, options, tx, rx),
            DemoHandler::ClientStream(h) => h.handle(headers, options, tx, rx),
            DemoHandler::Bidi(h) => h.handle(headers, options, tx, rx),
        }
    }
}

struct DemoServer<T> {
    service: Arc<T>,
}

impl<T: DemoService> DemoServer<T> {
    fn new(service: T) -> Self {
        Self {
            service: Arc::new(service),
        }
    }
}

impl<T: DemoService> Service<DemoHandler<T>> for DemoServer<T> {
    fn descriptor(&self) -> ServiceDescriptor {
        ServiceDescriptor::new(
            "demo.Demo",
            vec![
                MethodDescriptor::new("/demo.Demo/Unary", MethodType::Unary),
                MethodDescriptor::new("/demo.Demo/ServerStream", MethodType::ServerStreaming),
                MethodDescriptor::new("/demo.Demo/ClientStream", MethodType::ClientStreaming),
                MethodDescriptor::new("/demo.Demo/Bidi", MethodType::BidiStreaming),
            ],
        )
    }

    fn register_methods<R: ServiceRegistrar<DemoHandler<T>>>(self, registrar: &mut R) {
        registrar.register_method(
            MethodDescriptor::new("/demo.Demo/Unary", MethodType::Unary),
            DemoHandler::Unary(UnaryAdapter::new(DemoUnary {
                service: self.service.clone(),
            })),
        );
        registrar.register_method(
            MethodDescriptor::new("/demo.Demo/ServerStream", MethodType::ServerStreaming),
            DemoHandler::ServerStream(ServerStreamingAdapter::new(DemoServerStream {
                service: self.service.clone(),
            })),
        );
        registrar.register_method(
            MethodDescriptor::new("/demo.Demo/ClientStream", MethodType::ClientStreaming),
            DemoHandler::ClientStream(ClientStreamingAdapter::new(DemoClientStream {
                service: self.service.clone(),
            })),
        );
        registrar.register_method(
            MethodDescriptor::new("/demo.Demo/Bidi", MethodType::BidiStreaming),
            DemoHandler::Bidi(BidiStreamingAdapter::new(DemoBidi {
                service: self.service.clone(),
            })),
        );
    }
}

struct DemoImpl;

impl DemoService for DemoImpl {
    fn unary(&self, _request: &AnyMessage, _response: &mut AnyMessage) -> Status {
        Ok(())
    }
    fn server_stream<Tx: SendStream>(
        &self,
        _request: &AnyMessage,
        responses: GrpcStreamingResponse<AnyMessage, Tx>,
    ) -> (Status, GrpcStreamingResponse<AnyMessage, Tx>) {
        (Ok(()), responses)
    }
    fn client_stream<Rx: RecvStream>(
        &self,
        _requests: GrpcStreamingRequest<AnyMessage, Rx>,
        _response: &mut AnyMessage,
    ) -> Status {
        Ok(())
    }
    fn bidi<Tx: SendStream, Rx: RecvStream>(
        &self,
        _requests: GrpcStreamingRequest<AnyMessage, Rx>,
        responses: GrpcStreamingResponse<AnyMessage, Tx>,
    ) -> (Status, GrpcStreamingResponse<AnyMessage, Tx>) {
        (Ok(()), responses)
    }
}

#[test]
fn generated_service_shape_registers_all_cardinalities() {
    let server = DemoServer::new(DemoImpl);

    let descriptor = server.descriptor();
    assert_eq!(descriptor.name, "demo.Demo");
    assert_eq!(descriptor.methods.len(), 4);

    let mut registrations = Registrations::new();
    server.register_methods(&mut registrations);
    let methods = registrations.into_list();
    assert_eq!(methods.len(), 4);
    let paths: Vec<&str> = methods.iter().map(|(d, _)| d.full_path.as_ref()).collect();
    assert!(paths.contains(&"/demo.Demo/Unary"));
    assert!(paths.contains(&"/demo.Demo/ServerStream"));
    assert!(paths.contains(&"/demo.Demo/ClientStream"));
    assert!(paths.contains(&"/demo.Demo/Bidi"));

    for (_, handler) in &methods {
        let (trailers, _) = handled(handler, Messages::new([encode(&any("x"))]));
        assert!(trailers.status().is_ok());
    }
}
