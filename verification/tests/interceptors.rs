use bytes::Bytes;
use grpc::buf::Buf;
use grpc::server::call::lazy::Lazy;
use grpc::server::call::message_wrapper::{Incoming, Outgoing};
use grpc::server::call::metadata::Metadata;
use grpc::server::call::request::{HandlerCallOptions, StreamingRequest};
use grpc::server::call::streaming_response_writer::{
    ended_by, not_begun, Left, NotSent, Outcome, StreamingResponseBodyWriter,
    StreamingResponseWriter,
};
use grpc::server::interceptor::definition::{
    ByteStreamInterceptor, ByteStreamInterceptorFactory, Interceptor, InterceptorFactory,
};
use grpc::server::interceptor::extension::{ByteStreamInterceptorExt, InterceptorExt};
use grpc::server::interceptor::intercepted_handler::{
    InterceptedByteStreamHandler, InterceptedMethodHandler,
};
use grpc::server::interceptor::metadata_interceptor::{
    self, Chain, InterceptionResult, MetadataInterceptor, MetadataInterceptorAdapter,
    ServerMetadataHandler,
};
use grpc::server::interceptor::noop::NoopInterceptor;
use grpc::server::method_handler::{GenericByteStreamMethodHandler, MessageStreamHandler};
use grpc::server::stream::{PushStream, PushStreamConsumer, PushStreamProducer, PushStreamWriter};
use grpc::status::{Status, StatusCode};
use http::HeaderMap;
use protobuf_well_known_types::Timestamp;
use std::marker::PhantomData;
use std::sync::atomic::{AtomicUsize, Ordering};
use std::sync::{Arc, Mutex};

// --- Messages ---

#[derive(Clone)]
struct MockHandler {
    call_count: Arc<AtomicUsize>,
}

impl MockHandler {
    fn new() -> Self {
        Self {
            call_count: Arc::new(AtomicUsize::new(0)),
        }
    }
}

impl<
        L: Lazy<Timestamp>,
        P: PushStreamProducer<L>,
        W: StreamingResponseWriter<Outgoing<Timestamp>>,
    > MessageStreamHandler<Timestamp, Timestamp, L, P, W> for MockHandler
{
    fn call(
        &self,
        _options: HandlerCallOptions,
        _req: StreamingRequest<L, P>,
        writer: W,
    ) -> Outcome<W, W::BodyWriter> {
        self.call_count.fetch_add(1, Ordering::SeqCst);
        (Ok(()), Left::Response(writer))
    }
}

#[derive(Clone)]
struct MockInterceptor {
    id: usize,
    order: Arc<Mutex<Vec<usize>>>,
    call_count: Arc<AtomicUsize>,
}

impl MockInterceptor {
    fn new(id: usize, order: Arc<Mutex<Vec<usize>>>) -> Self {
        Self {
            id,
            order,
            call_count: Arc::new(AtomicUsize::new(0)),
        }
    }
}

impl<
        H: MessageStreamHandler<Req, Resp, L, P, W>,
        Req,
        Resp,
        L: Lazy<Req>,
        P: PushStreamProducer<L>,
        W: StreamingResponseWriter<Outgoing<Resp>>,
    > Interceptor<H, Req, Resp, L, P, W> for MockInterceptor
{
    fn intercept(
        &self,
        handler: &H,
        options: HandlerCallOptions,
        req: StreamingRequest<L, P>,
        writer: W,
    ) -> Outcome<W, W::BodyWriter> {
        // Record execution order
        self.order.lock().unwrap().push(self.id);
        self.call_count.fetch_add(1, Ordering::SeqCst);

        // Call inner handler
        handler.call(options, req, writer)
    }
}

struct MockLazy {
    inner: Option<Timestamp>,
}

impl Lazy<Timestamp> for MockLazy {
    fn resolve(mut self, mut target: Timestamp) -> (Timestamp, Result<(), Status>) {
        if let Some(val) = self.inner.take() {
            target.set_seconds(val.seconds());
            target.set_nanos(val.nanos());
        }
        (target, Ok(()))
    }
}

struct MockProducer;

impl<T> PushStreamProducer<T> for MockProducer {
    fn produce<C: PushStreamConsumer<T>>(
        self,
        writer: PushStreamWriter<T, C>,
    ) -> (Result<(), Status>, PushStreamWriter<T, C>) {
        (Ok(()), writer)
    }
}

struct MockWriter;

impl<T> StreamingResponseWriter<T> for MockWriter {
    type BodyWriter = MockBodyWriter;

    fn send_initial_metadata(self, _metadata: Metadata) -> Result<MockBodyWriter, NotSent<Self>> {
        Ok(MockBodyWriter)
    }
}

struct MockBodyWriter;

impl<T> StreamingResponseBodyWriter<T> for MockBodyWriter {
    fn write(&mut self, _item: T) -> Result<(), Status> {
        Ok(())
    }

    fn send_trailing_metadata(self, _trailers: Metadata) -> Result<(), NotSent<Self>> {
        Ok(())
    }
}

fn request<T>() -> StreamingRequest<T, MockProducer> {
    StreamingRequest::new(PushStream::new(MockProducer), Metadata::default())
}

#[test]
fn test_chain_ordering() {
    let order = Arc::new(Mutex::new(Vec::new()));
    let first = MockInterceptor::new(1, order.clone());
    let second = MockInterceptor::new(2, order.clone());

    let chained = InterceptorExt::chain(first, second);

    chained
        .intercept(
            &MockHandler::new(),
            HandlerCallOptions::default(),
            request::<MockLazy>(),
            MockWriter,
        )
        .0
        .ok()
        .unwrap();
    assert_eq!(*order.lock().unwrap(), vec![1, 2]);
}

#[test]
fn test_interceptor_v2_chaining_order() {
    let handler = MockHandler::new();
    let order = Arc::new(Mutex::new(Vec::new()));

    let outer = MockInterceptor::new(1, order.clone());
    let inner = MockInterceptor::new(2, order.clone());

    let chained = InterceptorExt::chain(outer, inner);

    let intercepted_handler = InterceptedMethodHandler {
        inner: handler.clone(),
        interceptor: chained,
    };

    let options = HandlerCallOptions::default();

    intercepted_handler
        .call(options, request::<MockLazy>(), MockWriter)
        .0
        .ok()
        .unwrap();

    assert_eq!(order.lock().unwrap().len(), 2);
    assert_eq!(handler.call_count.load(Ordering::SeqCst), 1);
}

#[test]
fn test_interceptor_v2_call() {
    let handler = MockHandler::new();
    let order = Arc::new(Mutex::new(Vec::new()));
    let interceptor = MockInterceptor::new(1, order.clone());

    let intercepted_handler = InterceptedMethodHandler {
        inner: handler.clone(),
        interceptor: interceptor.clone(),
    };

    let options = HandlerCallOptions::default();

    intercepted_handler
        .call(options, request::<MockLazy>(), MockWriter)
        .0
        .ok()
        .unwrap();

    assert_eq!(interceptor.call_count.load(Ordering::SeqCst), 1);
    assert_eq!(handler.call_count.load(Ordering::SeqCst), 1);
}

#[test]
fn test_chain_compiles() {
    let order = Arc::new(Mutex::new(Vec::new()));
    let a = MockInterceptor::new(1, order.clone());
    let b = MockInterceptor::new(2, order);
    let _chained = InterceptorExt::chain(a, b);
}

#[test]
fn no_interceptor_is_as_none() {
    let handler = MockHandler::new();
    let intercepted = InterceptedMethodHandler {
        inner: handler.clone(),
        interceptor: InterceptorFactory::create(&NoopInterceptor {}),
    };
    intercepted
        .call(HandlerCallOptions::default(), request::<MockLazy>(), MockWriter)
        .0
        .ok()
        .unwrap();
    assert_eq!(handler.call_count.load(Ordering::SeqCst), 1);
}

// --- Bytes ---

struct MockByteStreamHandler;

impl<
        ReqB: Buf,
        P: PushStreamProducer<Incoming<ReqB>>,
        W: StreamingResponseWriter<Bytes>,
    > GenericByteStreamMethodHandler<ReqB, Bytes, P, W> for MockByteStreamHandler
{
    fn call(
        &self,
        _options: HandlerCallOptions,
        _req: StreamingRequest<Incoming<ReqB>, P>,
        resp: W,
    ) -> Outcome<W, W::BodyWriter> {
        let mut writer = match resp.send_initial_metadata(Metadata::new(HeaderMap::new())) {
            Ok(writer) => writer,
            Err(e) => return not_begun(e),
        };
        if let Err(e) = writer.write(Bytes::from("hello")) {
            return (Err(e), Left::Body(writer));
        }
        ended_by(writer.send_trailing_metadata(Metadata::new(HeaderMap::new())))
    }
}

struct MockByteStreamInterceptor {
    id: usize,
    order: Arc<Mutex<Vec<usize>>>,
}

impl<
        H: GenericByteStreamMethodHandler<ReqB, RespB, P, W>,
        ReqB: Buf,
        RespB: Buf,
        P: PushStreamProducer<Incoming<ReqB>>,
        W: StreamingResponseWriter<RespB>,
    > ByteStreamInterceptor<H, ReqB, RespB, P, W, W> for MockByteStreamInterceptor
{
    fn intercept(
        &self,
        handler: &H,
        options: HandlerCallOptions,
        req: StreamingRequest<Incoming<ReqB>, P>,
        resp: W,
    ) -> Outcome<W, W::BodyWriter> {
        self.order.lock().unwrap().push(self.id);
        handler.call(options, req, resp)
    }
}

fn assert_bs_interceptor<
    T: ByteStreamInterceptor<
        MockByteStreamHandler,
        Bytes,
        Bytes,
        MockProducer,
        MockWriter,
        MockWriter,
    >,
>(
    t: T,
) -> T {
    t
}

#[test]
fn test_byte_stream_chain_ordering() {
    let order = Arc::new(Mutex::new(Vec::new()));
    let i1 = MockByteStreamInterceptor {
        id: 1,
        order: order.clone(),
    };
    let i2 = MockByteStreamInterceptor {
        id: 2,
        order: order.clone(),
    };

    let chained = ByteStreamInterceptorExt::chain::<_, MockWriter>(i1, i2);

    // Verify it implements ByteStreamInterceptor
    let chained = assert_bs_interceptor(chained);
    chained
        .intercept(
            &MockByteStreamHandler,
            HandlerCallOptions::default(),
            request::<Incoming<Bytes>>(),
            MockWriter,
        )
        .0
        .ok()
        .unwrap();
    assert_eq!(*order.lock().unwrap(), vec![1, 2]);
}

#[test]
fn test_byte_stream_chain_compiles() {
    let order = Arc::new(Mutex::new(Vec::new()));
    let a = MockByteStreamInterceptor {
        id: 1,
        order: order.clone(),
    };
    let b = MockByteStreamInterceptor { id: 2, order };
    let _chained = ByteStreamInterceptorExt::chain::<_, MockWriter>(a, b);
}

#[test]
fn test_byte_stream_interceptor() {
    let order = Arc::new(Mutex::new(Vec::new()));
    let intercepted = InterceptedByteStreamHandler {
        interceptor: MockByteStreamInterceptor {
            id: 1,
            order: order.clone(),
        },
        inner: MockByteStreamHandler,
        marker: PhantomData::<MockWriter>,
    };

    intercepted
        .call(HandlerCallOptions::default(), request::<Incoming<Bytes>>(), MockWriter)
        .0
        .ok()
        .unwrap();

    assert_eq!(*order.lock().unwrap(), vec![1]);
}

#[test]
fn no_byte_stream_interceptor_is_as_none() {
    let noop = ByteStreamInterceptorFactory::create(&NoopInterceptor {});
    let r = ByteStreamInterceptor::intercept(
        &noop,
        &MockByteStreamHandler,
        HandlerCallOptions::default(),
        request::<Incoming<Bytes>>(),
        MockWriter,
    );
    assert!(r.0.is_ok());
}

// --- Metadata ---

#[derive(Clone)]
struct TestInterceptor {
    name: &'static str,
    log: Arc<Mutex<Vec<String>>>,
}

struct TestHandler {
    name: &'static str,
    log: Arc<Mutex<Vec<String>>>,
}

impl MetadataInterceptor for TestInterceptor {
    type Handler = TestHandler;

    fn intercept(&self, mut metadata: Metadata) -> Result<InterceptionResult<TestHandler>, Status> {
        self.log.lock().unwrap().push(format!("{}:intercept", self.name));
        metadata.inner.insert("intercepted-by", self.name.parse().unwrap());
        Ok(InterceptionResult {
            metadata,
            server_metadata_handler: TestHandler {
                name: self.name,
                log: self.log.clone(),
            },
        })
    }
}

impl ServerMetadataHandler for TestHandler {
    fn on_initial_metadata(&mut self, mut metadata: Metadata) -> Result<Metadata, Status> {
        self.log.lock().unwrap().push(format!("{}:initial", self.name));
        metadata.inner.insert("handled-initial-by", self.name.parse().unwrap());
        Ok(metadata)
    }

    fn on_trailing_metadata(&mut self, mut metadata: Metadata) -> Result<Metadata, Status> {
        self.log.lock().unwrap().push(format!("{}:trailing", self.name));
        metadata.inner.insert("handled-trailing-by", self.name.parse().unwrap());
        Ok(metadata)
    }
}

#[test]
fn test_interceptor_flow() {
    let log = Arc::new(Mutex::new(Vec::new()));
    let interceptor = TestInterceptor {
        name: "test",
        log: log.clone(),
    };
    let adapter = MetadataInterceptorAdapter(interceptor);

    adapter
        .intercept(
            &MockByteStreamHandler,
            HandlerCallOptions::default(),
            request::<Incoming<Bytes>>(),
            MockWriter,
        )
        .0
        .ok()
        .unwrap();

    let log = log.lock().unwrap();
    assert_eq!(
        *log,
        vec![
            "test:intercept".to_string(),
            "test:initial".to_string(),
            "test:trailing".to_string()
        ]
    );
}

#[test]
fn test_chain_flow() {
    let log = Arc::new(Mutex::new(Vec::new()));
    let a = TestInterceptor {
        name: "a",
        log: log.clone(),
    };
    let b = TestInterceptor {
        name: "b",
        log: log.clone(),
    };
    let chain = Chain::new(a, b);
    let adapter = MetadataInterceptorAdapter(chain);

    adapter
        .intercept(
            &MockByteStreamHandler,
            HandlerCallOptions::default(),
            request::<Incoming<Bytes>>(),
            MockWriter,
        )
        .0
        .ok()
        .unwrap();

    let log = log.lock().unwrap();
    assert_eq!(
        *log,
        vec![
            "a:intercept".to_string(),
            "b:intercept".to_string(),
            "b:initial".to_string(),
            "a:initial".to_string(),
            "b:trailing".to_string(),
            "a:trailing".to_string(),
        ]
    );
}

/// A writer that shows the metadata that reaches it.
struct Shown {
    seen: Arc<Mutex<Vec<HeaderMap>>>,
}

impl StreamingResponseWriter<Bytes> for Shown {
    type BodyWriter = Shown;

    fn send_initial_metadata(self, metadata: Metadata) -> Result<Shown, NotSent<Self>> {
        self.seen.lock().unwrap().push(metadata.inner);
        Ok(self)
    }
}

impl StreamingResponseBodyWriter<Bytes> for Shown {
    fn write(&mut self, _item: Bytes) -> Result<(), Status> {
        Ok(())
    }

    fn send_trailing_metadata(self, trailers: Metadata) -> Result<(), NotSent<Self>> {
        self.seen.lock().unwrap().push(trailers.inner);
        Ok(())
    }
}

#[test]
fn the_first_of_a_chain_handles_response_metadata_last() {
    let log = Arc::new(Mutex::new(Vec::new()));
    let named = |name| TestInterceptor {
        name,
        log: log.clone(),
    };
    let chain = Chain::new(
        metadata_interceptor::NoopInterceptor {},
        Chain::new(named("a"), named("b")),
    );
    let seen = Arc::new(Mutex::new(Vec::new()));
    MetadataInterceptorAdapter(chain)
        .intercept(
            &MockByteStreamHandler,
            HandlerCallOptions::default(),
            request::<Incoming<Bytes>>(),
            Shown { seen: seen.clone() },
        )
        .0
        .ok()
        .unwrap();
    let seen = seen.lock().unwrap();
    assert_eq!(seen[0]["handled-initial-by"], "a");
    assert_eq!(seen[1]["handled-trailing-by"], "a");
}

struct Refusing;

impl MetadataInterceptor for Refusing {
    type Handler = metadata_interceptor::NoopHandler;

    fn intercept(
        &self,
        _metadata: Metadata,
    ) -> Result<InterceptionResult<metadata_interceptor::NoopHandler>, Status> {
        Err(Status::new(StatusCode::PermissionDenied, "no"))
    }
}

#[test]
fn a_refused_call_reaches_neither_the_next_interceptor_nor_the_handler() {
    let log = Arc::new(Mutex::new(Vec::new()));
    let next = TestInterceptor {
        name: "next",
        log: log.clone(),
    };
    let (r, left) = MetadataInterceptorAdapter(Chain::new(Refusing, next)).intercept(
        &MockByteStreamHandler,
        HandlerCallOptions::default(),
        request::<Incoming<Bytes>>(),
        MockWriter,
    );
    let err = r.err().unwrap();
    assert!(matches!(left, Left::Response(MockWriter)));
    assert_eq!(err.code(), StatusCode::PermissionDenied);
    assert_eq!(err.message(), "no");
    assert!(log.lock().unwrap().is_empty());
}
