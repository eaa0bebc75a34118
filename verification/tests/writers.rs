use grpc::server::call::lazy::{Lazy, LazyExt, Mapper};
use grpc::server::call::metadata::Metadata;
use grpc::server::call::streaming_response_writer::{
    NotSent, StreamingResponseBodyWriter, StreamingResponseWriter,
};
use grpc::server::call::streaming_response_writer_ext::StreamingResponseWriterExt;
use grpc::server::call::test_util::{
    InitialMetadataWriter, StreamingResponseImpl, TrailingMetadataWriter,
};
use grpc::server::stream::stream_writer_ext::PushStreamWriterExt;
use grpc::server::stream::{PushStream, PushStreamConsumer, PushStreamProducer, PushStreamWriter};
use grpc::status::{Status, StatusCode};
use protobuf_well_known_types::Timestamp;
use std::sync::{Arc, Mutex};

// --- Lazy messages ---

struct SetSeconds {
    value: i64,
}

impl Lazy<Timestamp> for SetSeconds {
    fn resolve(self, mut target: Timestamp) -> (Timestamp, Result<(), Status>) {
        target.set_seconds(self.value);
        (target, Ok(()))
    }
}

struct AddFive;

impl Mapper<Timestamp> for AddFive {
    fn map(self, mut target: Timestamp) -> (Timestamp, Result<(), Status>) {
        let current = target.seconds();
        target.set_seconds(current + 5);
        (target, Ok(()))
    }
}

#[test]
fn test_zero_allocation_chain() {
    // 1. Create the base lazy
    let lazy = SetSeconds { value: 10 };

    // 2. Map it with a struct mapper
    let chained = lazy.and_map(AddFive);

    let (msg, r) = chained.resolve(Timestamp::new());
    r.ok().unwrap();

    assert_eq!(msg.seconds(), 15);
}

#[test]
fn test_sync_closure_sugar() {
    // 1. Create the base lazy
    let lazy = SetSeconds { value: 10 };

    // 2. Map it with a sync closure
    let chained = lazy.map(|mut target: Timestamp| {
        let current = target.seconds();
        target.set_seconds(current + 20);
        (target, Ok(()))
    });

    let (msg, r) = chained.resolve(Timestamp::new());
    r.ok().unwrap();

    assert_eq!(msg.seconds(), 30);
}

struct Unreadable;

impl Lazy<Timestamp> for Unreadable {
    fn resolve(self, target: Timestamp) -> (Timestamp, Result<(), Status>) {
        (target, Err(Status::new(StatusCode::Internal, "unreadable")))
    }
}

#[test]
fn a_message_that_cannot_be_read_is_not_changed() {
    let (msg, r) = Unreadable.and_map(AddFive).resolve(Timestamp::new());
    assert_eq!(r.err().unwrap().message(), "unreadable");
    assert_eq!(msg.seconds(), 0);
}

// --- Writers of responses ---

#[derive(Clone)]
struct MockMetadataWriter {
    metadata: Arc<Mutex<Option<Metadata>>>,
}

impl MockMetadataWriter {
    fn new() -> Self {
        Self {
            metadata: Arc::new(Mutex::new(None)),
        }
    }
}

impl InitialMetadataWriter for MockMetadataWriter {
    fn send_initial_metadata(self, metadata: Metadata) -> Result<(), Status> {
        *self.metadata.lock().unwrap() = Some(metadata);
        Ok(())
    }
}

impl TrailingMetadataWriter for MockMetadataWriter {
    fn send_trailing_metadata(self, metadata: Metadata) -> Result<(), Status> {
        *self.metadata.lock().unwrap() = Some(metadata);
        Ok(())
    }
}

struct MockConsumer<T> {
    items: Arc<Mutex<Vec<T>>>,
}

impl<T> MockConsumer<T> {
    fn new() -> Self {
        Self {
            items: Arc::new(Mutex::new(Vec::new())),
        }
    }
}

impl<T> PushStreamConsumer<T> for MockConsumer<T> {
    fn write(&mut self, item: T) -> Result<(), Status> {
        self.items.lock().unwrap().push(item);
        Ok(())
    }
}

#[test]
fn test_streaming_response_writer_flow() {
    let stream_writer = PushStreamWriter::new(MockConsumer::new());
    let writer = StreamingResponseImpl::new(
        stream_writer,
        MockMetadataWriter::new(),
        MockMetadataWriter::new(),
    );

    // 1. Send initial metadata
    let mut body_writer = writer.send_initial_metadata(Metadata::default()).ok().unwrap();

    // 2. Write body
    body_writer.write(1).ok().unwrap();
    body_writer.write(2).ok().unwrap();

    // 3. Send trailing metadata
    body_writer.send_trailing_metadata(Metadata::default()).ok().unwrap();
}

struct Interceptor<T>(T);

impl<T: StreamingResponseWriter<Item>, Item> StreamingResponseWriter<Item> for Interceptor<T> {
    type BodyWriter = InterceptorBodyWriter<T::BodyWriter>;

    fn send_initial_metadata(self, metadata: Metadata) -> Result<Self::BodyWriter, NotSent<Self>> {
        // Intercept headers here
        match self.0.send_initial_metadata(metadata) {
            Ok(inner_writer) => Ok(InterceptorBodyWriter(inner_writer)),
            Err(e) => Err(NotSent {
                status: e.status,
                writer: e.writer.map(Interceptor),
            }),
        }
    }
}

struct InterceptorBodyWriter<T>(T);

impl<T: StreamingResponseBodyWriter<Item>, Item> StreamingResponseBodyWriter<Item>
    for InterceptorBodyWriter<T>
{
    fn write(&mut self, item: Item) -> Result<(), Status> {
        // Intercept body here
        self.0.write(item)
    }

    fn send_trailing_metadata(self, trailers: Metadata) -> Result<(), NotSent<Self>> {
        // Intercept trailers here
        self.0.send_trailing_metadata(trailers).map_err(|e| NotSent {
            status: e.status,
            writer: e.writer.map(InterceptorBodyWriter),
        })
    }
}

#[test]
fn test_interceptor_composition() {
    let stream_writer = PushStreamWriter::new(MockConsumer::<i32>::new());
    let writer = StreamingResponseImpl::new(
        stream_writer,
        MockMetadataWriter::new(),
        MockMetadataWriter::new(),
    );
    let interceptor = Interceptor(writer);

    let mut body_writer = interceptor.send_initial_metadata(Metadata::default()).ok().unwrap();
    body_writer.write(1).ok().unwrap();
    body_writer.send_trailing_metadata(Metadata::default()).ok().unwrap();
}

#[test]
fn test_map_message() {
    let consumer = MockConsumer::new();
    let items = consumer.items.clone();
    let stream_writer = PushStreamWriter::new(consumer);
    let writer = StreamingResponseImpl::new(
        stream_writer,
        MockMetadataWriter::new(),
        MockMetadataWriter::new(),
    );

    let writer = writer.map_message(|x: i32| Ok::<i32, Status>(x * 2));

    let mut body_writer = writer.send_initial_metadata(Metadata::default()).ok().unwrap();
    body_writer.write(10).ok().unwrap();

    assert_eq!(*items.lock().unwrap(), vec![20]);
}

fn with_header(mut md: Metadata, name: &'static str, value: &str) -> Result<Metadata, Status> {
    md.inner
        .insert(http::header::HeaderName::from_static(name), value.parse().unwrap());
    Ok(md)
}

#[test]
fn test_map_initial_metadata() {
    let stream_writer = PushStreamWriter::new(MockConsumer::<i32>::new());
    let initial_writer = MockMetadataWriter::new();
    let captured_metadata = initial_writer.metadata.clone();
    let writer =
        StreamingResponseImpl::new(stream_writer, initial_writer, MockMetadataWriter::new());

    let writer =
        writer.map_initial_metadata(|md: Metadata| with_header(md, "test-key", "test-val"));

    writer.send_initial_metadata(Metadata::default()).ok().unwrap();

    let md = captured_metadata.lock().unwrap().take().unwrap();
    assert_eq!(md.inner.get("test-key").unwrap(), "test-val");
}

#[test]
fn test_map_trailing_metadata() {
    let stream_writer = PushStreamWriter::new(MockConsumer::<i32>::new());
    let trailing_writer = MockMetadataWriter::new();
    let captured_trailers = trailing_writer.metadata.clone();
    let writer =
        StreamingResponseImpl::new(stream_writer, MockMetadataWriter::new(), trailing_writer);

    let writer =
        writer.map_trailing_metadata(|md: Metadata| with_header(md, "trailer-key", "trailer-val"));

    let body_writer = writer.send_initial_metadata(Metadata::default()).ok().unwrap();
    body_writer.send_trailing_metadata(Metadata::default()).ok().unwrap();

    let md = captured_trailers.lock().unwrap().take().unwrap();
    assert_eq!(md.inner.get("trailer-key").unwrap(), "trailer-val");
}

#[test]
fn test_composition() {
    let consumer = MockConsumer::new();
    let items = consumer.items.clone();
    let stream_writer = PushStreamWriter::new(consumer);

    let initial_writer = MockMetadataWriter::new();
    let captured_initial = initial_writer.metadata.clone();

    let trailing_writer = MockMetadataWriter::new();
    let captured_trailing = trailing_writer.metadata.clone();

    let writer = StreamingResponseImpl::new(stream_writer, initial_writer, trailing_writer);

    let writer = writer
        .map_initial_metadata(|md: Metadata| with_header(md, "init", "1"))
        .map_message(|x: i32| Ok::<i32, Status>(x + 1))
        .map_trailing_metadata(|md: Metadata| with_header(md, "trail", "2"));

    let mut body_writer = writer.send_initial_metadata(Metadata::default()).ok().unwrap();
    body_writer.write(10).ok().unwrap();
    body_writer.send_trailing_metadata(Metadata::default()).ok().unwrap();

    assert_eq!(
        captured_initial.lock().unwrap().as_ref().unwrap().inner.get("init").unwrap(),
        "1"
    );
    assert_eq!(*items.lock().unwrap(), vec![11]);
    assert_eq!(
        captured_trailing.lock().unwrap().as_ref().unwrap().inner.get("trail").unwrap(),
        "2"
    );
}

#[test]
fn metadata_that_cannot_be_mapped_is_not_sent() {
    let initial_writer = MockMetadataWriter::new();
    let captured = initial_writer.metadata.clone();
    let writer = StreamingResponseImpl::new(
        PushStreamWriter::new(MockConsumer::<i32>::new()),
        initial_writer,
        MockMetadataWriter::new(),
    );
    let writer = writer.map_initial_metadata(|_md: Metadata| {
        Err::<Metadata, Status>(Status::new(StatusCode::Aborted, "no"))
    });
    let err = writer.send_initial_metadata(Metadata::default()).err().unwrap();
    assert_eq!(err.status.code(), StatusCode::Aborted);
    assert!(captured.lock().unwrap().is_none());

    // The writer was not used, and can be.
    let writer = err.writer.unwrap().into_inner();
    assert!(writer.send_initial_metadata(Metadata::default()).is_ok());
    assert!(captured.lock().unwrap().is_some());
}

#[test]
fn trailing_metadata_that_cannot_be_mapped_is_not_sent() {
    let trailing_writer = MockMetadataWriter::new();
    let captured = trailing_writer.metadata.clone();
    let writer = StreamingResponseImpl::new(
        PushStreamWriter::new(MockConsumer::<i32>::new()),
        MockMetadataWriter::new(),
        trailing_writer,
    );
    let writer = writer.map_trailing_metadata(|_md: Metadata| {
        Err::<Metadata, Status>(Status::new(StatusCode::Aborted, "no"))
    });
    let body = writer.send_initial_metadata(Metadata::default()).ok().unwrap();
    let err = body.send_trailing_metadata(Metadata::default()).err().unwrap();
    assert_eq!(err.status.message(), "no");
    assert!(captured.lock().unwrap().is_none());
    assert!(err.writer.is_some());
}

// --- Writers of streams ---

#[test]
fn test_then_success() {
    let consumer = MockConsumer::new();
    let items = consumer.items.clone();
    let writer = PushStreamWriter::new(consumer);
    let mut mapped_writer = writer.map_items(|x: i32| Ok::<String, Status>(x.to_string()));

    mapped_writer.write(1).ok().unwrap();
    mapped_writer.write(2).ok().unwrap();

    let items = items.lock().unwrap();
    assert_eq!(*items, vec!["1", "2"]);
}

fn not_two(x: i32) -> Result<String, Status> {
    if x == 2 {
        Err(Status::new(StatusCode::Internal, "error"))
    } else {
        Ok(x.to_string())
    }
}

#[test]
fn test_then_failure() {
    let consumer = MockConsumer::new();
    let items = consumer.items.clone();
    let writer = PushStreamWriter::new(consumer);
    let mut mapped_writer = writer.map_items(not_two);

    mapped_writer.write(1).ok().unwrap();
    let result = mapped_writer.write(2);
    assert!(result.is_err());
    assert_eq!(result.err().unwrap().code(), StatusCode::Internal);

    let items = items.lock().unwrap();
    assert_eq!(*items, vec!["1"]);
}

struct UpTo(i32);

impl PushStreamProducer<i32> for UpTo {
    fn produce<C: PushStreamConsumer<i32>>(
        self,
        mut writer: PushStreamWriter<i32, C>,
    ) -> (Result<(), Status>, PushStreamWriter<i32, C>) {
        for i in 0..self.0 {
            if let Err(e) = writer.write(i) {
                return (Err(e), writer);
            }
        }
        (Ok(()), writer)
    }
}

#[test]
fn a_mapped_stream_ends_where_an_item_cannot_be_mapped() {
    let consumer = MockConsumer::new();
    let items = consumer.items.clone();
    let (r, _) = PushStream::new(UpTo(4)).map_items(not_two).run(PushStreamWriter::new(consumer));
    assert_eq!(r.err().unwrap().message(), "error");
    assert_eq!(*items.lock().unwrap(), vec!["0", "1"]);

    let consumer = MockConsumer::new();
    let items = consumer.items.clone();
    let (r, _) = PushStream::new(UpTo(2)).map_items(not_two).run(PushStreamWriter::new(consumer));
    assert!(r.is_ok());
    assert_eq!(*items.lock().unwrap(), vec!["0", "1"]);
}
