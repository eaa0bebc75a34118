use bytes::Bytes;
use grpc::buf::Buf;
use grpc::codec::message::{ChunkedBuf, IncomingRawMessage, RawMessage};
use grpc::rpc::{RecvMessage, ResponseHeaders, SendMessage, ServerResponseStreamItem};
use grpc::server::interceptor::http2_framing::{
    BytesContainer, DeframeBuf, DeframeConfig, DeframingRecvStream, ExtractedPayload,
    FramingSendStream, LpmFrame, LpmFrameMessage,
};
use grpc::server::{RecvStream, SendOptions, SendStream};
use std::collections::VecDeque;

/// Helper: builds a complete LPM frame (header + payload).
fn make_lpm_frame(compressed: bool, payload: &[u8]) -> Bytes {
    let mut buf = vec![if compressed { 1 } else { 0 }];
    buf.extend_from_slice(&(payload.len() as u32).to_be_bytes());
    buf.extend_from_slice(payload);
    Bytes::from(buf)
}

// --- DeframeBuf tests ---

#[test]
fn deframe_buf_push_skips_empty() {
    let mut buf = DeframeBuf::new();
    buf.push(Bytes::new());
    assert!(buf.is_empty());
    assert_eq!(buf.remaining(), 0);
}

#[test]
fn deframe_buf_push_and_remaining() {
    let mut buf = DeframeBuf::new();
    buf.push(Bytes::from_static(b"hello"));
    assert_eq!(buf.remaining(), 5);
    buf.push(Bytes::from_static(b"world"));
    assert_eq!(buf.remaining(), 10);
}

#[test]
fn deframe_buf_header_not_enough_data() {
    let mut buf = DeframeBuf::new();
    buf.push(Bytes::from_static(b"abcd")); // only 4 bytes
    assert!(buf.try_read_header().is_none());
}

#[test]
fn deframe_buf_header_single_chunk() {
    let mut buf = DeframeBuf::new();
    let frame = make_lpm_frame(false, b"test");
    buf.push(frame);

    let header = buf.try_read_header().expect("should parse header");
    assert!(!header.compressed);
    assert_eq!(header.length, 4);
    assert_eq!(buf.remaining(), 4); // payload remains
}

#[test]
fn deframe_buf_header_compressed() {
    let mut buf = DeframeBuf::new();
    let frame = make_lpm_frame(true, b"data");
    buf.push(frame);

    let header = buf.try_read_header().expect("should parse header");
    assert!(header.compressed);
    assert_eq!(header.length, 4);
}

#[test]
fn deframe_buf_header_spanning_chunks() {
    let mut buf = DeframeBuf::new();
    // Split the header across two chunks: 3 bytes + 2 bytes + payload
    let frame = make_lpm_frame(false, b"hi");
    buf.push(frame.slice(0..3));
    buf.push(frame.slice(3..));

    let header = buf.try_read_header().expect("should parse spanning header");
    assert!(!header.compressed);
    assert_eq!(header.length, 2);
    assert_eq!(buf.remaining(), 2); // payload remains
}

#[test]
fn deframe_buf_payload_single_chunk() {
    let mut buf = DeframeBuf::new();
    buf.push(Bytes::from_static(b"hello"));

    let payload = buf.take_payload(5).expect("should extract payload");
    assert!(matches!(payload, ExtractedPayload::Single(_)));
    assert_eq!(payload.remaining(), 5);
    assert!(buf.is_empty());
}

#[test]
fn deframe_buf_payload_multi_chunk() {
    let mut buf = DeframeBuf::new();
    buf.push(Bytes::from_static(b"hel"));
    buf.push(Bytes::from_static(b"lo"));

    let payload = buf.take_payload(5).expect("should extract payload");
    assert!(matches!(payload, ExtractedPayload::Multi(_)));
    assert_eq!(payload.remaining(), 5);
    assert!(buf.is_empty());
}

#[test]
fn deframe_buf_payload_partial_chunk() {
    let mut buf = DeframeBuf::new();
    buf.push(Bytes::from_static(b"hello world"));

    let payload = buf.take_payload(5).expect("should extract 5 bytes");
    assert!(matches!(payload, ExtractedPayload::Single(_)));
    assert_eq!(payload.remaining(), 5);
    assert_eq!(buf.remaining(), 6); // " world" remains
}

#[test]
fn deframe_buf_payload_not_enough() {
    let mut buf = DeframeBuf::new();
    buf.push(Bytes::from_static(b"hi"));
    assert!(buf.take_payload(5).is_none());
}

#[test]
fn deframe_buf_multiple_messages_one_chunk() {
    let mut buf = DeframeBuf::new();
    // Two messages in one chunk
    let mut data = Vec::new();
    data.extend_from_slice(&make_lpm_frame(false, b"msg1"));
    data.extend_from_slice(&make_lpm_frame(true, b"msg2!!"));
    buf.push(Bytes::from(data));

    // First message
    let h1 = buf.try_read_header().expect("header 1");
    assert!(!h1.compressed);
    assert_eq!(h1.length, 4);
    let p1 = buf.take_payload(h1.length).expect("payload 1");
    assert_eq!(p1.remaining(), 4);

    // Second message
    let h2 = buf.try_read_header().expect("header 2");
    assert!(h2.compressed);
    assert_eq!(h2.length, 6);
    let p2 = buf.take_payload(h2.length).expect("payload 2");
    assert_eq!(p2.remaining(), 6);

    assert!(buf.is_empty());
}

// --- BytesContainer tests ---

#[test]
fn bytes_container_captures_data() {
    let mut container = BytesContainer::new();
    let mut data = Bytes::from_static(b"test data");
    container.decode(&mut data).expect("decode should succeed");
    let captured = container.take().expect("should have data");
    assert_eq!(&captured[..], b"test data");
}

#[test]
fn bytes_container_take_empty_is_error() {
    let mut container = BytesContainer::new();
    assert!(container.take().is_err());
}

// --- ExtractedPayload Buf tests ---

#[test]
fn extracted_payload_single_buf() {
    let mut payload = ExtractedPayload::Single(Bytes::from_static(b"hello"));
    assert_eq!(payload.remaining(), 5);
    assert_eq!(payload.chunk(), b"hello");
    payload.advance(3);
    assert_eq!(payload.remaining(), 2);
    assert_eq!(payload.chunk(), b"lo");
}

#[test]
fn extracted_payload_multi_buf() {
    let mut chunks = VecDeque::new();
    chunks.push_back(Bytes::from_static(b"hel"));
    chunks.push_back(Bytes::from_static(b"lo"));
    let mut payload = ExtractedPayload::Multi(ChunkedBuf { chunks });
    assert_eq!(payload.remaining(), 5);
    assert_eq!(payload.chunk(), b"hel"); // first chunk
    payload.advance(3);
    assert_eq!(payload.remaining(), 2);
    assert_eq!(payload.chunk(), b"lo"); // second chunk
}

// --- LpmFrame tests ---

#[test]
fn lpm_frame_uncompressed() {
    let payload = Bytes::from_static(b"test");
    let mut frame = LpmFrame::new(false, payload);

    // Total: 5 (header) + 4 (payload) = 9
    assert_eq!(frame.remaining(), 9);

    // First chunk is the header
    let chunk = frame.chunk();
    assert_eq!(chunk.len(), 5);
    assert_eq!(chunk[0], 0); // not compressed
    assert_eq!(u32::from_be_bytes([chunk[1], chunk[2], chunk[3], chunk[4]]), 4);

    // Advance past header
    frame.advance(5);
    assert_eq!(frame.remaining(), 4);
    assert_eq!(frame.chunk(), b"test");

    // Advance past payload
    frame.advance(4);
    assert_eq!(frame.remaining(), 0);
}

#[test]
fn lpm_frame_compressed() {
    let payload = Bytes::from_static(b"data");
    let frame = LpmFrame::new(true, payload);

    assert_eq!(frame.remaining(), 9);
    assert_eq!(frame.chunk()[0], 1); // compressed
}

#[test]
fn lpm_frame_partial_advance_in_header() {
    let payload = Bytes::from_static(b"ab");
    let mut frame = LpmFrame::new(false, payload);

    // Advance 3 bytes into header
    frame.advance(3);
    assert_eq!(frame.remaining(), 4); // 2 header + 2 payload
    assert_eq!(frame.chunk().len(), 2); // remaining header bytes

    // Advance past rest of header
    frame.advance(2);
    assert_eq!(frame.remaining(), 2);
    assert_eq!(frame.chunk(), b"ab");
}

#[test]
fn lpm_frame_empty_payload() {
    let payload = Bytes::new();
    let mut frame = LpmFrame::new(false, payload);

    assert_eq!(frame.remaining(), 5); // header only
    let chunk = frame.chunk();
    assert_eq!(u32::from_be_bytes([chunk[1], chunk[2], chunk[3], chunk[4]]), 0);

    frame.advance(5);
    assert_eq!(frame.remaining(), 0);
}

// --- LpmFrameMessage tests ---

/// A simple SendMessage for testing.
struct TestMessage {
    data: Bytes,
}

impl SendMessage for TestMessage {
    type Encoded = Bytes;

    fn encode(&self) -> Result<Bytes, String> {
        Ok(self.data.clone())
    }
}

#[test]
fn lpm_frame_message_encode() {
    let msg = TestMessage {
        data: Bytes::from_static(b"hello"),
    };
    let framed = LpmFrameMessage {
        compressed: false,
        inner: &msg,
    };

    let mut buf = framed.encode().expect("encode should succeed");
    assert_eq!(buf.remaining(), 10); // 5 header + 5 payload

    // Read header
    let mut hdr = [0u8; 5];
    buf.copy_to_slice(&mut hdr);
    assert_eq!(hdr[0], 0); // not compressed
    assert_eq!(u32::from_be_bytes([hdr[1], hdr[2], hdr[3], hdr[4]]), 5);

    // Read payload
    let payload = buf.copy_to_bytes(buf.remaining());
    assert_eq!(&payload[..], b"hello");
}

#[test]
fn lpm_frame_message_encode_compressed() {
    let msg = TestMessage {
        data: Bytes::from_static(b"data"),
    };
    let framed = LpmFrameMessage {
        compressed: true,
        inner: &msg,
    };

    let buf = framed.encode().expect("encode should succeed");
    assert_eq!(buf.remaining(), 9); // 5 header + 4 payload
    assert_eq!(buf.chunk()[0], 1); // compressed flag
}

#[test]
fn deframe_buf_take_payload_zero_length() {
    // This is needed for 0-byte protobuf messages like Empty.
    let mut buf = DeframeBuf::new();
    // Don't push any data — chunks is empty.
    let payload = buf.take_payload(0);
    assert!(payload.is_some(), "take_payload(0) should return Some");
    assert_eq!(payload.unwrap().remaining(), 0);
}

#[test]
fn deframe_buf_take_payload_zero_length_with_data() {
    // take_payload(0) should work even when there's buffered data.
    let mut buf = DeframeBuf::new();
    buf.push(Bytes::from_static(b"leftover"));
    let payload = buf.take_payload(0);
    assert!(payload.is_some(), "take_payload(0) should return Some");
    assert_eq!(payload.unwrap().remaining(), 0);
    // The buffered data should be untouched.
    assert_eq!(buf.remaining(), 8);
}

/// A mock inner SendStream that captures what was sent.
struct CaptureSendStream {
    captured: Vec<Bytes>,
    headers: usize,
}

impl SendStream for CaptureSendStream {
    fn send<M: SendMessage>(
        &mut self,
        item: ServerResponseStreamItem<'_, M>,
        _options: SendOptions,
    ) -> Result<(), ()> {
        match item {
            ServerResponseStreamItem::Message(msg) => {
                let mut encoded = msg.encode().map_err(|_| ())?;
                let bytes = encoded.copy_to_bytes(encoded.remaining());
                self.captured.push(bytes);
            }
            ServerResponseStreamItem::Headers(_) => self.headers += 1,
        }
        Ok(())
    }
}

#[test]
fn framing_send_stream_always_writes_uncompressed() {
    // FramingSendStream should always write compressed=false
    // in the LPM header because it does not perform compression itself.
    let inner = CaptureSendStream {
        captured: Vec::new(),
        headers: 0,
    };
    let mut framing = FramingSendStream::new(inner);

    let msg = TestMessage {
        data: Bytes::from_static(b"hello"),
    };

    // Send with default options (disable_compression=false).
    framing
        .send(ServerResponseStreamItem::Message(&msg), SendOptions::default())
        .expect("send should succeed");
    framing
        .send(
            ServerResponseStreamItem::<TestMessage>::Headers(ResponseHeaders::new()),
            SendOptions::default(),
        )
        .expect("send should succeed");

    let inner = framing.into_inner();
    assert_eq!(inner.captured.len(), 1);
    assert_eq!(inner.headers, 1);
    // First byte of LPM frame is the compressed flag.
    assert_eq!(inner.captured[0][0], 0, "compressed flag should be 0 (false)");
    assert_eq!(&inner.captured[0][..], b"\x00\x00\x00\x00\x05hello");
}

/// A RecvStream that yields chunks and then ends, or fails.
struct Chunks {
    data: VecDeque<Bytes>,
    fails: bool,
}

fn chunks(data: &[&[u8]], fails: bool) -> Chunks {
    Chunks {
        data: data.iter().map(|d| Bytes::copy_from_slice(d)).collect(),
        fails,
    }
}

impl RecvStream for Chunks {
    fn next<M: RecvMessage>(&mut self, msg: &mut M) -> Option<Result<(), ()>> {
        match self.data.pop_front() {
            Some(mut bytes) => Some(msg.decode(&mut bytes).map_err(|_| ())),
            None if self.fails => Some(Err(())),
            None => None,
        }
    }
}

fn config(max: usize) -> DeframeConfig {
    DeframeConfig { max_message_size: max }
}

#[test]
fn deframing_recv_stream_handles_empty_message() {
    // A 0-byte LPM message (e.g., protobuf Empty) is deframed.
    // Build a raw LPM frame with 0-length payload: [0x00, 0x00, 0x00, 0x00, 0x00]
    let frame = make_lpm_frame(false, &[]);
    let mut deframing =
        DeframingRecvStream::new(chunks(&[&frame], false), DeframeConfig::default());

    // Should successfully deframe the empty message.
    let mut container = BytesContainer::new();
    let result = deframing.next(&mut container);
    assert!(matches!(result, Some(Ok(()))), "expected Some(Ok(())), got {:?}", result);

    // The decoded payload should be empty.
    let captured = container.take().expect("should have data");
    assert_eq!(captured.len(), 0, "empty message payload should be 0 bytes");

    // Stream should be exhausted.
    let mut container2 = BytesContainer::new();
    let result2 = deframing.next(&mut container2);
    assert!(result2.is_none(), "stream should be exhausted");
}

#[test]
fn deframing_does_not_depend_on_the_chunks() {
    let mut all = make_lpm_frame(false, b"one").to_vec();
    all.extend_from_slice(&make_lpm_frame(true, b"second"));
    all.extend_from_slice(&make_lpm_frame(false, b""));
    for size in 1..=all.len() {
        let pieces: Vec<&[u8]> = all.chunks(size).collect();
        let mut stream = DeframingRecvStream::new(chunks(&pieces, false), config(6));
        let mut got = Vec::new();
        loop {
            let mut msg = IncomingRawMessage::new();
            match stream.next(&mut msg) {
                Some(Ok(())) => {
                    let (payload, compressed) = msg.into_parts();
                    got.push((payload.to_vec(), compressed));
                }
                Some(Err(())) => panic!("no message is broken"),
                None => break,
            }
        }
        assert_eq!(
            got,
            vec![
                (b"one".to_vec(), false),
                (b"second".to_vec(), true),
                (b"".to_vec(), false)
            ]
        );
    }
}

#[test]
fn deframing_fails_on_a_truncated_header() {
    let mut stream = DeframingRecvStream::new(chunks(&[b"\x00\x00"], false), config(10));
    assert!(matches!(stream.next(&mut BytesContainer::new()), Some(Err(()))));
}

#[test]
fn deframing_fails_on_a_truncated_payload() {
    let mut stream =
        DeframingRecvStream::new(chunks(&[b"\x00\x00\x00\x00\x05hell"], false), config(10));
    assert!(matches!(stream.next(&mut BytesContainer::new()), Some(Err(()))));
}

#[test]
fn deframing_fails_on_a_message_over_the_limit() {
    let frame = make_lpm_frame(false, b"12345");
    let mut stream = DeframingRecvStream::new(chunks(&[&frame], false), config(4));
    assert!(matches!(stream.next(&mut BytesContainer::new()), Some(Err(()))));
    let mut stream = DeframingRecvStream::new(chunks(&[&frame], false), config(5));
    assert!(matches!(stream.next(&mut BytesContainer::new()), Some(Ok(()))));
}

#[test]
fn deframing_fails_with_the_stream_below() {
    let frame = make_lpm_frame(false, b"x");
    let mut stream = DeframingRecvStream::new(chunks(&[&frame], true), config(4));
    assert!(matches!(stream.next(&mut BytesContainer::new()), Some(Ok(()))));
    assert!(matches!(stream.next(&mut BytesContainer::new()), Some(Err(()))));
}

#[test]
fn raw_messages_keep_the_pieces_of_their_buffer() {
    let one = RawMessage::from_buf(Bytes::from_static(b"one piece"));
    assert!(matches!(one, RawMessage::Contiguous(_)));
    assert_eq!(one.encode().ok().unwrap().chunk(), b"one piece");

    let chunks = VecDeque::from(vec![Bytes::from_static(b"two "), Bytes::from_static(b"pieces")]);
    let two = RawMessage::from_buf(ChunkedBuf { chunks });
    assert!(matches!(two, RawMessage::Chunks(_)));
    let mut first = two.encode().ok().unwrap();
    let mut again = two.encode().ok().unwrap();
    assert_eq!(first.chunk(), b"two ");
    assert_eq!(&first.copy_to_bytes(10)[..], b"two pieces");
    assert_eq!(&again.copy_to_bytes(10)[..], b"two pieces");
}

#[test]
fn chunked_buffers_can_be_advanced_past_their_end() {
    let chunks = VecDeque::from(vec![Bytes::from_static(b"ab"), Bytes::from_static(b"c")]);
    let mut buf = ChunkedBuf { chunks };
    buf.advance_up_to(100);
    assert_eq!(buf.remaining(), 0);
}

/// A stream that counts the chunks that are read.
struct Counted<'a> {
    chunks: Chunks,
    read: &'a std::cell::Cell<usize>,
}

impl RecvStream for Counted<'_> {
    fn next<M: RecvMessage>(&mut self, msg: &mut M) -> Option<Result<(), ()>> {
        self.read.set(self.read.get() + 1);
        self.chunks.next(msg)
    }
}

#[test]
fn deframing_reads_no_chunk_that_is_not_needed() {
    let frame = make_lpm_frame(false, b"12345");
    for (max, expected) in [(4, 2), (5, 3)] {
        let read = std::cell::Cell::new(0);
        let inner = Counted {
            chunks: chunks(&[&frame[..3], &frame[3..6], &frame[6..], b"more", b"and more"], false),
            read: &read,
        };
        let mut stream = DeframingRecvStream::new(inner, config(max));
        let r = stream.next(&mut BytesContainer::new());
        assert_eq!(matches!(r, Some(Ok(()))), max == 5);
        assert_eq!(read.get(), expected);
    }
}

#[test]
fn frames_can_be_looked_at_without_being_read() {
    let mut frame = LpmFrame::new(true, Bytes::from_static(b"abc"));
    frame.advance(4);
    let mut dst = [7u8; 6];
    assert_eq!(frame.peek_into(&mut dst, 1), 4);
    assert_eq!(dst, [7, 3, b'a', b'b', b'c', 7]);
    assert_eq!(frame.remaining(), 4);
}
