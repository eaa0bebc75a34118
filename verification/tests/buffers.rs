use bytes::Bytes;
use grpc::buf::Buf;
use grpc::server::transport::hyper::buffer::{BufList, ErrorKind, GrpcLengthEncodedBuf};
use grpc::server::transport::hyper::decoder::HyperBodyDecoder;
use std::collections::VecDeque;

#[test]
fn test_push_and_len() {
    let mut buf = BufList::<Bytes>::empty();
    assert!(!buf.has_remaining());

    buf.push(Bytes::from("hello"));
    assert_eq!(buf.remaining(), 5);

    buf.push(Bytes::from(" world"));
    assert_eq!(buf.remaining(), 11);
}

#[test]
fn test_peek_copy_to() {
    let mut buf = BufList::empty();
    buf.push(Bytes::from("hello"));
    buf.push(Bytes::from(" world"));

    let mut dst = [0u8; 5];
    buf.peek_copy_to(&mut dst[..]);
    assert_eq!(&dst, b"hello");
    assert_eq!(buf.remaining(), 11);

    let mut dst = [0u8; 11];
    buf.peek_copy_to(&mut dst[..]);
    assert_eq!(&dst, b"hello world");
    assert_eq!(buf.remaining(), 11);
}

#[test]
fn test_peek_copy_to_partial() {
    let mut buf = BufList::empty();
    buf.push(Bytes::from("hi"));

    // Destination is larger than buffer
    let mut dst = [0u8; 5];
    assert_eq!(buf.peek_copy_to(&mut dst[..]), 2);

    // Should have copied "hi" and left the rest as 0
    assert_eq!(&dst[..2], b"hi");
    assert_eq!(&dst[2..], &[0, 0, 0]);
    // Buffer should remain unchanged
    assert_eq!(buf.remaining(), 2);
}

#[test]
fn test_split_to() {
    let mut buf = BufList::empty();
    buf.push(Bytes::from("hello"));
    buf.push(Bytes::from(" world"));

    let mut part1 = buf.split_to(5).ok().unwrap();
    assert_eq!(part1.remaining(), 5);
    assert_eq!(buf.remaining(), 6);

    let mut dst = [0u8; 5];
    part1.copy_to_slice(&mut dst);
    assert_eq!(&dst, b"hello");

    let mut part2 = buf.split_to(6).ok().unwrap();
    assert_eq!(part2.remaining(), 6);
    assert_eq!(buf.remaining(), 0);

    let mut dst = [0u8; 6];
    part2.copy_to_slice(&mut dst);
    assert_eq!(&dst, b" world");
}

#[test]
fn test_split_to_out_of_bounds() {
    let mut buf = BufList::empty();
    buf.push(Bytes::from("hello"));

    let err = buf.split_to(6).err().unwrap();
    assert_eq!(err.kind(), ErrorKind::UnexpectedEof);
    assert_eq!(buf.remaining(), 5);
}

#[test]
fn test_advance() {
    let mut buf = BufList::empty();
    buf.push(Bytes::from("hello"));
    buf.push(Bytes::from(" world"));

    buf.advance(6);
    assert_eq!(buf.remaining(), 5);

    let mut dst = [0u8; 5];
    buf.copy_to_slice(&mut dst);
    assert_eq!(&dst, b"world");
}

#[test]
fn test_grpc_length_encoded_buf() {
    let header = [1, 2, 3, 4, 5];
    let body = &b"hello"[..];
    let mut buf = GrpcLengthEncodedBuf::new(header, body);

    assert_eq!(buf.remaining(), 10);
    assert_eq!(buf.chunk(), &[1, 2, 3, 4, 5]);

    buf.advance(2);
    assert_eq!(buf.remaining(), 8);
    assert_eq!(buf.chunk(), &[3, 4, 5]);

    buf.advance(3);
    assert_eq!(buf.remaining(), 5);
    assert_eq!(buf.chunk(), b"hello");

    buf.advance(2);
    assert_eq!(buf.remaining(), 3);
    assert_eq!(buf.chunk(), b"llo");

    buf.advance(3);
    assert_eq!(buf.remaining(), 0);
}

#[test]
fn a_split_inside_a_chunk_keeps_all_bytes() {
    let mut buf = BufList::new(VecDeque::from(vec![
        Bytes::from("ab"),
        Bytes::from("cdef"),
        Bytes::from("g"),
    ]));
    let mut head = buf.split_to(4).ok().unwrap();
    assert_eq!(&head.copy_to_bytes(4)[..], b"abcd");
    assert_eq!(buf.chunk(), b"ef");
    assert_eq!(&buf.copy_to_bytes(3)[..], b"efg");
    assert!(buf.split_to(0).is_ok());
    assert!(BufList::<Bytes>::default().chunk().is_empty());
}

#[test]
fn test_decode_partial_header() {
    let mut decoder = HyperBodyDecoder::new();
    decoder.push(Bytes::from_static(&[0, 0, 0]));
    assert!(decoder.decode().is_none());
}

#[test]
fn test_decode_partial_body() {
    let mut decoder = HyperBodyDecoder::new();
    // Header: not compressed, length 5
    decoder.push(Bytes::from_static(&[0, 0, 0, 0, 5]));
    // Partial body
    decoder.push(Bytes::from_static(b"hel"));
    assert!(decoder.decode().is_none());
}

#[test]
fn test_decode_complete_message() {
    let mut decoder = HyperBodyDecoder::new();
    decoder.push(Bytes::from_static(b"\x00\x00\x00\x00\x05hello"));

    let msg = decoder.decode().expect("should decode");
    assert_eq!(msg.message_bytes.remaining(), 5);
    assert_eq!(msg.message_bytes.chunk(), b"hello");
    assert!(!msg.options.unwrap().compressed);
}

#[test]
fn test_decode_multiple_messages() {
    let mut decoder = HyperBodyDecoder::new();

    // Msg 1: "hi"
    decoder.push(Bytes::from_static(b"\x00\x00\x00\x00\x02hi"));
    // Msg 2: "world"
    decoder.push(Bytes::from_static(b"\x00\x00\x00\x00\x05world"));

    let msg1 = decoder.decode().expect("should decode msg1");
    assert_eq!(msg1.message_bytes.remaining(), 2);

    let msg2 = decoder.decode().expect("should decode msg2");
    assert_eq!(msg2.message_bytes.remaining(), 5);

    assert!(decoder.decode().is_none());
}

#[test]
fn test_decode_compressed_flag() {
    let mut decoder = HyperBodyDecoder::new();
    // Compressed flag set (1)
    decoder.push(Bytes::from_static(b"\x01\x00\x00\x00\x05hello"));

    let msg = decoder.decode().expect("should decode");
    assert!(msg.options.unwrap().compressed);
}

#[test]
fn test_decode_split_frames() {
    let mut decoder = HyperBodyDecoder::default();
    // Header split across pushes
    decoder.push(Bytes::from_static(&[0, 0]));
    decoder.push(Bytes::from_static(&[0, 0, 5]));
    // Body split across pushes
    decoder.push(Bytes::from_static(b"he"));
    decoder.push(Bytes::from_static(b"llo"));
    assert_eq!(decoder.buffer_len(), 10);

    let msg = decoder.decode().expect("should decode");
    assert_eq!(msg.message_bytes.remaining(), 5);
    assert_eq!(decoder.buffer_len(), 0);
}

#[test]
fn peeking_goes_through_all_pieces_of_a_chunk() {
    let pieces = |a: &'static str, b: &'static str| {
        BufList::new(VecDeque::from(vec![Bytes::from(a), Bytes::from(b)]))
    };
    let mut buf = BufList::empty();
    buf.push(pieces("he", "llo"));
    let mut dst = [0u8; 5];
    assert_eq!(buf.peek_copy_to(&mut dst[..]), 5);
    assert_eq!(&dst, b"hello");
    assert_eq!(buf.remaining(), 5);

    buf.push(pieces(" wo", "rld"));
    let mut dst = [0u8; 8];
    assert_eq!(buf.peek_copy_to(&mut dst[..]), 8);
    assert_eq!(&dst, b"hello wo");

    let mut framed = BufList::empty();
    framed.push(GrpcLengthEncodedBuf::new([0, 0, 0, 0, 5], buf));
    framed.advance(3);
    let mut dst = [9u8; 15];
    assert_eq!(framed.peek_copy_to(&mut dst[..]), 13);
    assert_eq!(&dst[..], b"\x00\x05hello world\x09\x09");
    assert_eq!(framed.remaining(), 13);
}

#[test]
fn empty_chunks_do_not_matter() {
    let mut buf = BufList::new(VecDeque::from(vec![
        Bytes::new(),
        Bytes::from("ab"),
        Bytes::new(),
        Bytes::from("c"),
    ]));
    assert_eq!(buf.remaining(), 3);
    assert_eq!(buf.chunk(), b"ab");
    buf.advance(2);
    assert_eq!(buf.chunk(), b"c");
    assert_eq!(&buf.copy_to_bytes(1)[..], b"c");
    assert!(!buf.has_remaining());
}
