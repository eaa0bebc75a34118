//! A handler of messages as a handler of bytes.

use crate::buf::{bytes_from_vec, contents, Buf};
use crate::codec::compression::{
    coding_view, shared_view, CodecRegistry, CodingResult, Compressor,
};
use crate::codec::serialization::{Deserialize, Serialize};
use crate::headers::{headers, is_visible, values_of};
use crate::server::call::lazy::Lazy;
use crate::server::call::message_wrapper::{
    CompressionEncoding, Incoming, MessageWriteOptions, Outgoing,
};
use crate::server::call::metadata::{accepts, encoding_of, Metadata};
use crate::server::call::request::{HandlerCallOptions, StreamingRequest};
use crate::server::call::streaming_response_writer::{
    Left, Outcome, StreamingResponseWriter,
};
use crate::server::call::streaming_response_writer_ext::{
    MapMessageStreamingResponseBodyWriter, MapMessageStreamingResponseWriter,
    StreamingResponseWriterExt,
};
use crate::server::method_handler::generic_byte_stream_method_handler::GenericByteStreamMethodHandler;
use crate::server::method_handler::message_stream_handler::MessageStreamHandler;
use crate::server::stream::{MapItem, PushStreamProducer, ThenProducer};
use crate::status::{Status, StatusCode, StatusView};
use crate::text::joined_text;
use bytes::Bytes;
use std::marker::PhantomData;
use std::sync::Arc;
use vstd::prelude::*;
use vstd::utf8::{decode_utf8, encode_utf8};

verus! {

/// An internal error with a message.
pub open spec fn internal_status(message: Seq<char>) -> StatusView {
    StatusView { code: StatusCode::Internal, message }
}

/// A message that is decompressed, where the call is compressed, and read when it is needed.
pub struct CodecLazy<Req, B, D> {
    raw_msg: Incoming<B>,
    decompressor: Option<Arc<D>>,
    _pd: PhantomData<Req>,
}

impl<Req, B, D> CodecLazy<Req, B, D> {
    /// The message.
    pub closed spec fn spec_raw_msg(&self) -> Incoming<B> {
        self.raw_msg
    }

    /// What decompresses it.
    pub closed spec fn spec_decompressor(&self) -> Option<D> {
        shared_view(self.decompressor)
    }
}

impl<Req: Deserialize, B: Buf, D: Compressor> Lazy<Req> for CodecLazy<Req, B, D> {
    open spec fn inv(&self) -> bool {
        self.spec_raw_msg().message_bytes.inv()
    }

    open spec fn resolved(self, pre: Req, post: Req, r: Result<(), Status>) -> bool {
        let bytes = self.spec_raw_msg().message_bytes.bytes();
        match self.spec_decompressor() {
            Some(d) => exists|out: CodingResult|
                {
                    &&& #[trigger] d.decompressed(bytes, out)
                    &&& match out {
                        Ok(b) => Req::deserialized(pre, b, post, r),
                        Err(e) => post == pre && (r matches Err(s) && s@ == internal_status(
                            "decompression error: "@ + e,
                        )),
                    }
                },
            None => Req::deserialized(pre, bytes, post, r),
        }
    }

    fn resolve(self, target: Req) -> (r: (Req, Result<(), Status>)) {
        let ghost this = self;
        let ghost bytes = self.raw_msg.message_bytes.bytes();
        let mut dest = target;
        let mut raw = self.raw_msg.message_bytes;
        match &self.decompressor {
            Some(d) => {
                let out = d.decompress(&mut raw);
                let ghost shown = coding_view(out);
                assert(this.spec_decompressor() == Some(**d));
                assert(this.spec_decompressor()->Some_0.decompressed(bytes, shown));
                match out {
                    Ok(v) => {
                        let mut data = bytes_from_vec(v);
                        let r = dest.deserialize(&mut data);
                        (dest, r)
                    },
                    Err(e) => (
                        dest,
                        Err(
                            Status::with_text(
                                StatusCode::Internal,
                                joined_text("decompression error: ", e.as_str()),
                            ),
                        ),
                    ),
                }
            },
            None => {
                let r = dest.deserialize(&mut raw);
                (dest, r)
            },
        }
    }
}

/// Makes lazy messages of raw ones.
pub struct ToLazy<Req, D> {
    decompressor: Option<Arc<D>>,
    _pd: PhantomData<Req>,
}

impl<Req, D> ToLazy<Req, D> {
    /// What decompresses the messages.
    pub closed spec fn spec_decompressor(&self) -> Option<D> {
        shared_view(self.decompressor)
    }
}

impl<Req, B, D> MapItem<Incoming<B>, CodecLazy<Req, B, D>> for ToLazy<Req, D> {
    open spec fn admits(&self, item: Incoming<B>) -> bool {
        true
    }

    open spec fn mapped(&self, item: Incoming<B>, r: Result<CodecLazy<Req, B, D>, Status>) -> bool {
        r matches Ok(lazy) && lazy.spec_raw_msg() == item && lazy.spec_decompressor()
            == self.spec_decompressor()
    }

    fn map_item(&self, item: Incoming<B>) -> (r: Result<CodecLazy<Req, B, D>, Status>) {
        let decompressor: Option<Arc<D>> = match &self.decompressor {
            Some(d) => Some(d.clone()),
            None => None,
        };
        Ok(CodecLazy { raw_msg: item, decompressor, _pd: PhantomData })
    }
}

/// Whether a message is to be compressed where the call can be.
pub open spec fn wants_compression(options: Option<MessageWriteOptions>) -> bool {
    match options {
        Some(o) => o.compression != CompressionEncoding::Disabled,
        None => true,
    }
}

/// Turns responses into bytes and compresses them, where the call can be.
pub struct EncodeOutgoing<D> {
    compressor: Option<Arc<D>>,
}

impl<D> EncodeOutgoing<D> {
    /// What compresses the responses.
    pub closed spec fn spec_compressor(&self) -> Option<D> {
        shared_view(self.compressor)
    }
}

/// Whether this may come of the bytes of a response.
pub open spec fn coded<D: Compressor>(
    compressor: Option<D>,
    options: Option<MessageWriteOptions>,
    bytes: Seq<u8>,
    r: Result<Bytes, Status>,
) -> bool {
    if wants_compression(options) && compressor is Some {
        exists|out: CodingResult|
            {
                &&& #[trigger] compressor->Some_0.compressed(bytes, out)
                &&& match out {
                    Ok(b) => r matches Ok(x) && contents(x) == b,
                    Err(e) => r matches Err(s) && s@ == internal_status(
                        "compression error: "@ + e,
                    ),
                }
            }
    } else {
        r matches Ok(x) && contents(x) == bytes
    }
}

impl<Resp: Serialize, D: Compressor> MapItem<Outgoing<Resp>, Bytes> for EncodeOutgoing<D> {
    open spec fn admits(&self, item: Outgoing<Resp>) -> bool {
        true
    }

    open spec fn mapped(&self, item: Outgoing<Resp>, r: Result<Bytes, Status>) -> bool {
        ||| exists|bytes: Seq<u8>| #[trigger]
            item.message.serialized(bytes) && coded(
                self.spec_compressor(),
                item.options,
                bytes,
                r,
            )
        ||| exists|e: Status| #[trigger]
            item.message.unserializable(e) && (r matches Err(s) && s@ == internal_status(
                "serialization error: "@ + e@.debug(),
            ))
    }

    fn map_item(&self, item: Outgoing<Resp>) -> (r: Result<Bytes, Status>) {
        let mut buf: Vec<u8> = Vec::new();
        match item.message.serialize(&mut buf) {
            Ok(()) => {},
            Err(e) => {
                assert(item.message.unserializable(e));
                return Err(
                    Status::with_text(
                        StatusCode::Internal,
                        joined_text("serialization error: ", e.debug_text().as_str()),
                    ),
                );
            },
        }
        let ghost bytes = buf@;
        assert(buf@.skip(0) =~= bytes);
        assert(item.message.serialized(bytes));
        let wanted: bool = match item.options {
            Some(o) => o.compression != CompressionEncoding::Disabled,
            None => true,
        };
        if wanted {
            if let Some(compressor) = &self.compressor {
                let out = compressor.compress(buf.as_slice());
                let ghost shown = coding_view(out);
                assert(self.spec_compressor() == Some(**compressor));
                assert(self.spec_compressor()->Some_0.compressed(bytes, shown));
                let r: Result<Bytes, Status> = match out {
                    Ok(v) => Ok(bytes_from_vec(v)),
                    Err(e) => Err(
                        Status::with_text(
                            StatusCode::Internal,
                            joined_text("compression error: ", e.as_str()),
                        ),
                    ),
                };
                assert(coded(self.spec_compressor(), item.options, bytes, r));
                return r;
            }
        }
        let r: Result<Bytes, Status> = Ok(bytes_from_vec(buf));
        assert(coded(self.spec_compressor(), item.options, bytes, r));
        r
    }
}

/// A handler of messages as a handler of bytes: it decompresses and reads requests, and writes and
/// compresses responses. `G` are the encodings that are known.
pub struct CodecMessageStreamHandler<H, G, Req, Resp> {
    inner: H,
    _pd: PhantomData<(G, Req, Resp)>,
}

impl<H, G, Req, Resp> CodecMessageStreamHandler<H, G, Req, Resp> {
    /// The handler of messages.
    pub closed spec fn spec_inner(&self) -> H {
        self.inner
    }

    /// A handler of messages as a handler of bytes.
    pub fn new(inner: H) -> (r: Self)
        ensures
            r.spec_inner() == inner,
    {
        CodecMessageStreamHandler { inner, _pd: PhantomData }
    }
}

/// The lazy messages of a call.
pub type Lazies<P, Req, B, D> = ThenProducer<P, Incoming<B>, ToLazy<Req, D>>;

/// The writer of the responses of a call.
pub type Responses<W, D> = MapMessageStreamingResponseWriter<W, EncodeOutgoing<D>, Bytes>;

/// The writer of the messages of the responses of a call.
pub type ResponseBodies<B, D> = MapMessageStreamingResponseBodyWriter<B, EncodeOutgoing<D>, Bytes>;

/// What is left of a response whose messages would have been turned into bytes.
pub open spec fn unmapped<W, B, D>(left: Left<Responses<W, D>, ResponseBodies<B, D>>) -> Left<
    W,
    B,
> {
    match left {
        Left::Response(w) => Left::Response(w.spec_inner()),
        Left::Body(w) => Left::Body(w.spec_inner()),
        Left::Nothing => Left::Nothing,
    }
}

/// Whether this may decompress a call with the given metadata: what is found under the encoding
/// that the metadata names, and nothing if it names none.
pub open spec fn decompresses<G: CodecRegistry>(
    metadata: Metadata,
    decompressor: Option<G::Codec>,
) -> bool {
    match encoding_of(headers(metadata.inner)) {
        Some(name) => decompressor is Some && G::found(decode_utf8(name), decompressor),
        None => decompressor is None,
    }
}

/// Whether this may compress the responses of a call: what is found under the encoding that the
/// options name, if the peer accepts it, and nothing otherwise.
pub open spec fn compresses<G: CodecRegistry>(
    options: HandlerCallOptions,
    metadata: Metadata,
    compressor: Option<G::Codec>,
) -> bool {
    match options.compression_encoding {
        Some(name) => if accepts(headers(metadata.inner), encode_utf8(name@)) {
            G::found(name@, compressor)
        } else {
            compressor is None
        },
        None => compressor is None,
    }
}

/// The status of a call with an encoding that is not known.
pub open spec fn unknown_encoding(name: Seq<char>) -> StatusView {
    StatusView {
        code: StatusCode::Unimplemented,
        message: "compression encoding "@ + name + " not found"@,
    }
}

impl<
    G: CodecRegistry,
    Req: Deserialize,
    Resp: Serialize,
    B: Buf,
    P: PushStreamProducer<Incoming<B>>,
    W: StreamingResponseWriter<Bytes>,
    H: MessageStreamHandler<
        Req,
        Resp,
        CodecLazy<Req, B, G::Codec>,
        Lazies<P, Req, B, G::Codec>,
        Responses<W, G::Codec>,
    >,
> GenericByteStreamMethodHandler<B, Bytes, P, W> for CodecMessageStreamHandler<H, G, Req, Resp> {
    open spec fn called(
        &self,
        options: HandlerCallOptions,
        req: StreamingRequest<Incoming<B>, P>,
        resp: W,
        r: Outcome<W, W::BodyWriter>,
    ) -> bool {
        ||| {
            &&& encoding_of(headers(req.spec_metadata().inner)) matches Some(name)
            &&& G::found(
                decode_utf8(encoding_of(headers(req.spec_metadata().inner))->Some_0),
                None,
            )
            &&& r.0 matches Err(e)
            &&& r.0->Err_0@ == unknown_encoding(
                decode_utf8(encoding_of(headers(req.spec_metadata().inner))->Some_0),
            )
            &&& r.1 == Left::<W, W::BodyWriter>::Response(resp)
        }
        ||| exists|
            typed: StreamingRequest<
                CodecLazy<Req, B, G::Codec>,
                Lazies<P, Req, B, G::Codec>,
            >,
            writer: Responses<W, G::Codec>,
            end: Outcome<Responses<W, G::Codec>, ResponseBodies<W::BodyWriter, G::Codec>>,
        |
            {
                &&& #[trigger] self.spec_inner().called(options, typed, writer, end)
                &&& r.0 == end.0
                &&& r.1 == unmapped(end.1)
                &&& typed.spec_metadata() == req.spec_metadata()
                &&& typed.spec_stream().spec_producer().spec_inner()
                    == req.spec_stream().spec_producer()
                &&& decompresses::<G>(
                    req.spec_metadata(),
                    typed.spec_stream().spec_producer().spec_f().spec_decompressor(),
                )
                &&& writer.spec_inner() == resp
                &&& compresses::<G>(
                    options,
                    req.spec_metadata(),
                    writer.spec_f().spec_compressor(),
                )
            }
    }

    fn call(
        &self,
        options: HandlerCallOptions,
        req: StreamingRequest<Incoming<B>, P>,
        resp: W,
    ) -> (r: Outcome<W, W::BodyWriter>) {
        let ghost producer = req.spec_stream().spec_producer();
        let (metadata, raw_stream) = req.into_parts();
        let decompressor: Option<Arc<G::Codec>> = match metadata.encoding() {
            Some(encoding) => {
                proof {
                    vstd::utf8::encode_utf8_decode_utf8(encoding@);
                }
                match G::get_codec(encoding) {
                    Some(codec) => Some(codec),
                    None => {
                        let mut message = joined_text("compression encoding ", encoding);
                        message.append(" not found");
                        let e = Status::with_text(StatusCode::Unimplemented, message);
                        return (Err(e), Left::Response(resp));
                    },
                }
            },
            None => None,
        };
        let compressor: Option<Arc<G::Codec>> = match &options.compression_encoding {
            Some(name) => if metadata.accepts_encoding(name.as_str()) {
                G::get_codec(name.as_str())
            } else {
                None
            },
            None => None,
        };
        let to_lazy: ToLazy<Req, G::Codec> = ToLazy { decompressor, _pd: PhantomData };
        let typed_stream = raw_stream.map_items(to_lazy);
        let encode = EncodeOutgoing { compressor };
        let writer: Responses<W, G::Codec> = resp.map_message::<Outgoing<Resp>, EncodeOutgoing<
            G::Codec,
        >>(encode);
        let typed = StreamingRequest::new(typed_stream, metadata);
        let end = self.inner.call(options, typed, writer);
        assert(self.spec_inner().called(options, typed, writer, end));
        let left = match end.1 {
            Left::Response(w) => Left::Response(w.into_inner()),
            Left::Body(w) => Left::Body(w.into_inner()),
            Left::Nothing => Left::Nothing,
        };
        (end.0, left)
    }
}

/// Whether this compresses what a call sends as its options ask: the codec that is registered under
/// the name that they give, where the peer accepts it, and none otherwise.
pub open spec fn compresses_as_asked<G: CodecRegistry>(
    options: HandlerCallOptions,
    metadata: Metadata,
    compressor: Option<G::Codec>,
) -> bool {
    &&& options.compression_encoding is None ==> compressor is None
    &&& options.compression_encoding matches Some(name) ==> {
        &&& accepts(headers(metadata.inner), encode_utf8(name@)) ==> G::found(name@, compressor)
        &&& !accepts(headers(metadata.inner), encode_utf8(name@)) ==> compressor is None
    }
}

/// Where a request names an encoding, its messages are decompressed by the codec that is registered
/// under that name, whatever else its metadata says. Without a codec of that name the call is
/// refused as unimplemented, the response is left as it was, and the handler is not called.
pub proof fn law_named_encoding_decompresses<
    G: CodecRegistry,
    Req: Deserialize,
    Resp: Serialize,
    B: Buf,
    P: PushStreamProducer<Incoming<B>>,
    W: StreamingResponseWriter<Bytes>,
    H: MessageStreamHandler<
        Req,
        Resp,
        CodecLazy<Req, B, G::Codec>,
        Lazies<P, Req, B, G::Codec>,
        Responses<W, G::Codec>,
    >,
>(
    handler: CodecMessageStreamHandler<H, G, Req, Resp>,
    options: HandlerCallOptions,
    req: StreamingRequest<Incoming<B>, P>,
    resp: W,
    r: Outcome<W, W::BodyWriter>,
    name: Seq<u8>,
)
    requires
        handler.called(options, req, resp, r),
        values_of(headers(req.spec_metadata().inner), "grpc-encoding"@).len() > 0,
        values_of(headers(req.spec_metadata().inner), "grpc-encoding"@)[0] == name,
        is_visible(name),
    ensures
        ({
            ||| {
                &&& G::found(decode_utf8(name), None)
                &&& r.0 matches Err(e) && e@.code.number() == 12 && e@.message
                    == "compression encoding "@ + decode_utf8(name) + " not found"@
                &&& r.1 == Left::<W, W::BodyWriter>::Response(resp)
            }
            ||| exists|
                typed: StreamingRequest<
                    CodecLazy<Req, B, G::Codec>,
                    Lazies<P, Req, B, G::Codec>,
                >,
                writer: Responses<W, G::Codec>,
                end: Outcome<Responses<W, G::Codec>, ResponseBodies<W::BodyWriter, G::Codec>>,
                codec: G::Codec,
            |
                {
                    &&& #[trigger] handler.spec_inner().called(options, typed, writer, end)
                    &&& #[trigger] G::found(decode_utf8(name), Some(codec))
                    &&& typed.spec_stream().spec_producer().spec_f().spec_decompressor() == Some(
                        codec,
                    )
                    &&& typed.spec_stream().spec_producer().spec_inner()
                        == req.spec_stream().spec_producer()
                    &&& typed.spec_metadata() == req.spec_metadata()
                    &&& writer.spec_inner() == resp
                    &&& compresses_as_asked::<G>(
                        options,
                        req.spec_metadata(),
                        writer.spec_f().spec_compressor(),
                    )
                    &&& r.0 == end.0
                    &&& end.1 matches Left::Response(w) ==> r.1 == Left::<
                        W,
                        W::BodyWriter,
                    >::Response(w.spec_inner())
                    &&& end.1 matches Left::Body(w) ==> r.1 == Left::<W, W::BodyWriter>::Body(
                        w.spec_inner(),
                    )
                    &&& end.1 is Nothing ==> r.1 is Nothing
                }
        }),
{
    let refused = G::found(decode_utf8(name), None) && r.1 == Left::<
        W,
        W::BodyWriter,
    >::Response(resp) && (r.0 matches Err(e) && e@ == unknown_encoding(decode_utf8(name)));
    if !refused {
        let (typed, writer, end) = choose|
            typed: StreamingRequest<
                CodecLazy<Req, B, G::Codec>,
                Lazies<P, Req, B, G::Codec>,
            >,
            writer: Responses<W, G::Codec>,
            end: Outcome<Responses<W, G::Codec>, ResponseBodies<W::BodyWriter, G::Codec>>,
        |
            {
                &&& #[trigger] handler.spec_inner().called(options, typed, writer, end)
                &&& r.0 == end.0
                &&& r.1 == unmapped(end.1)
                &&& typed.spec_metadata() == req.spec_metadata()
                &&& typed.spec_stream().spec_producer().spec_inner()
                    == req.spec_stream().spec_producer()
                &&& decompresses::<G>(
                    req.spec_metadata(),
                    typed.spec_stream().spec_producer().spec_f().spec_decompressor(),
                )
                &&& writer.spec_inner() == resp
                &&& compresses::<G>(
                    options,
                    req.spec_metadata(),
                    writer.spec_f().spec_compressor(),
                )
            };
        let d = typed.spec_stream().spec_producer().spec_f().spec_decompressor();
        assert(d is Some);
        let codec = d->Some_0;
        assert(handler.spec_inner().called(options, typed, writer, end));
        assert(G::found(decode_utf8(name), Some(codec)));
    }
}

/// Where a request names no encoding its messages are not decompressed, and the handler is called
/// in any case.
pub proof fn law_no_encoding_leaves_messages<
    G: CodecRegistry,
    Req: Deserialize,
    Resp: Serialize,
    B: Buf,
    P: PushStreamProducer<Incoming<B>>,
    W: StreamingResponseWriter<Bytes>,
    H: MessageStreamHandler<
        Req,
        Resp,
        CodecLazy<Req, B, G::Codec>,
        Lazies<P, Req, B, G::Codec>,
        Responses<W, G::Codec>,
    >,
>(
    handler: CodecMessageStreamHandler<H, G, Req, Resp>,
    options: HandlerCallOptions,
    req: StreamingRequest<Incoming<B>, P>,
    resp: W,
    r: Outcome<W, W::BodyWriter>,
)
    requires
        handler.called(options, req, resp, r),
        values_of(headers(req.spec_metadata().inner), "grpc-encoding"@).len() == 0 || !is_visible(
            values_of(headers(req.spec_metadata().inner), "grpc-encoding"@)[0],
        ),
    ensures
        exists|
            typed: StreamingRequest<
                CodecLazy<Req, B, G::Codec>,
                Lazies<P, Req, B, G::Codec>,
            >,
            writer: Responses<W, G::Codec>,
            end: Outcome<Responses<W, G::Codec>, ResponseBodies<W::BodyWriter, G::Codec>>,
        |
            {
                &&& #[trigger] handler.spec_inner().called(options, typed, writer, end)
                &&& typed.spec_stream().spec_producer().spec_f().spec_decompressor() is None
                &&& typed.spec_stream().spec_producer().spec_inner()
                    == req.spec_stream().spec_producer()
                &&& typed.spec_metadata() == req.spec_metadata()
                &&& writer.spec_inner() == resp
                &&& compresses_as_asked::<G>(
                    options,
                    req.spec_metadata(),
                    writer.spec_f().spec_compressor(),
                )
                &&& r.0 == end.0
                &&& end.1 matches Left::Response(w) ==> r.1 == Left::<
                    W,
                    W::BodyWriter,
                >::Response(w.spec_inner())
                &&& end.1 matches Left::Body(w) ==> r.1 == Left::<W, W::BodyWriter>::Body(
                    w.spec_inner(),
                )
                &&& end.1 is Nothing ==> r.1 is Nothing
            },
{
}

/// A message that goes through a codec is read from what the codec makes of its bytes, and where
/// that fails the message is not read. Without a codec it is read from its bytes.
pub proof fn law_messages_are_read_decompressed<Req: Deserialize, B: Buf, D: Compressor>(
    to_lazy: ToLazy<Req, D>,
    raw: Incoming<B>,
    mapped: Result<CodecLazy<Req, B, D>, Status>,
    pre: Req,
    post: Req,
    r: Result<(), Status>,
)
    requires
        to_lazy.mapped(raw, mapped),
        mapped is Ok ==> mapped->Ok_0.resolved(pre, post, r),
    ensures
        mapped is Ok,
        to_lazy.spec_decompressor() matches Some(codec) ==> exists|out: CodingResult|
            #[trigger] codec.decompressed(raw.message_bytes.bytes(), out) && (match out {
                Ok(bytes) => Req::deserialized(pre, bytes, post, r),
                Err(reason) => post == pre && (r matches Err(e) && e@.code.number() == 13
                    && e@.message == "decompression error: "@ + reason),
            }),
        to_lazy.spec_decompressor() is None ==> Req::deserialized(
            pre,
            raw.message_bytes.bytes(),
            post,
            r,
        ),
{
}

/// Responses are compressed by the codec that the call's options name, where the peer accepts it
/// and it is registered, and are not compressed otherwise.
pub proof fn law_accepted_encoding_compresses<G: CodecRegistry>(
    options: HandlerCallOptions,
    metadata: Metadata,
    compressor: Option<G::Codec>,
)
    requires
        compresses::<G>(options, metadata, compressor),
    ensures
        options.compression_encoding is None ==> compressor is None,
        options.compression_encoding matches Some(name) ==> {
            &&& compressor is Some ==> accepts(headers(metadata.inner), encode_utf8(name@))
            &&& accepts(headers(metadata.inner), encode_utf8(name@)) ==> G::found(
                name@,
                compressor,
            )
        },
{
}

/// A response is sent as it is serialized, or as the codec of the call compresses that: the latter
/// where there is a codec, unless the response asks to be left as it is. A failure of either is an
/// internal error that says so.
pub proof fn law_responses_are_compressed<Resp: Serialize, D: Compressor>(
    encode: EncodeOutgoing<D>,
    item: Outgoing<Resp>,
    r: Result<Bytes, Status>,
)
    requires
        encode.mapped(item, r),
    ensures
        r matches Ok(sent) ==> exists|bytes: Seq<u8>| #[trigger]
            item.message.serialized(bytes) && (if encode.spec_compressor() is Some && !(
            item.options matches Some(o) && o.compression == CompressionEncoding::Disabled) {
                encode.spec_compressor()->Some_0.compressed(bytes, Ok(contents(sent)))
            } else {
                contents(sent) == bytes
            }),
        r matches Err(e) ==> e@.code.number() == 13,
        encode.spec_compressor() is None && r is Err ==> exists|e: Status|
            #[trigger] item.message.unserializable(e),
        (item.options matches Some(o) && o.compression == CompressionEncoding::Disabled) && r is Err
            ==> exists|e: Status| #[trigger] item.message.unserializable(e),
        encode.spec_compressor() is Some && r is Err ==> {
            ||| exists|e: Status| #[trigger] item.message.unserializable(e)
            ||| exists|bytes: Seq<u8>, reason: Seq<char>|
                item.message.serialized(bytes) && #[trigger] encode.spec_compressor()->Some_0.compressed(
                    bytes,
                    Err(reason),
                )
        },
{
}

} // verus!
