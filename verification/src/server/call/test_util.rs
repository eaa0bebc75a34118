//! A response whose messages go to a stream and whose metadata goes to writers of its own.

use crate::server::call::metadata::Metadata;
use crate::server::call::streaming_response_writer::{
    NotSent, StreamingResponseBodyWriter, StreamingResponseWriter,
};
use crate::server::stream::{PushStreamConsumer, PushStreamWriter};
use crate::status::Status;
use vstd::prelude::*;

verus! {

/// A writer of initial metadata.
pub trait InitialMetadataWriter: Sized {
    /// Whether sending this metadata may end in this way.
    open spec fn initiated(self, metadata: Metadata, r: Result<(), Status>) -> bool {
        true
    }

    /// Sends the initial metadata.
    fn send_initial_metadata(self, metadata: Metadata) -> (r: Result<(), Status>)
        ensures
            self.initiated(metadata, r),
    ;
}

/// A writer of trailing metadata.
pub trait TrailingMetadataWriter: Sized {
    /// Whether sending this metadata may end in this way.
    open spec fn trailed(self, metadata: Metadata, r: Result<(), Status>) -> bool {
        true
    }

    /// Sends the trailing metadata.
    fn send_trailing_metadata(self, metadata: Metadata) -> (r: Result<(), Status>)
        ensures
            self.trailed(metadata, r),
    ;
}

/// A response whose messages go to a stream and whose metadata goes to writers of its own.
pub struct StreamingResponseImpl<T, C, I, Tr> {
    writer: PushStreamWriter<T, C>,
    initial_metadata_writer: I,
    trailing_metadata_writer: Tr,
}

impl<T, C, I, Tr> StreamingResponseImpl<T, C, I, Tr> {
    /// The writer of the messages.
    pub closed spec fn spec_writer(&self) -> PushStreamWriter<T, C> {
        self.writer
    }

    /// The writer of the initial metadata.
    pub closed spec fn spec_initial(&self) -> I {
        self.initial_metadata_writer
    }

    /// The writer of the trailing metadata.
    pub closed spec fn spec_trailing(&self) -> Tr {
        self.trailing_metadata_writer
    }

    /// A response with the given writers.
    pub fn new(
        writer: PushStreamWriter<T, C>,
        initial_metadata_writer: I,
        trailing_metadata_writer: Tr,
    ) -> (r: Self)
        ensures
            r.spec_writer() == writer,
            r.spec_initial() == initial_metadata_writer,
            r.spec_trailing() == trailing_metadata_writer,
    {
        StreamingResponseImpl { writer, initial_metadata_writer, trailing_metadata_writer }
    }
}

impl<
    T,
    C: PushStreamConsumer<T>,
    I: InitialMetadataWriter,
    Tr: TrailingMetadataWriter,
> StreamingResponseWriter<T> for StreamingResponseImpl<T, C, I, Tr> {
    type BodyWriter = StreamingResponseBodyImpl<T, C, Tr>;

    open spec fn inv(&self) -> bool {
        &&& self.spec_writer().spec_consumer().inv()
        &&& forall|item: T| self.spec_writer().spec_consumer().admits(item)
    }

    open spec fn initiated(
        self,
        metadata: Metadata,
        r: Result<Self::BodyWriter, NotSent<Self>>,
    ) -> bool {
        match r {
            Ok(w) => {
                &&& self.spec_initial().initiated(metadata, Ok(()))
                &&& w.spec_writer() == self.spec_writer()
                &&& w.spec_trailing() == self.spec_trailing()
            },
            Err(e) => self.spec_initial().initiated(metadata, Err(e.status)) && e.writer is None,
        }
    }

    fn send_initial_metadata(self, metadata: Metadata) -> (r: Result<
        Self::BodyWriter,
        NotSent<Self>,
    >) {
        let sent = self.initial_metadata_writer.send_initial_metadata(metadata);
        assert(sent matches Ok(u) ==> u == ());
        match sent {
            Ok(()) => Ok(
                StreamingResponseBodyImpl {
                    writer: self.writer,
                    trailing_metadata_writer: self.trailing_metadata_writer,
                },
            ),
            Err(e) => Err(NotSent { status: e, writer: None }),
        }
    }
}

/// The body of a response whose messages go to a stream.
pub struct StreamingResponseBodyImpl<T, C, Tr> {
    writer: PushStreamWriter<T, C>,
    trailing_metadata_writer: Tr,
}

impl<T, C, Tr> StreamingResponseBodyImpl<T, C, Tr> {
    /// The writer of the messages.
    pub closed spec fn spec_writer(&self) -> PushStreamWriter<T, C> {
        self.writer
    }

    /// The writer of the trailing metadata.
    pub closed spec fn spec_trailing(&self) -> Tr {
        self.trailing_metadata_writer
    }

    /// The writer of the messages.
    pub fn into_inner(self) -> (r: PushStreamWriter<T, C>)
        ensures
            r == self.spec_writer(),
    {
        self.writer
    }
}

impl<T, C: PushStreamConsumer<T>, Tr: TrailingMetadataWriter> StreamingResponseBodyWriter<
    T,
> for StreamingResponseBodyImpl<T, C, Tr> {
    open spec fn inv(&self) -> bool {
        &&& self.spec_writer().spec_consumer().inv()
        &&& forall|item: T| self.spec_writer().spec_consumer().admits(item)
    }

    open spec fn written(pre: Self, item: T, post: Self, r: Result<(), Status>) -> bool {
        &&& C::consumed(
            pre.spec_writer().spec_consumer(),
            item,
            post.spec_writer().spec_consumer(),
            r,
        )
        &&& post.spec_trailing() == pre.spec_trailing()
    }

    open spec fn trailed(self, trailers: Metadata, r: Result<(), NotSent<Self>>) -> bool {
        match r {
            Ok(_) => self.spec_trailing().trailed(trailers, Ok(())),
            Err(e) => self.spec_trailing().trailed(trailers, Err(e.status)) && e.writer is None,
        }
    }

    fn write(&mut self, item: T) -> (r: Result<(), Status>) {
        self.writer.write(item)
    }

    fn send_trailing_metadata(self, trailers: Metadata) -> (r: Result<(), NotSent<Self>>) {
        let sent = self.trailing_metadata_writer.send_trailing_metadata(trailers);
        assert(sent matches Ok(u) ==> u == ());
        match sent {
            Ok(()) => Ok(()),
            Err(e) => Err(NotSent { status: e, writer: None }),
        }
    }
}


/// The parts of a response go to the writers that are there for them: the initial metadata to the
/// first, each message to the stream, and the trailing metadata to the last, each as it is; and each
/// is answered as its writer answers.
pub proof fn law_parts_go_to_their_writers<
    T,
    C: PushStreamConsumer<T>,
    I: InitialMetadataWriter,
    Tr: TrailingMetadataWriter,
>(
    response: StreamingResponseImpl<T, C, I, Tr>,
    metadata: Metadata,
    body: StreamingResponseBodyImpl<T, C, Tr>,
    item: T,
    after: StreamingResponseBodyImpl<T, C, Tr>,
    answer: Result<(), Status>,
    trailers: Metadata,
)
    requires
        <StreamingResponseImpl<T, C, I, Tr> as StreamingResponseWriter<T>>::initiated(
            response,
            metadata,
            Ok(body),
        ),
        <StreamingResponseBodyImpl<T, C, Tr> as StreamingResponseBodyWriter<T>>::written(
            body,
            item,
            after,
            answer,
        ),
        <StreamingResponseBodyImpl<T, C, Tr> as StreamingResponseBodyWriter<T>>::trailed(
            after,
            trailers,
            Ok(()),
        ),
    ensures
        response.spec_initial().initiated(metadata, Ok(())),
        C::consumed(
            response.spec_writer().spec_consumer(),
            item,
            after.spec_writer().spec_consumer(),
            answer,
        ),
        response.spec_trailing().trailed(trailers, Ok(())),
{
}

} // verus!
