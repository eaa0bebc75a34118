//! The handler of a server-streaming method.

use crate::server::call::lazy::Lazy;
use crate::server::call::message_wrapper::Outgoing;
use crate::server::call::metadata::Metadata;
use crate::server::call::request::{HandlerCallOptions, StreamingRequest};
use crate::server::call::streaming_response_writer::{
    ended_by, failed, not_begun, unbegun, Left, NotSent, Outcome, StreamingResponseBodyWriter,
    StreamingResponseWriter,
};
use crate::server::codegen_api::server_streaming::ServerStreamingMethod;
use crate::server::method_handler::bidi_streaming_adapter::{
    begun, finished, ResolveLazy, ResponseConsumerAdapter,
};
use crate::server::method_handler::message_stream_handler::MessageStreamHandler;
use crate::server::stream::stream_writer_ext::mapped_writes;
use crate::server::stream::{
    consumed_all, ran, PushStreamConsumer, PushStreamProducer, PushStreamWriter, Write,
};
use crate::status::{ServerStatus, Status, StatusCode, StatusView};
use std::marker::PhantomData;
use vstd::prelude::*;

verus! {

/// A consumer of requests that calls a method for the first one and refuses any other.
pub struct SingleMessageStreamConsumer<'a, M, W, Resp> {
    method: &'a M,
    // Empty only while the method has the writer.
    writer: Option<ResponseConsumerAdapter<W>>,
    called: bool,
    _phantom: PhantomData<Resp>,
}

impl<'a, M, W, Resp> SingleMessageStreamConsumer<'a, M, W, Resp> {
    /// The method.
    pub closed spec fn spec_method(&self) -> M {
        *self.method
    }

    /// What the responses are written to.
    pub closed spec fn spec_writer(&self) -> ResponseConsumerAdapter<W> {
        self.writer->Some_0
    }

    /// Whether there is something to write to.
    pub closed spec fn has_writer(&self) -> bool {
        self.writer is Some
    }

    /// Whether the method was called.
    pub closed spec fn spec_called(&self) -> bool {
        self.called
    }
}

/// The status of a call with more than one request.
pub open spec fn second_request() -> StatusView {
    StatusView {
        code: StatusCode::Internal,
        message: "Unary request must have exactly one message"@,
    }
}

/// Whether calling a method for a request may turn the writer `pre` into `post` and end with this
/// result.
pub open spec fn method_called<
    Req,
    Resp,
    M: ServerStreamingMethod<Req, Resp>,
    W: StreamingResponseBodyWriter<Outgoing<Resp>>,
>(
    method: M,
    req: Req,
    pre: ResponseConsumerAdapter<W>,
    post: ResponseConsumerAdapter<W>,
    r: Result<(), Status>,
) -> bool {
    exists|writes: Seq<Write<Resp>>, res: Result<(), ServerStatus>|
        {
            &&& #[trigger] method.called(req, writes, res)
            &&& consumed_all(pre, writes, post)
            &&& match res {
                Ok(_) => r is Ok,
                Err(s) => r == Err::<(), Status>(s.spec_status()),
            }
        }
}

impl<
    'a,
    Req,
    Resp,
    M: ServerStreamingMethod<Req, Resp>,
    W: StreamingResponseBodyWriter<Outgoing<Resp>>,
> PushStreamConsumer<Req> for SingleMessageStreamConsumer<'a, M, W, Resp> {
    open spec fn inv(&self) -> bool {
        self.has_writer() && self.spec_writer().spec_writer().inv()
    }

    open spec fn admits(&self, item: Req) -> bool {
        true
    }

    open spec fn consumed(pre: Self, item: Req, post: Self, r: Result<(), Status>) -> bool {
        &&& post.spec_called()
        &&& post.spec_method() == pre.spec_method()
        &&& if pre.spec_called() {
            &&& r matches Err(e) && e@ == second_request()
            &&& post.spec_writer() == pre.spec_writer()
        } else {
            method_called(pre.spec_method(), item, pre.spec_writer(), post.spec_writer(), r)
        }
    }

    fn write(&mut self, item: Req) -> (r: Result<(), Status>) {
        if self.called {
            return Err(
                Status::new(
                    StatusCode::Internal,
                    "Unary request must have exactly one message",
                ),
            );
        }
        self.called = true;
        match self.writer.take() {
            Some(writer) => {
                let (res, back) = self.method.server_streaming(
                    &item,
                    PushStreamWriter::new(writer),
                );
                let after = back.into_consumer();
                proof {
                    let writes = choose|writes: Seq<Write<Resp>>| #[trigger]
                        self.method.called(item, writes, res) && consumed_all(
                            writer,
                            writes,
                            after,
                        );
                    assert(old(self).spec_method().called(item, writes, res));
                }
                self.writer = Some(after);
                match res {
                    Ok(()) => Ok(()),
                    Err(s) => Err(s.into_status()),
                }
            },
            None => Ok(()),
        }
    }
}

/// The handler of a server-streaming method: it sends empty initial metadata, calls the method for
/// the one request, and sends empty trailing metadata.
pub struct ServerStreamingAdapter<T>(pub T);

/// Whether running the requests of a call may turn the consumer `pre` into `post` and end with
/// this result: each lazy message that the producer writes is read into a message of its own.
pub open spec fn requests_consumed<
    Req: Default,
    L: Lazy<Req>,
    P: PushStreamProducer<L>,
    C: PushStreamConsumer<Req>,
>(producer: P, pre: C, r: Result<(), Status>, post: C) -> bool {
    exists|before: Seq<Write<L>>, f: ResolveLazy<Req>, after: Seq<Write<Req>>| #[trigger]
        producer.produces(before, r) && #[trigger] mapped_writes(f, before, after) && consumed_all(
            pre,
            after,
            post,
        )
}

impl<
    T: ServerStreamingMethod<Req, Resp>,
    Req: Default,
    Resp,
    L: Lazy<Req>,
    P: PushStreamProducer<L>,
    W: StreamingResponseWriter<Outgoing<Resp>>,
> MessageStreamHandler<Req, Resp, L, P, W> for ServerStreamingAdapter<T> {
    open spec fn called(
        &self,
        options: HandlerCallOptions,
        req: StreamingRequest<L, P>,
        writer: W,
        r: Outcome<W, W::BodyWriter>,
    ) -> bool {
        exists|first: Result<W::BodyWriter, NotSent<W>>|
            {
                &&& #[trigger] begun(writer, first)
                &&& match first {
                    Err(e) => failed(r, e.status, unbegun(e.writer)),
                    Ok(body) => exists|
                        pre: SingleMessageStreamConsumer<'_, T, W::BodyWriter, Resp>,
                        res: Result<(), Status>,
                        post: SingleMessageStreamConsumer<'_, T, W::BodyWriter, Resp>,
                    |
                        {
                            &&& pre.spec_method() == self.0
                            &&& pre.has_writer()
                            &&& pre.spec_writer().spec_writer() == body
                            &&& !pre.spec_called()
                            &&& #[trigger] requests_consumed::<Req, L, P, _>(
                                req.spec_stream().spec_producer(),
                                pre,
                                res,
                                post,
                            )
                            &&& match res {
                                Ok(_) => finished::<Outgoing<Resp>, W>(
                                    post.spec_writer().spec_writer(),
                                    r,
                                ),
                                Err(e) => failed(
                                    r,
                                    e,
                                    Left::Body(post.spec_writer().spec_writer()),
                                ),
                            }
                        },
                }
            }
    }

    fn call(
        &self,
        options: HandlerCallOptions,
        req: StreamingRequest<L, P>,
        writer: W,
    ) -> (r: Outcome<W, W::BodyWriter>) {
        let empty = Metadata::default();
        let first = writer.send_initial_metadata(empty);
        assert(writer.initiated(empty, first));
        assert(begun(writer, first));
        let body_writer = match first {
            Ok(w) => w,
            Err(e) => {
                return not_begun(e);
            },
        };
        let (_, stream) = req.into_parts();
        let ghost producer = stream.spec_producer();
        let f: ResolveLazy<Req> = ResolveLazy::new();
        let req_stream = stream.map_items(f);
        let consumer: SingleMessageStreamConsumer<'_, T, W::BodyWriter, Resp> =
            SingleMessageStreamConsumer {
            method: &self.0,
            writer: Some(ResponseConsumerAdapter::new(body_writer)),
            called: false,
            _phantom: PhantomData,
        };
        let (res, back) = req_stream.run(PushStreamWriter::new(consumer));
        let consumer_back = back.into_consumer();
        proof {
            assert(ran(req_stream.spec_producer(), consumer, res, consumer_back));
            let after = choose|after: Seq<Write<Req>>| #[trigger]
                req_stream.spec_producer().produces(after, res) && consumed_all(
                    consumer,
                    after,
                    consumer_back,
                );
            let before = choose|before: Seq<Write<L>>| #[trigger]
                req_stream.spec_producer().spec_inner().produces(before, res) && mapped_writes(
                    req_stream.spec_producer().spec_f(),
                    before,
                    after,
                );
            assert(producer.produces(before, res));
            assert(mapped_writes(f, before, after));
            assert(requests_consumed::<Req, L, P, _>(producer, consumer, res, consumer_back));
        }
        match (res, consumer_back.writer) {
            (Ok(()), Some(adapter)) => {
                let body_back = adapter.into_writer();
                let last = Metadata::default();
                let sent = body_back.send_trailing_metadata(last);
                assert(body_back.trailed(last, sent));
                let r = ended_by(sent);
                assert(finished::<Outgoing<Resp>, W>(body_back, r));
                r
            },
            (Err(e), Some(adapter)) => (Err(e), Left::Body(adapter.into_writer())),
            (res, None) => (res, Left::Nothing),
        }
    }
}


/// A server-streaming method takes one request: it is called for the first one, which is answered
/// by its result, and for no other; every other one is refused with an internal error and changes
/// nothing.
pub proof fn law_one_request_only<
    'a,
    Req,
    Resp,
    M: ServerStreamingMethod<Req, Resp>,
    W: StreamingResponseBodyWriter<Outgoing<Resp>>,
>(
    pre: SingleMessageStreamConsumer<'a, M, W, Resp>,
    writes: Seq<Write<Req>>,
    post: SingleMessageStreamConsumer<'a, M, W, Resp>,
)
    requires
        consumed_all(pre, writes, post),
        !pre.spec_called(),
    ensures
        post.spec_called() == (writes.len() > 0),
        post.spec_method() == pre.spec_method(),
        writes.len() == 0 ==> post == pre,
        writes.len() > 0 ==> method_called(
            pre.spec_method(),
            writes[0].0,
            pre.spec_writer(),
            post.spec_writer(),
            writes[0].1,
        ),
        forall|i: int|
            1 <= i < writes.len() ==> (#[trigger] writes[i]).1 is Err && writes[i].1->Err_0@.code
                == StatusCode::Internal && writes[i].1->Err_0@.message
                == "Unary request must have exactly one message"@,
    decreases writes.len(),
{
    if writes.len() > 0 {
        let init = writes.drop_last();
        let mid = choose|mid: SingleMessageStreamConsumer<'a, M, W, Resp>|
            consumed_all(pre, init, mid) && #[trigger] PushStreamConsumer::consumed(
                mid,
                writes.last().0,
                post,
                writes.last().1,
            );
        law_one_request_only(pre, init, mid);
        if init.len() > 0 {
            assert(init[0] == writes[0]);
            assert forall|i: int| 1 <= i < writes.len() implies (#[trigger] writes[i]).1 is Err
                && writes[i].1->Err_0@.code == StatusCode::Internal && writes[i].1->Err_0@.message
                == "Unary request must have exactly one message"@ by {
                if i < init.len() {
                    assert(writes[i] == init[i]);
                }
            }
        }
    }
}

/// The result of the method is that of its one request: success for success, and its own status
/// for an error.
pub proof fn law_method_result_is_told<
    Req,
    Resp,
    M: ServerStreamingMethod<Req, Resp>,
    W: StreamingResponseBodyWriter<Outgoing<Resp>>,
>(
    method: M,
    req: Req,
    pre: ResponseConsumerAdapter<W>,
    post: ResponseConsumerAdapter<W>,
    r: Result<(), Status>,
    ending: Result<(), Status>,
)
    requires
        method_called(method, req, pre, post, r),
        forall|writes: Seq<Write<Resp>>, res: Result<(), ServerStatus>| #[trigger]
            method.called(req, writes, res) ==> match ending {
                Ok(_) => res is Ok,
                Err(e) => res matches Err(s) && s.spec_status() == e,
            },
    ensures
        ending is Ok <==> r is Ok,
        ending matches Err(e) ==> r == Err::<(), Status>(e),
{
}


/// A server-streaming call whose response can be begun and finished ends as the running of its
/// requests does: well where that succeeds, and with its error otherwise, before the trailing
/// metadata.
pub proof fn law_server_streaming_call_ends<
    T: ServerStreamingMethod<Req, Resp>,
    Req: Default,
    Resp,
    L: Lazy<Req>,
    P: PushStreamProducer<L>,
    W: StreamingResponseWriter<Outgoing<Resp>>,
>(
    adapter: ServerStreamingAdapter<T>,
    options: HandlerCallOptions,
    req: StreamingRequest<L, P>,
    writer: W,
    r: Outcome<W, W::BodyWriter>,
    ending: Result<(), Status>,
)
    requires
        <ServerStreamingAdapter<T> as MessageStreamHandler<Req, Resp, L, P, W>>::called(
            &adapter,
            options,
            req,
            writer,
            r,
        ),
        forall|metadata: Metadata, first: Result<W::BodyWriter, NotSent<W>>| #[trigger]
            writer.initiated(metadata, first) ==> first is Ok,
        forall|
            body: W::BodyWriter,
            metadata: Metadata,
            sent: Result<(), NotSent<W::BodyWriter>>,
        | #[trigger]
            body.trailed(metadata, sent) ==> sent is Ok,
        forall|writes: Seq<Write<L>>, res: Result<(), Status>| #[trigger]
            req.spec_stream().spec_producer().produces(writes, res) ==> match ending {
                Ok(_) => res is Ok,
                Err(e) => res == Err::<(), Status>(e),
            },
    ensures
        ending is Ok ==> r.0 is Ok && r.1 is Nothing,
        ending matches Err(e) ==> r.0 == Err::<(), Status>(e) && r.1 is Body,
{
}

} // verus!
