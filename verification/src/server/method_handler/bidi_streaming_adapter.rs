//! The handler of a bidirectional-streaming method.

use crate::headers::{headers, no_headers, values_of};
use crate::server::call::lazy::Lazy;
use crate::server::call::message_wrapper::Outgoing;
use crate::server::call::metadata::Metadata;
use crate::server::call::request::{HandlerCallOptions, StreamingRequest};
use crate::server::call::streaming_response_writer::{
    ended, ended_by, failed, not_begun, unbegun, Left, NotSent, Outcome,
    StreamingResponseBodyWriter, StreamingResponseWriter,
};
use crate::server::codegen_api::bidi_streaming::BidiStreamingMethod;
use crate::server::codegen_api::{may_have_run, Ran};
use crate::server::method_handler::message_stream_handler::MessageStreamHandler;
use crate::server::stream::stream_writer_ext::mapped_writes;
use crate::server::stream::{
    consumed_all, MapItem, PushStreamConsumer, PushStreamProducer, PushStreamWriter, Write,
};
use crate::status::{ServerStatus, Status};
use std::marker::PhantomData;
use vstd::prelude::*;

verus! {

/// Reads lazy messages, each into a message of its own.
pub struct ResolveLazy<Req> {
    _phantom: PhantomData<Req>,
}

impl<Req> ResolveLazy<Req> {
    /// What reads lazy messages.
    pub fn new() -> (r: Self) {
        ResolveLazy { _phantom: PhantomData }
    }
}

/// Whether this may come of reading a lazy message into a new one.
pub open spec fn read_anew<Req: Default, L: Lazy<Req>>(lazy: L, r: Result<Req, Status>) -> bool {
    exists|pre: Req, post: Req, res: Result<(), Status>|
        {
            &&& #[trigger] lazy.resolved(pre, post, res)
            &&& call_ensures(Req::default, (), pre)
            &&& match res {
                Ok(_) => r == Ok::<Req, Status>(post),
                Err(e) => r == Err::<Req, Status>(e),
            }
        }
}

impl<Req: Default, L: Lazy<Req>> MapItem<L, Req> for ResolveLazy<Req> {
    open spec fn admits(&self, item: L) -> bool {
        item.inv()
    }

    open spec fn mapped(&self, item: L, r: Result<Req, Status>) -> bool {
        read_anew(item, r)
    }

    fn map_item(&self, item: L) -> (r: Result<Req, Status>) {
        let target = Req::default();
        let ghost pre = target;
        let (post, res) = item.resolve(target);
        assert(item.resolved(pre, post, res));
        match res {
            Ok(()) => Ok(post),
            Err(e) => Err(e),
        }
    }
}

/// A consumer of responses that writes them to the body of a response.
pub struct ResponseConsumerAdapter<W> {
    writer: W,
}

impl<W> ResponseConsumerAdapter<W> {
    /// The body of the response.
    pub closed spec fn spec_writer(&self) -> W {
        self.writer
    }

    /// A consumer that writes to `writer`.
    pub fn new(writer: W) -> (r: Self)
        ensures
            r.spec_writer() == writer,
    {
        ResponseConsumerAdapter { writer }
    }

    /// The body of the response.
    pub fn into_writer(self) -> (r: W)
        ensures
            r == self.spec_writer(),
    {
        self.writer
    }
}

impl<Resp, W: StreamingResponseBodyWriter<Outgoing<Resp>>> PushStreamConsumer<
    Resp,
> for ResponseConsumerAdapter<W> {
    open spec fn inv(&self) -> bool {
        self.spec_writer().inv()
    }

    open spec fn admits(&self, item: Resp) -> bool {
        true
    }

    open spec fn consumed(pre: Self, item: Resp, post: Self, r: Result<(), Status>) -> bool {
        W::written(
            pre.spec_writer(),
            Outgoing { message: item, options: None },
            post.spec_writer(),
            r,
        )
    }

    fn write(&mut self, item: Resp) -> (r: Result<(), Status>) {
        self.writer.write(Outgoing::new(item))
    }
}

/// Whether metadata has no entries.
pub open spec fn is_empty(metadata: Metadata) -> bool {
    headers(metadata.inner) == no_headers()
}

/// Whether sending empty initial metadata may end in this way.
pub open spec fn begun<T, W: StreamingResponseWriter<T>>(
    writer: W,
    r: Result<W::BodyWriter, NotSent<W>>,
) -> bool {
    exists|metadata: Metadata|
        is_empty(metadata) && #[trigger] writer.initiated(metadata, r)
}

/// Whether a call that sends empty trailing metadata may end in this way.
pub open spec fn finished<T, W: StreamingResponseWriter<T>>(
    writer: W::BodyWriter,
    r: Outcome<W, W::BodyWriter>,
) -> bool {
    exists|metadata: Metadata, sent: Result<(), NotSent<W::BodyWriter>>|
        is_empty(metadata) && #[trigger] writer.trailed(metadata, sent) && ended(sent, r)
}

/// Whether the requests of a method may have been run in this way: each lazy message that the
/// producer writes is read into a message of its own.
pub open spec fn requests_ran<Req: Default, L: Lazy<Req>, P: PushStreamProducer<L>>(
    producer: P,
    ran: Ran<Req>,
) -> bool {
    ran matches Some((writes, r)) ==> exists|before: Seq<Write<L>>, f: ResolveLazy<Req>| #[trigger]
        producer.produces(before, r) && #[trigger] mapped_writes(f, before, writes)
}

/// The handler of a bidirectional-streaming method: it sends empty initial metadata, calls the
/// method, and sends empty trailing metadata.
pub struct BidiStreamingAdapter<T>(pub T);

impl<
    T: BidiStreamingMethod<Req, Resp>,
    Req: Default,
    Resp,
    L: Lazy<Req>,
    P: PushStreamProducer<L>,
    W: StreamingResponseWriter<Outgoing<Resp>>,
> MessageStreamHandler<Req, Resp, L, P, W> for BidiStreamingAdapter<T> {
    open spec fn called(
        &self,
        options: HandlerCallOptions,
        req: StreamingRequest<L, P>,
        writer: W,
        r: Outcome<W, W::BodyWriter>,
    ) -> bool {
        exists|first: Result<W::BodyWriter, NotSent<W>>|
            {
                &&& #[trigger] begun(writer, first)
                &&& match first {
                    Err(e) => failed(r, e.status, unbegun(e.writer)),
                    Ok(body) => exists|
                        ran: Ran<Req>,
                        writes: Seq<Write<Resp>>,
                        res: Result<(), ServerStatus>,
                        pre: ResponseConsumerAdapter<W::BodyWriter>,
                        post: ResponseConsumerAdapter<W::BodyWriter>,
                    |
                        {
                            &&& #[trigger] self.0.called(ran, writes, res)
                            &&& requests_ran(req.spec_stream().spec_producer(), ran)
                            &&& pre.spec_writer() == body
                            &&& #[trigger] consumed_all(pre, writes, post)
                            &&& match res {
                                Ok(_) => finished::<Outgoing<Resp>, W>(post.spec_writer(), r),
                                Err(s) => failed(
                                    r,
                                    s.spec_status(),
                                    Left::Body(post.spec_writer()),
                                ),
                            }
                        },
                }
            }
    }

    fn call(
        &self,
        options: HandlerCallOptions,
        req: StreamingRequest<L, P>,
        writer: W,
    ) -> (r: Outcome<W, W::BodyWriter>) {
        let empty = Metadata::default();
        let first = writer.send_initial_metadata(empty);
        assert(writer.initiated(empty, first));
        assert(begun(writer, first));
        let body_writer = match first {
            Ok(w) => w,
            Err(e) => {
                return not_begun(e);
            },
        };
        let (_, stream) = req.into_parts();
        let ghost producer = stream.spec_producer();
        let f: ResolveLazy<Req> = ResolveLazy::new();
        let req_stream = stream.map_items(f);
        let adapter = ResponseConsumerAdapter::new(body_writer);
        let stream_writer = PushStreamWriter::new(adapter);
        let (res, stream_writer_back) = self.0.bidi_streaming(req_stream, stream_writer);
        let adapter_back = stream_writer_back.into_consumer();
        proof {
            let (ran, writes) = choose|ran: Ran<Req>, writes: Seq<Write<Resp>>| #[trigger]
                self.0.called(ran, writes, res) && may_have_run(req_stream.spec_producer(), ran)
                    && consumed_all(adapter, writes, adapter_back);
            if let Some((made, rr)) = ran {
                assert(req_stream.spec_producer().produces(made, rr));
                let before = choose|before: Seq<Write<L>>| #[trigger]
                    req_stream.spec_producer().spec_inner().produces(before, rr) && mapped_writes(
                        req_stream.spec_producer().spec_f(),
                        before,
                        made,
                    );
                assert(producer.produces(before, rr));
                assert(mapped_writes(f, before, made));
            }
            assert(requests_ran(producer, ran));
            assert(self.0.called(ran, writes, res));
            assert(consumed_all(adapter, writes, adapter_back));
        }
        let body_back = adapter_back.into_writer();
        match res {
            Ok(()) => {
                let last = Metadata::default();
                let sent = body_back.send_trailing_metadata(last);
                assert(body_back.trailed(last, sent));
                let r = ended_by(sent);
                assert(finished::<Outgoing<Resp>, W>(body_back, r));
                r
            },
            Err(s) => (Err(s.into_status()), Left::Body(body_back)),
        }
    }
}


/// Each request is read into a message of its own: where reading one into a new message always
/// gives this, it is what the method sees.
pub proof fn law_requests_are_read_anew<Req: Default, L: Lazy<Req>>(
    lazy: L,
    r: Result<Req, Status>,
    read: Result<Req, Status>,
)
    requires
        read_anew(lazy, r),
        forall|pre: Req, post: Req, res: Result<(), Status>| #[trigger]
            lazy.resolved(pre, post, res) && call_ensures(Req::default, (), pre) ==> match read {
                Ok(m) => res is Ok && post == m,
                Err(e) => res == Err::<(), Status>(e),
            },
    ensures
        r == read,
{
}

/// The responses of a method are written to the body as they are, without options, and the method
/// gets the body's answers.
pub proof fn law_responses_are_written<Resp, W: StreamingResponseBodyWriter<Outgoing<Resp>>>(
    pre: ResponseConsumerAdapter<W>,
    item: Resp,
    post: ResponseConsumerAdapter<W>,
    r: Result<(), Status>,
    seen: spec_fn(Outgoing<Resp>, Result<(), Status>) -> bool,
)
    requires
        <ResponseConsumerAdapter<W> as PushStreamConsumer<Resp>>::consumed(pre, item, post, r),
        forall|a: W, o: Outgoing<Resp>, b: W, x: Result<(), Status>| #[trigger]
            W::written(a, o, b, x) ==> seen(o, x),
    ensures
        exists|o: Outgoing<Resp>| #[trigger] seen(o, r) && o.message == item && o.options is None,
{
    let o = Outgoing { message: item, options: None };
    assert(W::written(pre.spec_writer(), o, post.spec_writer(), r));
    assert(seen(o, r));
}

/// The result of the method is that of the call: where the response can be begun, a method that
/// ends with an error ends the call with that error, before the trailing metadata, and one that
/// succeeds ends it well once the trailing metadata is sent.
pub proof fn law_bidi_method_decides<
    T: BidiStreamingMethod<Req, Resp>,
    Req: Default,
    Resp,
    L: Lazy<Req>,
    P: PushStreamProducer<L>,
    W: StreamingResponseWriter<Outgoing<Resp>>,
>(
    adapter: BidiStreamingAdapter<T>,
    options: HandlerCallOptions,
    req: StreamingRequest<L, P>,
    writer: W,
    r: Outcome<W, W::BodyWriter>,
    ending: Result<(), Status>,
)
    requires
        <BidiStreamingAdapter<T> as MessageStreamHandler<Req, Resp, L, P, W>>::called(
            &adapter,
            options,
            req,
            writer,
            r,
        ),
        forall|metadata: Metadata, first: Result<W::BodyWriter, NotSent<W>>| #[trigger]
            writer.initiated(metadata, first) ==> first is Ok,
        forall|ran: Ran<Req>, writes: Seq<Write<Resp>>, res: Result<(), ServerStatus>| #[trigger]
            adapter.0.called(ran, writes, res) ==> match ending {
                Ok(_) => res is Ok,
                Err(e) => res matches Err(s) && s.spec_status() == e,
            },
        forall|
            body: W::BodyWriter,
            metadata: Metadata,
            sent: Result<(), NotSent<W::BodyWriter>>,
        | #[trigger]
            body.trailed(metadata, sent) ==> sent is Ok,
    ensures
        ending is Ok ==> r.0 is Ok && r.1 is Nothing,
        ending matches Err(e) ==> r.0 == Err::<(), Status>(e) && r.1 is Body,
{
}

/// A response that cannot be begun ends the call at once, for the reason that the writer gives.
pub proof fn law_unbegun_response_ends_call<
    T: BidiStreamingMethod<Req, Resp>,
    Req: Default,
    Resp,
    L: Lazy<Req>,
    P: PushStreamProducer<L>,
    W: StreamingResponseWriter<Outgoing<Resp>>,
>(
    adapter: BidiStreamingAdapter<T>,
    options: HandlerCallOptions,
    req: StreamingRequest<L, P>,
    writer: W,
    r: Outcome<W, W::BodyWriter>,
    reason: NotSent<W>,
)
    requires
        <BidiStreamingAdapter<T> as MessageStreamHandler<Req, Resp, L, P, W>>::called(
            &adapter,
            options,
            req,
            writer,
            r,
        ),
        forall|metadata: Metadata, first: Result<W::BodyWriter, NotSent<W>>| #[trigger]
            writer.initiated(metadata, first) ==> first == Err::<W::BodyWriter, NotSent<W>>(reason),
    ensures
        r.0 == Err::<(), Status>(reason.status),
        reason.writer matches Some(w) ==> r.1 == Left::<W, W::BodyWriter>::Response(w),
        reason.writer is None ==> r.1 is Nothing,
{
}


/// Trailing metadata that cannot be sent makes a call fail that would have succeeded, for the
/// reason that the writer gives.
pub proof fn law_unfinished_response_fails<T, W: StreamingResponseWriter<T>>(
    body: W::BodyWriter,
    r: Outcome<W, W::BodyWriter>,
    reason: NotSent<W::BodyWriter>,
)
    requires
        finished::<T, W>(body, r),
        forall|metadata: Metadata, sent: Result<(), NotSent<W::BodyWriter>>| #[trigger]
            body.trailed(metadata, sent) ==> sent == Err::<(), NotSent<W::BodyWriter>>(reason),
    ensures
        r.0 == Err::<(), Status>(reason.status),
        reason.writer matches Some(w) ==> r.1 == Left::<W, W::BodyWriter>::Body(w),
        reason.writer is None ==> r.1 is Nothing,
{
}


/// What a method writes goes to the body of the response that was begun: where the method always
/// makes these writes and ends with an error, the body that is left is the one that they were made
/// to, after them.
pub proof fn law_bidi_writes_reach_the_body<
    T: BidiStreamingMethod<Req, Resp>,
    Req: Default,
    Resp,
    L: Lazy<Req>,
    P: PushStreamProducer<L>,
    W: StreamingResponseWriter<Outgoing<Resp>>,
>(
    adapter: BidiStreamingAdapter<T>,
    options: HandlerCallOptions,
    req: StreamingRequest<L, P>,
    writer: W,
    r: Outcome<W, W::BodyWriter>,
    body: W::BodyWriter,
    made: Seq<Write<Resp>>,
)
    requires
        <BidiStreamingAdapter<T> as MessageStreamHandler<Req, Resp, L, P, W>>::called(
            &adapter,
            options,
            req,
            writer,
            r,
        ),
        forall|metadata: Metadata, first: Result<W::BodyWriter, NotSent<W>>| #[trigger]
            writer.initiated(metadata, first) ==> first == Ok::<W::BodyWriter, NotSent<W>>(body),
        forall|ran: Ran<Req>, writes: Seq<Write<Resp>>, res: Result<(), ServerStatus>| #[trigger]
            adapter.0.called(ran, writes, res) ==> writes == made && res is Err,
    ensures
        exists|
            pre: ResponseConsumerAdapter<W::BodyWriter>,
            post: ResponseConsumerAdapter<W::BodyWriter>,
        |
            {
                &&& #[trigger] consumed_all(pre, made, post)
                &&& pre.spec_writer() == body
                &&& r.1 == Left::<W, W::BodyWriter>::Body(post.spec_writer())
            },
{
}

/// The metadata with which a response is begun and finished has no entries.
pub proof fn law_sent_metadata_is_empty<T, W: StreamingResponseWriter<T>>(
    writer: W,
    first: Result<W::BodyWriter, NotSent<W>>,
    body: W::BodyWriter,
    r: Outcome<W, W::BodyWriter>,
    seen: spec_fn(Metadata) -> bool,
    seen_last: spec_fn(Metadata) -> bool,
)
    requires
        begun(writer, first),
        finished::<T, W>(body, r),
        forall|m: Metadata, f: Result<W::BodyWriter, NotSent<W>>| #[trigger]
            writer.initiated(m, f) ==> seen(m),
        forall|m: Metadata, sent: Result<(), NotSent<W::BodyWriter>>| #[trigger]
            body.trailed(m, sent) ==> seen_last(m),
    ensures
        exists|m: Metadata| #[trigger]
            seen(m) && forall|name: Seq<char>| #[trigger]
                values_of(headers(m.inner), name).len() == 0,
        exists|m: Metadata| #[trigger]
            seen_last(m) && forall|name: Seq<char>| #[trigger]
                values_of(headers(m.inner), name).len() == 0,
{
    let m = choose|m: Metadata| is_empty(m) && #[trigger] writer.initiated(m, first);
    assert(seen(m));
    let (n, sent) = choose|n: Metadata, sent: Result<(), NotSent<W::BodyWriter>>|
        is_empty(n) && #[trigger] body.trailed(n, sent) && ended(sent, r);
    assert(seen_last(n));
}

} // verus!
