//! Reading of a body: its messages, and the status and metadata of its trailers.

use super::body::{data_of, FrameEvent, FrameSource};
use super::buffer::BufList;
use super::decoder::HyperBodyDecoder;
use super::encoder::{law_status_and_metadata_are_told, status_over};
use super::response::lemma_names;
use super::status::{infer_grpc_status_from_http_status, inferred_status};
use crate::buf::{contents, Buf};
use crate::codec::lpm::{
    after_first, announced_len, first_message, frame_of, frames_of, has_frame,
    lemma_frame_round_trip, LpmMessage,
};
use crate::headers::{header_remove, header_text, headers, is_visible, no_headers, values_of};
use crate::server::call::message_wrapper::{Incoming, MessageReadOptions};
use crate::server::call::metadata::Metadata;
use crate::server::call::streaming_response_writer::{NotSent, StreamingResponseBodyWriter};
use crate::server::stream::{
    consumed_all, PushStreamConsumer, PushStreamProducer, PushStreamWriter, Write,
};
use crate::status::{Status, StatusCode, StatusView};
use crate::text::{parse_i32, signed_value};
use bytes::Bytes;
use http::header::HeaderValue;
use http::HeaderMap;
use vstd::prelude::*;
use vstd::utf8::{decode_utf8, encode_utf8};

verus! {

/// Whether bytes are a number that fits in 32 bits.
pub open spec fn is_number(b: Seq<u8>) -> bool {
    is_visible(b) && (signed_value(b) matches Some(n) && i32::MIN <= n <= i32::MAX)
}

/// What is wrong with the status in trailers, if anything.
pub open spec fn trailers_error(m: Map<Seq<char>, Seq<Seq<u8>>>) -> Option<StatusView> {
    let codes = values_of(m, "grpc-status"@);
    let messages = values_of(m, "grpc-message"@);
    if codes.len() == 0 {
        None
    } else if !is_number(codes[0]) {
        Some(
            StatusView { code: StatusCode::Internal, message: "Invalid grpc-status header value"@ },
        )
    } else if messages.len() > 0 && !is_visible(messages[0]) {
        Some(
            StatusView {
                code: StatusCode::Internal,
                message: "Invalid grpc-message header value"@,
            },
        )
    } else {
        None
    }
}

/// The status in trailers, where there is one.
pub open spec fn trailers_status(m: Map<Seq<char>, Seq<Seq<u8>>>) -> Option<StatusView> {
    let codes = values_of(m, "grpc-status"@);
    let messages = values_of(m, "grpc-message"@);
    if codes.len() == 0 {
        None
    } else {
        Some(
            StatusView {
                code: inferred_status(signed_value(codes[0])->Some_0),
                message: if messages.len() > 0 {
                    decode_utf8(messages[0])
                } else {
                    Seq::empty()
                },
            },
        )
    }
}

/// The metadata in trailers: all headers but those of the status, where there is one.
pub open spec fn trailers_metadata(m: Map<Seq<char>, Seq<Seq<u8>>>) -> Map<
    Seq<char>,
    Seq<Seq<u8>>,
> {
    if values_of(m, "grpc-status"@).len() == 0 {
        m.remove("grpc-status"@)
    } else {
        m.remove("grpc-status"@).remove("grpc-message"@)
    }
}

/// What an optional status says.
pub open spec fn optional_view(status: Option<Status>) -> Option<StatusView> {
    match status {
        Some(s) => Some(s@),
        None => None,
    }
}

/// Takes the status out of trailers. What is left is metadata.
pub fn extract_status_and_trailers(trailers: HeaderMap<HeaderValue>) -> (r: Result<
    (Option<Status>, Metadata),
    Status,
>)
    ensures
        match trailers_error(headers(trailers)) {
            Some(e) => r matches Err(err) && err@ == e,
            None => {
                &&& r is Ok
                &&& optional_view(r->Ok_0.0) == trailers_status(headers(trailers))
                &&& headers(r->Ok_0.1.inner) == trailers_metadata(headers(trailers))
            },
        },
{
    let ghost all = headers(trailers);
    let mut trailers = trailers;
    proof {
        lemma_names();
    }
    match header_remove(&mut trailers, "grpc-status") {
        Some(s) => {
            let code: i32 = match header_text(&s) {
                Some(text) => match parse_i32(text.as_bytes()) {
                    Some(n) => n,
                    None => {
                        return Err(
                            Status::new(
                                StatusCode::Internal,
                                "Invalid grpc-status header value",
                            ),
                        );
                    },
                },
                None => {
                    return Err(
                        Status::new(StatusCode::Internal, "Invalid grpc-status header value"),
                    );
                },
            };
            let code: StatusCode = infer_grpc_status_from_http_status(code);
            assert(values_of(headers(trailers), "grpc-message"@) == values_of(
                all,
                "grpc-message"@,
            ));
            match header_remove(&mut trailers, "grpc-message") {
                Some(m) => match header_text(&m) {
                    Some(text) => {
                        proof {
                            vstd::utf8::encode_utf8_decode_utf8(text@);
                        }
                        Ok((Some(Status::new(code, text)), Metadata::new(trailers)))
                    },
                    None => Err(
                        Status::new(StatusCode::Internal, "Invalid grpc-message header value"),
                    ),
                },
                None => {
                    let none = String::new();
                    assert(none@ =~= Seq::<char>::empty());
                    Ok((Some(Status::with_text(code, none)), Metadata::new(trailers)))
                },
            }
        },
        None => Ok((None, Metadata::new(trailers))),
    }
}

/// A message of a body.
pub type BodyMessage = Incoming<BufList<Bytes>>;

/// Whether this is a message as it was framed.
pub open spec fn is_message(msg: BodyMessage, m: LpmMessage) -> bool {
    &&& msg.message_bytes.inv()
    &&& msg.message_bytes.bytes() == m.payload
    &&& msg.options == Some(MessageReadOptions { compressed: m.compressed })
}

/// How the reading of a body ends.
pub enum BodyEnd {
    /// A message could not be written, for this reason.
    Refused(Status),
    /// The body failed, or is not what it should be.
    Failed(StatusView),
    /// The body has come to its end, with trailing metadata and, where there is one, a status.
    Finished(Map<Seq<char>, Seq<Seq<u8>>>, Option<StatusView>),
}

/// The status of a body that ends inside a message.
pub open spec fn partial_message() -> StatusView {
    StatusView { code: StatusCode::Internal, message: "Partial gRPC message"@ }
}

/// How the reading of a body ends at its last frame, or behind it.
pub open spec fn end_of(bytes: Seq<u8>, last: Option<FrameEvent>) -> BodyEnd {
    match last {
        Some(FrameEvent::Trailers(map)) => match trailers_error(headers(map)) {
            Some(e) => BodyEnd::Failed(e),
            None => BodyEnd::Finished(
                trailers_metadata(headers(map)),
                trailers_status(headers(map)),
            ),
        },
        Some(FrameEvent::Failed(reason)) => BodyEnd::Failed(
            StatusView { code: StatusCode::Internal, message: reason@ },
        ),
        _ => if bytes.len() > 0 {
            BodyEnd::Failed(partial_message())
        } else {
            BodyEnd::Finished(no_headers(), None)
        },
    }
}

/// Whether a body, of which `bytes` were read and not handed out and `frames` are left, is handed
/// out by these writes and ends in this way: the messages come in their order, each as soon as it
/// is complete, and all of them before the next frame is asked for. A message that is refused ends
/// the reading.
pub open spec fn handed_out(
    bytes: Seq<u8>,
    frames: Seq<FrameEvent>,
    writes: Seq<Write<BodyMessage>>,
    end: BodyEnd,
) -> bool
    decreases frames.len(), bytes.len(),
{
    if has_frame(bytes) {
        &&& writes.len() > 0
        &&& is_message(writes[0].0, first_message(bytes))
        &&& match writes[0].1 {
            Ok(_) => handed_out(after_first(bytes), frames, writes.skip(1), end),
            Err(e) => writes.len() == 1 && end == BodyEnd::Refused(e),
        }
    } else if frames.len() == 0 {
        writes.len() == 0 && end == end_of(bytes, None)
    } else {
        match frames[0] {
            FrameEvent::Data(data) => handed_out(
                bytes + contents(data),
                frames.skip(1),
                writes,
                end,
            ),
            FrameEvent::Other => handed_out(bytes, frames.skip(1), writes, end),
            last => writes.len() == 0 && end == end_of(bytes, Some(last)),
        }
    }
}

/// Whether what is gathered of a body never exceeds what can be counted.
pub open spec fn has_room(bytes: Seq<u8>, frames: Seq<FrameEvent>) -> bool
    decreases frames.len(), bytes.len(),
{
    if has_frame(bytes) {
        has_room(after_first(bytes), frames)
    } else if frames.len() == 0 {
        true
    } else {
        match frames[0] {
            FrameEvent::Data(data) => bytes.len() + contents(data).len() <= usize::MAX && has_room(
                bytes + contents(data),
                frames.skip(1),
            ),
            FrameEvent::Other => has_room(bytes, frames.skip(1)),
            _ => true,
        }
    }
}

/// The result of reading a body, where its end is all that decides.
pub open spec fn is_result(end: BodyEnd, r: Result<(), Status>) -> bool {
    match end {
        BodyEnd::Refused(e) => r == Err::<(), Status>(e),
        BodyEnd::Failed(s) => r matches Err(e) && e@ == s,
        BodyEnd::Finished(_, Some(s)) => if s.code == StatusCode::OK {
            r is Ok
        } else {
            r matches Err(e) && e@ == s
        },
        BodyEnd::Finished(_, None) => r is Ok,
    }
}

/// Whether writes may turn the writer `pre` into `post`.
pub open spec fn written_all<T, W: StreamingResponseBodyWriter<T>>(
    pre: W,
    writes: Seq<Write<T>>,
    post: W,
) -> bool
    decreases writes.len(),
{
    if writes.len() == 0 {
        pre == post
    } else {
        exists|mid: W|
            written_all(pre, writes.drop_last(), mid) && #[trigger] W::written(
                mid,
                writes.last().0,
                post,
                writes.last().1,
            )
    }
}

/// What is gathered and what is left once the frames in front of the next complete message, or of
/// the end, were read.
pub open spec fn read_on(bytes: Seq<u8>, frames: Seq<FrameEvent>) -> (Seq<u8>, Seq<FrameEvent>)
    decreases frames.len(),
{
    if has_frame(bytes) || frames.len() == 0 {
        (bytes, frames)
    } else {
        match frames[0] {
            FrameEvent::Data(data) => read_on(bytes + contents(data), frames.skip(1)),
            FrameEvent::Other => read_on(bytes, frames.skip(1)),
            _ => (bytes, frames),
        }
    }
}

/// The first of the frames that are left, if any.
pub open spec fn first_of(frames: Seq<FrameEvent>) -> Option<FrameEvent> {
    if frames.len() > 0 {
        Some(frames[0])
    } else {
        None
    }
}

/// Reading on does not change how a body is handed out.
proof fn lemma_read_on(
    bytes: Seq<u8>,
    frames: Seq<FrameEvent>,
    writes: Seq<Write<BodyMessage>>,
    end: BodyEnd,
)
    ensures
        handed_out(bytes, frames, writes, end) == handed_out(
            read_on(bytes, frames).0,
            read_on(bytes, frames).1,
            writes,
            end,
        ),
    decreases frames.len(),
{
    if !has_frame(bytes) && frames.len() > 0 {
        match frames[0] {
            FrameEvent::Data(data) => {
                lemma_read_on(bytes + contents(data), frames.skip(1), writes, end);
            },
            FrameEvent::Other => {
                lemma_read_on(bytes, frames.skip(1), writes, end);
            },
            _ => {},
        }
    }
}

/// Reading on leaves fewer frames, or all as it is.
proof fn lemma_read_on_shrinks(bytes: Seq<u8>, frames: Seq<FrameEvent>)
    ensures
        read_on(bytes, frames).1.len() < frames.len() || read_on(bytes, frames) == (bytes, frames),
    decreases frames.len(),
{
    if !has_frame(bytes) && frames.len() > 0 {
        match frames[0] {
            FrameEvent::Data(data) => {
                lemma_read_on_shrinks(bytes + contents(data), frames.skip(1));
            },
            FrameEvent::Other => {
                lemma_read_on_shrinks(bytes, frames.skip(1));
            },
            _ => {},
        }
    }
}

/// Whether what is left of a body, handed out behind the writes that are done, is the whole body
/// handed out.
spec fn continues(
    bytes: Seq<u8>,
    frames: Seq<FrameEvent>,
    done: Seq<Write<BodyMessage>>,
    bytes_left: Seq<u8>,
    frames_left: Seq<FrameEvent>,
) -> bool {
    forall|rest: Seq<Write<BodyMessage>>, end: BodyEnd| #[trigger]
        handed_out(bytes_left, frames_left, rest, end) ==> handed_out(
            bytes,
            frames,
            done + rest,
            end,
        )
}

/// A message is written.
proof fn lemma_one_more(
    bytes: Seq<u8>,
    frames: Seq<FrameEvent>,
    done: Seq<Write<BodyMessage>>,
    bytes_left: Seq<u8>,
    frames_left: Seq<FrameEvent>,
    write: Write<BodyMessage>,
)
    requires
        continues(bytes, frames, done, bytes_left, frames_left),
        ({
            let (b, f) = read_on(bytes_left, frames_left);
            has_frame(b) && is_message(write.0, first_message(b))
        }),
    ensures
        write.1 is Ok ==> continues(
            bytes,
            frames,
            done.push(write),
            after_first(read_on(bytes_left, frames_left).0),
            read_on(bytes_left, frames_left).1,
        ),
        write.1 matches Err(e) ==> handed_out(
            bytes,
            frames,
            done.push(write),
            BodyEnd::Refused(e),
        ),
{
    let (b, f) = read_on(bytes_left, frames_left);
    if write.1 is Ok {
        assert forall|rest: Seq<Write<BodyMessage>>, end: BodyEnd| #[trigger]
            handed_out(after_first(b), f, rest, end) implies handed_out(
            bytes,
            frames,
            done.push(write) + rest,
            end,
        ) by {
            let more = seq![write] + rest;
            assert(more.skip(1) =~= rest);
            assert(handed_out(b, f, more, end));
            lemma_read_on(bytes_left, frames_left, more, end);
            assert(done + more =~= done.push(write) + rest);
        }
    } else {
        let e = write.1->Err_0;
        let more = seq![write];
        assert(handed_out(b, f, more, BodyEnd::Refused(e)));
        lemma_read_on(bytes_left, frames_left, more, BodyEnd::Refused(e));
        assert(done + more =~= done.push(write));
    }
}

/// The body is over.
proof fn lemma_no_more(
    bytes: Seq<u8>,
    frames: Seq<FrameEvent>,
    done: Seq<Write<BodyMessage>>,
    bytes_left: Seq<u8>,
    frames_left: Seq<FrameEvent>,
)
    requires
        continues(bytes, frames, done, bytes_left, frames_left),
        !has_frame(read_on(bytes_left, frames_left).0),
    ensures
        ({
            let (b, f) = read_on(bytes_left, frames_left);
            handed_out(bytes, frames, done, end_of(b, first_of(f)))
        }),
{
    let (b, f) = read_on(bytes_left, frames_left);
    let none = Seq::<Write<BodyMessage>>::empty();
    let end = end_of(b, first_of(f));
    lemma_stops(bytes_left, frames_left);
    assert(handed_out(b, f, none, end));
    lemma_read_on(bytes_left, frames_left, none, end);
    assert(done + none =~= done);
}

/// Where reading on gives no message, it stops at the end or at a frame that ends the body.
proof fn lemma_stops(bytes: Seq<u8>, frames: Seq<FrameEvent>)
    ensures
        ({
            let (b, f) = read_on(bytes, frames);
            has_frame(b) || f.len() == 0 || f[0] is Trailers || f[0] is Failed
        }),
    decreases frames.len(),
{
    if !has_frame(bytes) && frames.len() > 0 {
        match frames[0] {
            FrameEvent::Data(data) => {
                lemma_stops(bytes + contents(data), frames.skip(1));
            },
            FrameEvent::Other => {
                lemma_stops(bytes, frames.skip(1));
            },
            _ => {},
        }
    }
}

/// Why the reading of a body stops.
pub enum BodyStop {
    /// The body failed, or is not what it should be.
    Failed(Status),
    /// The body has come to its end, with trailing metadata and, where there is one, a status.
    Finished(Metadata, Option<Status>),
}

/// How the reading of a body ends where it stops for this reason.
pub open spec fn end_at(stop: BodyStop) -> BodyEnd {
    match stop {
        BodyStop::Failed(e) => BodyEnd::Failed(e@),
        BodyStop::Finished(metadata, status) => BodyEnd::Finished(
            headers(metadata.inner),
            optional_view(status),
        ),
    }
}

/// What comes next in a body.
pub enum BodyNext {
    /// A message.
    Message(BodyMessage),
    /// The end.
    Stop(BodyStop),
}

/// The result for a status with which a body ended.
fn status_result(status: Option<Status>) -> (r: Result<(), Status>)
    ensures
        forall|m: Map<Seq<char>, Seq<Seq<u8>>>|
            #[trigger] is_result(BodyEnd::Finished(m, optional_view(status)), r),
{
    match status {
        Some(s) => if s.code() != StatusCode::OK {
            Err(s)
        } else {
            Ok(())
        },
        None => Ok(()),
    }
}

/// Reads a body and produces its messages.
pub struct HyperStreamProducer<B> {
    body: B,
    decoder: HyperBodyDecoder,
}

impl<B: FrameSource> HyperStreamProducer<B> {
    /// The bytes that were read and not yet handed out.
    pub closed spec fn bytes(&self) -> Seq<u8> {
        self.decoder.bytes()
    }

    /// The frames that are left.
    pub closed spec fn frames(&self) -> Seq<FrameEvent> {
        self.body.frames()
    }

    /// Whether the parts of the producer are in a usable state.
    pub closed spec fn wf(&self) -> bool {
        self.decoder.inv() && self.body.inv()
    }

    /// A producer that has read nothing of a body.
    pub fn new(body: B) -> (r: Self)
        requires
            body.inv(),
        ensures
            r.wf(),
            r.bytes() == Seq::<u8>::empty(),
            r.frames() == body.frames(),
    {
        HyperStreamProducer { body, decoder: HyperBodyDecoder::new() }
    }

    /// Reads the body up to its next message, or to its end.
    pub fn next_message(&mut self) -> (r: BodyNext)
        requires
            old(self).wf(),
            has_room(old(self).bytes(), old(self).frames()),
        ensures
            final(self).wf(),
            ({
                let (b, f) = read_on(old(self).bytes(), old(self).frames());
                if has_frame(b) {
                    &&& r matches BodyNext::Message(msg)
                    &&& is_message(r->Message_0, first_message(b))
                    &&& final(self).bytes() == after_first(b)
                    &&& final(self).frames() == f
                    &&& has_room(final(self).bytes(), final(self).frames())
                } else {
                    r matches BodyNext::Stop(stop) && end_at(stop) == end_of(b, first_of(f))
                }
            }),
    {
        let ghost bytes = self.bytes();
        let ghost frames = self.frames();
        loop
            invariant
                self.wf(),
                has_room(self.bytes(), self.frames()),
                read_on(self.bytes(), self.frames()) == read_on(bytes, frames),
                bytes == old(self).bytes(),
                frames == old(self).frames(),
            decreases self.frames().len(),
        {
            if let Some(msg) = self.decoder.decode() {
                return BodyNext::Message(msg);
            }
            match self.body.next_frame() {
                Some(FrameEvent::Data(data)) => {
                    self.decoder.push(data);
                },
                Some(FrameEvent::Other) => {},
                Some(FrameEvent::Trailers(map)) => {
                    return BodyNext::Stop(
                        match extract_status_and_trailers(map) {
                            Ok((status, metadata)) => BodyStop::Finished(metadata, status),
                            Err(e) => BodyStop::Failed(e),
                        },
                    );
                },
                Some(FrameEvent::Failed(reason)) => {
                    return BodyNext::Stop(
                        BodyStop::Failed(Status::with_text(StatusCode::Internal, reason)),
                    );
                },
                None => {
                    if self.decoder.buffer_len() > 0 {
                        return BodyNext::Stop(
                            BodyStop::Failed(
                                Status::new(StatusCode::Internal, "Partial gRPC message"),
                            ),
                        );
                    }
                    return BodyNext::Stop(BodyStop::Finished(Metadata::default(), None));
                },
            }
        }
    }

    /// Writes the messages of the body to a writer and then sends the trailing metadata, which is
    /// empty if the body has no trailers. The writer is given back where no trailing metadata was
    /// sent by it.
    pub fn produce_to_writer<W: StreamingResponseBodyWriter<BodyMessage>>(
        self,
        writer: W,
    ) -> (r: (Result<(), Status>, Option<W>))
        requires
            self.wf(),
            has_room(self.bytes(), self.frames()),
            writer.inv(),
        ensures
            exists|writes: Seq<Write<BodyMessage>>, end: BodyEnd, post: W|
                {
                    &&& #[trigger] handed_out(self.bytes(), self.frames(), writes, end)
                    &&& #[trigger] written_all(writer, writes, post)
                    &&& match end {
                        BodyEnd::Finished(metadata, _) => trailed_result(post, metadata, end, r),
                        _ => is_result(end, r.0) && r.1 == Some(post),
                    }
                },
    {
        let ghost bytes = self.bytes();
        let ghost frames = self.frames();
        let ghost mut done: Seq<Write<BodyMessage>> = Seq::empty();
        let mut this = self;
        let mut out = writer;
        assert forall|rest: Seq<Write<BodyMessage>>, end: BodyEnd| #[trigger]
            handed_out(bytes, frames, rest, end) implies handed_out(
            bytes,
            frames,
            done + rest,
            end,
        ) by {
            assert(done + rest =~= rest);
        }
        loop
            invariant
                this.wf(),
                out.inv(),
                has_room(this.bytes(), this.frames()),
                continues(bytes, frames, done, this.bytes(), this.frames()),
                written_all(writer, done, out),
                bytes == self.bytes(),
                frames == self.frames(),
            decreases this.frames().len(), this.bytes().len(),
        {
            let ghost bytes_left = this.bytes();
            let ghost frames_left = this.frames();
            proof {
                lemma_read_on_shrinks(bytes_left, frames_left);
            }
            match this.next_message() {
                BodyNext::Message(msg) => {
                    let ghost before = out;
                    let r = out.write(msg);
                    proof {
                        lemma_one_more(bytes, frames, done, bytes_left, frames_left, (msg, r));
                        let prior = done;
                        done = done.push((msg, r));
                        assert(done.drop_last() =~= prior);
                        assert(W::written(before, done.last().0, out, done.last().1));
                    }
                    if let Err(e) = r {
                        assert(handed_out(bytes, frames, done, BodyEnd::Refused(e)));
                        assert(written_all(writer, done, out));
                        return (Err(e), Some(out));
                    }
                },
                BodyNext::Stop(stop) => {
                    proof {
                        lemma_no_more(bytes, frames, done, bytes_left, frames_left);
                        assert(handed_out(bytes, frames, done, end_at(stop)));
                        assert(written_all(writer, done, out));
                    }
                    match stop {
                        BodyStop::Failed(e) => {
                            return (Err(e), Some(out));
                        },
                        BodyStop::Finished(metadata, status) => {
                            let ghost end = end_at(stop);
                            let sent = out.send_trailing_metadata(metadata);
                            assert(out.trailed(metadata, sent));
                            let r: (Result<(), Status>, Option<W>) = match sent {
                                Ok(()) => (status_result(status), None),
                                Err(e) => (Err(e.status), e.writer),
                            };
                            assert(trailed_result(out, headers(metadata.inner), end, r));
                            return r;
                        },
                    }
                },
            }
        }
    }
}

/// The result of reading a body to its end, where trailing metadata is sent then, and the writer,
/// where it was not used for that.
pub open spec fn trailed_result<T, W: StreamingResponseBodyWriter<T>>(
    writer: W,
    metadata: Map<Seq<char>, Seq<Seq<u8>>>,
    end: BodyEnd,
    r: (Result<(), Status>, Option<W>),
) -> bool {
    exists|m: Metadata, sent: Result<(), NotSent<W>>|
        {
            &&& #[trigger] writer.trailed(m, sent)
            &&& headers(m.inner) == metadata
            &&& match sent {
                Ok(_) => is_result(end, r.0) && r.1 is None,
                Err(e) => r.0 == Err::<(), Status>(e.status) && r.1 == e.writer,
            }
        }
}

impl<B: FrameSource> PushStreamProducer<BodyMessage> for HyperStreamProducer<B> {
    open spec fn inv(&self) -> bool {
        self.wf() && has_room(self.bytes(), self.frames())
    }

    open spec fn can_yield(&self, item: BodyMessage) -> bool {
        item.message_bytes.inv()
    }

    open spec fn produces(self, writes: Seq<Write<BodyMessage>>, r: Result<(), Status>) -> bool {
        exists|end: BodyEnd| #[trigger]
            handed_out(self.bytes(), self.frames(), writes, end) && is_result(end, r)
    }

    fn produce<C: PushStreamConsumer<BodyMessage>>(
        self,
        writer: PushStreamWriter<BodyMessage, C>,
    ) -> (r: (Result<(), Status>, PushStreamWriter<BodyMessage, C>)) {
        let ghost bytes = self.bytes();
        let ghost frames = self.frames();
        let ghost mut done: Seq<Write<BodyMessage>> = Seq::empty();
        let mut this = self;
        let mut out = writer;
        assert forall|rest: Seq<Write<BodyMessage>>, end: BodyEnd| #[trigger]
            handed_out(bytes, frames, rest, end) implies handed_out(
            bytes,
            frames,
            done + rest,
            end,
        ) by {
            assert(done + rest =~= rest);
        }
        loop
            invariant
                this.wf(),
                out.spec_consumer().inv(),
                forall|item: BodyMessage| #[trigger]
                    self.can_yield(item) ==> out.spec_consumer().admits(item),
                has_room(this.bytes(), this.frames()),
                continues(bytes, frames, done, this.bytes(), this.frames()),
                consumed_all(writer.spec_consumer(), done, out.spec_consumer()),
                bytes == self.bytes(),
                frames == self.frames(),
            decreases this.frames().len(), this.bytes().len(),
        {
            let ghost bytes_left = this.bytes();
            let ghost frames_left = this.frames();
            proof {
                lemma_read_on_shrinks(bytes_left, frames_left);
            }
            match this.next_message() {
                BodyNext::Message(msg) => {
                    let ghost before = out.spec_consumer();
                    assert(self.can_yield(msg));
                    let r = out.write(msg);
                    proof {
                        lemma_one_more(bytes, frames, done, bytes_left, frames_left, (msg, r));
                        let prior = done;
                        done = done.push((msg, r));
                        assert(done.drop_last() =~= prior);
                        assert(C::consumed(
                            before,
                            done.last().0,
                            out.spec_consumer(),
                            done.last().1,
                        ));
                    }
                    if let Err(e) = r {
                        assert(handed_out(bytes, frames, done, BodyEnd::Refused(e)));
                        let result: (Result<(), Status>, PushStreamWriter<BodyMessage, C>) = (
                            Err(e),
                            out,
                        );
                        assert(self.produces(done, result.0));
                        assert(exists|writes: Seq<Write<BodyMessage>>| #[trigger]
                            self.produces(writes, result.0) && consumed_all(
                                writer.spec_consumer(),
                                writes,
                                result.1.spec_consumer(),
                            ));
                        return result;
                    }
                },
                BodyNext::Stop(stop) => {
                    proof {
                        lemma_no_more(bytes, frames, done, bytes_left, frames_left);
                        assert(handed_out(bytes, frames, done, end_at(stop)));
                    }
                    let r: Result<(), Status> = match stop {
                        BodyStop::Failed(e) => Err(e),
                        BodyStop::Finished(metadata, status) => status_result(status),
                    };
                    assert(is_result(end_at(stop), r));
                    let result = (r, out);
                    assert(self.produces(done, result.0));
                    assert(exists|writes: Seq<Write<BodyMessage>>| #[trigger]
                        self.produces(writes, result.0) && consumed_all(
                            writer.spec_consumer(),
                            writes,
                            result.1.spec_consumer(),
                        ));
                    return result;
                },
            }
        }
    }
}

/// The frame that ends a body, if there is one.
pub open spec fn last_of(frames: Seq<FrameEvent>) -> Option<FrameEvent>
    decreases frames.len(),
{
    if frames.len() == 0 {
        None
    } else {
        match frames[0] {
            FrameEvent::Data(_) => last_of(frames.skip(1)),
            FrameEvent::Other => last_of(frames.skip(1)),
            last => Some(last),
        }
    }
}

/// A complete frame is the same whatever follows it.
proof fn lemma_frame_in_front(bytes: Seq<u8>, more: Seq<u8>)
    requires
        has_frame(bytes),
    ensures
        has_frame(bytes + more),
        first_message(bytes + more) == first_message(bytes),
        after_first(bytes + more) == after_first(bytes) + more,
{
    assert((bytes + more).subrange(1, 5) =~= bytes.subrange(1, 5));
    let end = 5 + announced_len(bytes) as int;
    assert((bytes + more).subrange(5, end) =~= bytes.subrange(5, end));
    assert((bytes + more).skip(end) =~= bytes.skip(end) + more);
}

/// What is left of a body is handed out as it was framed.
proof fn lemma_produced(
    bytes: Seq<u8>,
    frames: Seq<FrameEvent>,
    messages: Seq<LpmMessage>,
    rest: Seq<u8>,
    writes: Seq<Write<BodyMessage>>,
    end: BodyEnd,
)
    requires
        handed_out(bytes, frames, writes, end),
        bytes + data_of(frames) == frames_of(messages) + rest,
        !has_frame(rest),
        forall|i: int|
            0 <= i < messages.len() ==> (#[trigger] messages[i]).payload.len() < 0x1_0000_0000,
        forall|i: int| 0 <= i < writes.len() ==> (#[trigger] writes[i]).1 is Ok,
    ensures
        writes.len() == messages.len(),
        forall|i: int|
            0 <= i < messages.len() ==> is_message((#[trigger] writes[i]).0, messages[i]),
        end == end_of(rest, last_of(frames)),
    decreases frames.len(), bytes.len(),
{
    let tail = messages.skip(1);
    if messages.len() > 0 {
        let m = messages[0];
        lemma_frame_round_trip(m.compressed, m.payload, frames_of(tail) + rest);
        assert(frames_of(messages) + rest =~= frame_of(m.compressed, m.payload) + (frames_of(tail)
            + rest));
        assert forall|i: int| 0 <= i < tail.len() implies (#[trigger] tail[i]).payload.len()
            < 0x1_0000_0000 by {
            assert(tail[i] == messages[i + 1]);
        }
    }
    if has_frame(bytes) {
        lemma_frame_in_front(bytes, data_of(frames));
        let later = writes.skip(1);
        assert(writes[0].1 is Ok);
        assert forall|i: int| 0 <= i < later.len() implies (#[trigger] later[i]).1 is Ok by {
            assert(later[i] == writes[i + 1]);
        }
        if messages.len() == 0 {
            assert(frames_of(messages) + rest =~= rest);
        }
        lemma_produced(after_first(bytes), frames, tail, rest, later, end);
        assert forall|i: int| 0 <= i < messages.len() implies is_message(
            (#[trigger] writes[i]).0,
            messages[i],
        ) by {
            if i > 0 {
                assert(is_message(later[i - 1].0, tail[i - 1]));
            }
        }
    } else if frames.len() == 0 {
        assert(bytes + data_of(frames) =~= bytes);
    } else {
        match frames[0] {
            FrameEvent::Data(data) => {
                assert((bytes + contents(data)) + data_of(frames.skip(1)) =~= bytes + data_of(
                    frames,
                ));
                lemma_produced(bytes + contents(data), frames.skip(1), messages, rest, writes, end);
            },
            FrameEvent::Other => {
                lemma_produced(bytes, frames.skip(1), messages, rest, writes, end);
            },
            _ => {
                assert(bytes + data_of(frames) =~= bytes);
            },
        }
    }
    if messages.len() == 0 {
        assert(frames_of(messages) + rest =~= rest);
    }
}

/// A body is handed out as it was framed: where its data, cut into frames anywhere, holds the
/// frames of `messages` and then no complete one, and every write succeeds, exactly these messages
/// are written, in their order, and the reading ends as the body does. A body that ends behind
/// bytes that are no complete frame fails.
pub proof fn law_producing_undoes_framing(
    frames: Seq<FrameEvent>,
    messages: Seq<LpmMessage>,
    rest: Seq<u8>,
    writes: Seq<Write<BodyMessage>>,
    end: BodyEnd,
)
    requires
        handed_out(Seq::empty(), frames, writes, end),
        data_of(frames) == frames_of(messages) + rest,
        !has_frame(rest),
        forall|i: int|
            0 <= i < messages.len() ==> (#[trigger] messages[i]).payload.len() < 0x1_0000_0000,
        forall|i: int| 0 <= i < writes.len() ==> (#[trigger] writes[i]).1 is Ok,
    ensures
        writes.len() == messages.len(),
        forall|i: int|
            0 <= i < messages.len() ==> is_message((#[trigger] writes[i]).0, messages[i]),
        end == end_of(rest, last_of(frames)),
{
    assert(Seq::<u8>::empty() + data_of(frames) =~= data_of(frames));
    lemma_produced(Seq::empty(), frames, messages, rest, writes, end);
}


/// What is told in trailing headers is read from them again: where the metadata has neither a
/// `grpc-status` nor a `grpc-message` of its own and the message, if there is one, is visible ASCII,
/// the message is that of the status, and the metadata is all there. The code is read as an HTTP
/// status code.
pub proof fn law_told_trailers_are_read(
    status: StatusView,
    metadata: Map<Seq<char>, Seq<Seq<u8>>>,
)
    requires
        values_of(metadata, "grpc-status"@).len() == 0,
        values_of(metadata, "grpc-message"@).len() == 0,
        is_visible(encode_utf8(status.message)),
    ensures
        ({
            let told = status_over(status, metadata);
            &&& trailers_error(told) is None
            &&& trailers_status(told) == Some(
                StatusView {
                    code: inferred_status(status.code.number()),
                    message: status.message,
                },
            )
            &&& forall|name: Seq<char>| #[trigger]
                values_of(trailers_metadata(told), name) == values_of(metadata, name)
        }),
{
    lemma_names();
    let told = status_over(status, metadata);
    law_status_and_metadata_are_told(status, metadata, "path"@);
    crate::text::law_decimal_reads_back(status.code.number() as nat);
    crate::status::law_codes_have_their_numbers(status.code, status.code);
    vstd::utf8::encode_utf8_decode_utf8(status.message);
    let code = encode_utf8(crate::text::decimal(status.code.number() as nat));
    assert(is_visible(code)) by {
        assert forall|i: int| 0 <= i < code.len() implies crate::headers::is_visible_byte(
            #[trigger] code[i],
        ) by {
            assert(48 <= code[i] <= 57);
        }
    }
    if status.message.len() == 0 {
        assert(status.message =~= Seq::<char>::empty());
    }
    assert forall|name: Seq<char>| #[trigger]
        values_of(trailers_metadata(told), name) == values_of(metadata, name) by {
        law_status_and_metadata_are_told(status, metadata, name);
    }
}

/// The metadata of trailers is what stands in them beside the status: nothing is added, nothing
/// else is taken away, and a `grpc-message` without a `grpc-status` is metadata.
pub proof fn law_trailers_keep_metadata(m: Map<Seq<char>, Seq<Seq<u8>>>, name: Seq<char>)
    ensures
        values_of(trailers_metadata(m), "grpc-status"@).len() == 0,
        values_of(m, "grpc-status"@).len() > 0 ==> values_of(
            trailers_metadata(m),
            "grpc-message"@,
        ).len() == 0,
        values_of(m, "grpc-status"@).len() == 0 ==> values_of(
            trailers_metadata(m),
            "grpc-message"@,
        ) == values_of(m, "grpc-message"@),
        name != "grpc-status"@ && name != "grpc-message"@ ==> values_of(
            trailers_metadata(m),
            name,
        ) == values_of(m, name),
{
    lemma_names();
}

/// Trailers with a status are read unless the status is no number of 32 bits, or the message is
/// not visible ASCII; each is an internal error. Trailers without a status are never wrong.
pub proof fn law_trailers_are_read(m: Map<Seq<char>, Seq<Seq<u8>>>)
    ensures
        values_of(m, "grpc-status"@).len() == 0 ==> trailers_error(m) is None && trailers_status(
            m,
        ) is None,
        values_of(m, "grpc-status"@).len() > 0 ==> {
            let code = values_of(m, "grpc-status"@)[0];
            let n = signed_value(code);
            let messages = values_of(m, "grpc-message"@);
            &&& trailers_error(m) is None <==> is_visible(code) && n is Some && -0x8000_0000
                <= n->Some_0 < 0x8000_0000 && (messages.len() > 0 ==> is_visible(messages[0]))
            &&& trailers_error(m) matches Some(e) ==> e.code == StatusCode::Internal
            &&& trailers_status(m) is Some
            &&& trailers_error(m) is None && messages.len() > 0 ==> encode_utf8(
                trailers_status(m)->Some_0.message,
            ) == messages[0]
            &&& messages.len() == 0 ==> trailers_status(m)->Some_0.message.len() == 0
        },
{
    let messages = values_of(m, "grpc-message"@);
    if messages.len() > 0 && is_visible(messages[0]) {
        crate::headers::lemma_visible_is_text(messages[0]);
    }
}

/// A body that ended with an error gives that error: a status other than `OK` in the trailers, a
/// failure of the body, and a message that could not be written are each handed to the caller as
/// they are; only a body without a status, or with `OK`, ends well.
pub proof fn law_end_decides(end: BodyEnd, r: Result<(), Status>)
    requires
        is_result(end, r),
    ensures
        r is Ok <==> (end matches BodyEnd::Finished(_, s) && (s matches Some(t) ==> t.code
            == StatusCode::OK)),
        end matches BodyEnd::Refused(e) ==> r->Err_0 == e,
        end matches BodyEnd::Failed(s) ==> r->Err_0@ == s,
        (end matches BodyEnd::Finished(_, Some(s)) && s.code != StatusCode::OK) ==> r->Err_0@ == (
        end->Finished_1->Some_0),
{
}


/// How a body ends: with trailers, it ends as they tell, whatever bytes are left; a body that fails
/// ends with an internal error that gives the reason; and without either it ends well only where no
/// bytes are left.
pub proof fn law_body_ends(bytes: Seq<u8>, last: Option<FrameEvent>)
    ensures
        last matches Some(FrameEvent::Trailers(map)) ==> {
            let m = headers(map);
            &&& trailers_error(m) matches Some(e) ==> end_of(bytes, last) == BodyEnd::Failed(e)
            &&& trailers_error(m) is None ==> end_of(bytes, last) is Finished && end_of(
                bytes,
                last,
            )->Finished_0 == trailers_metadata(m) && end_of(bytes, last)->Finished_1
                == trailers_status(m)
        },
        last matches Some(FrameEvent::Failed(reason)) ==> end_of(bytes, last) is Failed && end_of(
            bytes,
            last,
        )->Failed_0.code == StatusCode::Internal && end_of(bytes, last)->Failed_0.message
            == reason@,
        last is None && bytes.len() > 0 ==> end_of(bytes, last) is Failed && end_of(
            bytes,
            last,
        )->Failed_0.code == StatusCode::Internal,
        last is None && bytes.len() == 0 ==> end_of(bytes, last) is Finished && end_of(
            bytes,
            last,
        )->Finished_1 is None && forall|name: Seq<char>| #[trigger]
            values_of(end_of(bytes, last)->Finished_0, name).len() == 0,
{
}

/// The trailing metadata of a body is sent on as it is: where it can be sent, the result is that of
/// the body and the writer is used up; where it cannot, the result is the reason for that, and the
/// writer comes back if it was not used.
pub proof fn law_trailing_metadata_is_sent_on<T, W: StreamingResponseBodyWriter<T>>(
    writer: W,
    metadata: Map<Seq<char>, Seq<Seq<u8>>>,
    end: BodyEnd,
    r: (Result<(), Status>, Option<W>),
    answer: Result<(), NotSent<W>>,
)
    requires
        trailed_result(writer, metadata, end, r),
        forall|m: Metadata, sent: Result<(), NotSent<W>>| #[trigger]
            writer.trailed(m, sent) && headers(m.inner) == metadata ==> sent == answer,
    ensures
        answer is Ok ==> is_result(end, r.0) && r.1 is None,
        answer matches Err(e) ==> r.0 == Err::<(), Status>(e.status) && r.1 == e.writer,
{
}


/// A message of a body is what was framed: its bytes are the payload, and it says whether this is
/// compressed, as its frame does.
pub proof fn law_body_message_is_as_framed(msg: BodyMessage, m: LpmMessage)
    requires
        is_message(msg, m),
    ensures
        msg.message_bytes.bytes() == m.payload,
        msg.options is Some,
        msg.options->Some_0.compressed == m.compressed,
{
}

} // verus!
