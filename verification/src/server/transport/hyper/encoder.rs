//! The body of a response as it is encoded: framed messages, and then the status and the trailing
//! metadata.

use super::buffer::GrpcLengthEncodedBuf;
use super::response::{lemma_decimal_is_value, lemma_names, set_header, waits_after, Polled};
use crate::buf::Buf;
use crate::codec::lpm::{encode_header, first_message, frame_of, has_frame};
use crate::headers::{
    header_clone, header_value, headers, is_value, no_headers, values_of, HEADER_ROOM,
};
use crate::server::call::metadata::Metadata;
use crate::status::{Status, StatusCode, StatusView};
use crate::text::{decimal, decimal_text, signed_value};
use http::header::HeaderValue;
use http::HeaderMap;
use std::collections::VecDeque;
use vstd::prelude::*;
use vstd::utf8::encode_utf8;

verus! {

/// The trailing headers: the metadata, and over it the status with the message as it is.
pub open spec fn status_over(
    status: StatusView,
    trailers: Map<Seq<char>, Seq<Seq<u8>>>,
) -> Map<Seq<char>, Seq<Seq<u8>>> {
    let m = trailers.insert(
        "grpc-status"@,
        seq![encode_utf8(decimal(status.code.number() as nat))],
    );
    if status.message.len() == 0 {
        m
    } else {
        m.insert("grpc-message"@, seq![encode_utf8(status.message)])
    }
}

/// Whether the message of a status may stand in a header.
pub open spec fn can_be_told(status: StatusView) -> bool {
    status.message.len() == 0 || is_value(encode_utf8(status.message))
}

/// The status that stands for one that cannot be told.
pub open spec fn invalid_message_status() -> StatusView {
    StatusView { code: StatusCode::Internal, message: "Invalid status message"@ }
}

/// The trailing headers of a response. A message that may not stand in a header is an error.
pub fn status_to_header_map(status: &Status, trailers: &Metadata) -> (r: Result<
    HeaderMap<HeaderValue>,
    Status,
>)
    requires
        headers(trailers.inner).dom().len() + 1 < HEADER_ROOM,
    ensures
        can_be_told(status@) ==> (r matches Ok(m) && headers(m) == status_over(
            status@,
            headers(trailers.inner),
        )),
        !can_be_told(status@) ==> (r matches Err(e) && e@ == invalid_message_status()),
{
    let mut map = header_clone(&trailers.inner);
    let code: u32 = status.code().value() as u32;
    proof {
        lemma_names();
        lemma_decimal_is_value(code as nat);
    }
    if let Some(v) = header_value(decimal_text(code).as_str().as_bytes()) {
        set_header(&mut map, "grpc-status", v);
    }
    let message: &str = status.message();
    if !message.is_empty() {
        match header_value(message.as_bytes()) {
            Some(v) => {
                set_header(&mut map, "grpc-message", v);
            },
            None => {
                return Err(Status::new(StatusCode::Internal, "Invalid status message"));
            },
        }
    }
    Ok(map)
}

/// What the body of a response does.
pub enum EncoderStep<B> {
    /// It gives a frame with data.
    Data(GrpcLengthEncodedBuf<B>),
    /// There are no more messages: it goes on to the status and the trailers.
    Join,
    /// It gives the frame with the trailers.
    Trailers(HeaderMap<HeaderValue>),
    /// It fails.
    Error(Status),
    /// It has nothing to give yet.
    Pending,
}

/// The body of a response: the messages, each in a frame that says it is not compressed, and then
/// the trailers, once both the status and the trailing metadata are there.
pub struct HyperEncoderBody {
    status: Option<Status>,
    trailers: Option<Metadata>,
}

/// The status of a handler that was dropped without one.
pub open spec fn dropped_status() -> StatusView {
    StatusView {
        code: StatusCode::Internal,
        message: "Handler dropped status channel without waiting"@,
    }
}

/// The status that is known after asking for it.
pub open spec fn known_status(
    known: Option<StatusView>,
    polled: Polled<Result<Status, ()>>,
) -> Option<StatusView> {
    match known {
        Some(s) => Some(s),
        None => match polled {
            Polled::Ready(Ok(s)) => Some(s@),
            Polled::Ready(Err(_)) => Some(dropped_status()),
            Polled::Pending => None,
        },
    }
}

/// The trailing metadata that is known after asking for it. If the sender was dropped there is
/// none.
pub open spec fn known_trailers(
    known: Option<Map<Seq<char>, Seq<Seq<u8>>>>,
    polled: Polled<Result<Metadata, ()>>,
) -> Option<Map<Seq<char>, Seq<Seq<u8>>>> {
    match known {
        Some(m) => Some(m),
        None => match polled {
            Polled::Ready(Ok(m)) => Some(headers(m.inner)),
            Polled::Ready(Err(_)) => Some(no_headers()),
            Polled::Pending => None,
        },
    }
}

impl HyperEncoderBody {
    /// The status, once it is known.
    pub closed spec fn spec_status(&self) -> Option<StatusView> {
        match self.status {
            Some(s) => Some(s@),
            None => None,
        }
    }

    /// The trailing metadata, once it is known.
    pub closed spec fn spec_trailers(&self) -> Option<Map<Seq<char>, Seq<Seq<u8>>>> {
        match self.trailers {
            Some(m) => Some(headers(m.inner)),
            None => None,
        }
    }

    /// A body of which nothing is known yet.
    pub fn new() -> (r: Self)
        ensures
            r.spec_status() is None,
            r.spec_trailers() is None,
    {
        HyperEncoderBody { status: None, trailers: None }
    }

    /// Whether the status is still to be asked for.
    pub fn needs_status(&self) -> (r: bool)
        ensures
            r == (self.spec_status() is None),
    {
        self.status.is_none()
    }

    /// Whether the trailing metadata is still to be asked for.
    pub fn needs_trailers(&self) -> (r: bool)
        ensures
            r == (self.spec_trailers() is None),
    {
        self.trailers.is_none()
    }

    /// What to do with what came of asking for a message.
    pub fn on_message<B: Buf>(&self, polled: Polled<Option<B>>) -> (r: EncoderStep<B>)
        requires
            polled matches Polled::Ready(Some(msg)) ==> msg.inv(),
        ensures
            match polled {
                Polled::Ready(Some(msg)) => {
                    &&& r matches EncoderStep::Data(frame)
                    &&& r->Data_0.bytes() == frame_of(false, msg.bytes())
                    &&& 5 + msg.bytes().len() <= usize::MAX ==> r->Data_0.inv()
                },
                Polled::Ready(None) => r is Join,
                Polled::Pending => r is Pending,
            },
    {
        match polled {
            Polled::Ready(Some(msg)) => {
                let header: [u8; 5] = encode_header(false, msg.remaining());
                EncoderStep::Data(GrpcLengthEncodedBuf::new(header, msg))
            },
            Polled::Ready(None) => EncoderStep::Join,
            Polled::Pending => EncoderStep::Pending,
        }
    }

    /// What to do with what came of asking for the status and for the trailing metadata, where
    /// they were not known.
    pub fn on_join<B: Buf>(
        &mut self,
        status: Polled<Result<Status, ()>>,
        trailers: Polled<Result<Metadata, ()>>,
    ) -> (r: EncoderStep<B>)
        requires
            known_trailers(old(self).spec_trailers(), trailers) matches Some(m) ==> m.dom().len()
                + 1 < HEADER_ROOM,
        ensures
            final(self).spec_status() == known_status(old(self).spec_status(), status),
            final(self).spec_trailers() == known_trailers(old(self).spec_trailers(), trailers),
            match (final(self).spec_status(), final(self).spec_trailers()) {
                (Some(s), Some(m)) => if can_be_told(s) {
                    r matches EncoderStep::Trailers(map) && headers(map) == status_over(s, m)
                } else {
                    r matches EncoderStep::Error(e) && e@ == invalid_message_status()
                },
                _ => r is Pending,
            },
    {
        if self.status.is_none() {
            match status {
                Polled::Ready(Ok(s)) => {
                    self.status = Some(s);
                },
                Polled::Ready(Err(_)) => {
                    self.status = Some(
                        Status::new(
                            StatusCode::Internal,
                            "Handler dropped status channel without waiting",
                        ),
                    );
                },
                Polled::Pending => {},
            }
        }
        if self.trailers.is_none() {
            match trailers {
                Polled::Ready(Ok(m)) => {
                    self.trailers = Some(m);
                },
                Polled::Ready(Err(_)) => {
                    self.trailers = Some(Metadata::default());
                },
                Polled::Pending => {},
            }
        }
        match (&self.status, &self.trailers) {
            (Some(s), Some(m)) => match status_to_header_map(s, m) {
                Ok(map) => EncoderStep::Trailers(map),
                Err(e) => EncoderStep::Error(e),
            },
            _ => EncoderStep::Pending,
        }
    }
}

/// The status that was sent, or that of a handler that was dropped without one.
pub open spec fn status_sent(sent: Result<StatusView, ()>) -> StatusView {
    match sent {
        Ok(s) => s,
        Err(_) => dropped_status(),
    }
}

/// The trailing metadata that was sent, or none.
pub open spec fn trailers_sent(sent: Result<Map<Seq<char>, Seq<Seq<u8>>>, ()>) -> Map<
    Seq<char>,
    Seq<Seq<u8>>,
> {
    match sent {
        Ok(m) => m,
        Err(_) => no_headers(),
    }
}

/// What a sent status says.
pub open spec fn sent_status_view(sent: Result<Status, ()>) -> Result<StatusView, ()> {
    match sent {
        Ok(s) => Ok(s@),
        Err(_) => Err(()),
    }
}

/// What sent metadata holds.
pub open spec fn sent_trailers_view(sent: Result<Metadata, ()>) -> Result<
    Map<Seq<char>, Seq<Seq<u8>>>,
    (),
> {
    match sent {
        Ok(m) => Ok(headers(m.inner)),
        Err(_) => Err(()),
    }
}

/// How often the parts of an encoded body were not there when they were asked for.
pub struct EncoderWaits {
    /// The next message.
    pub messages: nat,
    /// The status.
    pub status: nat,
    /// The trailing metadata.
    pub trailers: nat,
}

/// The parts of which an encoded body is made, which may not be there yet.
///
/// A source is described by the messages that it will still give, by the status and by the
/// trailing metadata. When they are there is up to the source, which counts how often it has
/// answered that they are not.
pub trait EncoderSource<B: Buf>: Sized {
    /// Whether the source is in a usable state.
    open spec fn inv(&self) -> bool {
        true
    }

    /// The messages that will still come, in order.
    open spec fn messages(&self) -> Seq<Seq<u8>> {
        arbitrary()
    }

    /// The status, or that there will be none.
    open spec fn status(&self) -> Result<StatusView, ()> {
        arbitrary()
    }

    /// The trailing metadata, or that there will be none.
    open spec fn trailers(&self) -> Result<Map<Seq<char>, Seq<Seq<u8>>>, ()> {
        arbitrary()
    }

    /// How often the source has answered that something is not there yet.
    open spec fn waits(&self) -> EncoderWaits {
        arbitrary()
    }

    /// Asks for the next message.
    fn poll_message(&mut self) -> (r: Polled<Option<B>>)
        requires
            old(self).inv(),
        ensures
            final(self).inv(),
            final(self).status() == old(self).status(),
            final(self).trailers() == old(self).trailers(),
            final(self).waits() == (EncoderWaits {
                messages: waits_after(old(self).waits().messages, r is Pending),
                ..old(self).waits()
            }),
            match r {
                Polled::Ready(Some(msg)) => {
                    &&& old(self).messages().len() > 0
                    &&& msg.inv()
                    &&& msg.bytes() == old(self).messages()[0]
                    &&& final(self).messages() == old(self).messages().skip(1)
                },
                Polled::Ready(None) => old(self).messages().len() == 0
                    && final(self).messages() == old(self).messages(),
                Polled::Pending => final(self).messages() == old(self).messages(),
            },
    ;

    /// Asks for the status, which is given once.
    fn poll_status(&mut self) -> (r: Polled<Result<Status, ()>>)
        requires
            old(self).inv(),
        ensures
            final(self).inv(),
            final(self).messages() == old(self).messages(),
            final(self).trailers() == old(self).trailers(),
            final(self).waits() == (EncoderWaits {
                status: waits_after(old(self).waits().status, r is Pending),
                ..old(self).waits()
            }),
            match r {
                Polled::Ready(s) => sent_status_view(s) == old(self).status(),
                Polled::Pending => final(self).status() == old(self).status(),
            },
    ;

    /// Asks for the trailing metadata, which is given once.
    fn poll_trailers(&mut self) -> (r: Polled<Result<Metadata, ()>>)
        requires
            old(self).inv(),
        ensures
            final(self).inv(),
            final(self).messages() == old(self).messages(),
            final(self).status() == old(self).status(),
            final(self).waits() == (EncoderWaits {
                trailers: waits_after(old(self).waits().trailers, r is Pending),
                ..old(self).waits()
            }),
            match r {
                Polled::Ready(m) => sent_trailers_view(m) == old(self).trailers(),
                Polled::Pending => final(self).trailers() == old(self).trailers(),
            },
    ;
}

/// The parts of an encoded body that are all there.
pub struct ReadyParts<B> {
    /// The messages, in order.
    pub messages: VecDeque<B>,
    /// The status, until it is given.
    pub status: Option<Status>,
    /// The trailing metadata, until it is given.
    pub trailers: Option<Metadata>,
}

impl<B: Buf> EncoderSource<B> for ReadyParts<B> {
    open spec fn inv(&self) -> bool {
        forall|i: int| 0 <= i < self.messages@.len() ==> (#[trigger] self.messages@[i]).inv()
    }

    open spec fn messages(&self) -> Seq<Seq<u8>> {
        self.messages@.map_values(|b: B| b.bytes())
    }

    open spec fn status(&self) -> Result<StatusView, ()> {
        match self.status {
            Some(s) => Ok(s@),
            None => Err(()),
        }
    }

    open spec fn trailers(&self) -> Result<Map<Seq<char>, Seq<Seq<u8>>>, ()> {
        match self.trailers {
            Some(m) => Ok(headers(m.inner)),
            None => Err(()),
        }
    }

    open spec fn waits(&self) -> EncoderWaits {
        EncoderWaits { messages: 0, status: 0, trailers: 0 }
    }

    fn poll_message(&mut self) -> (r: Polled<Option<B>>) {
        let r = self.messages.pop_front();
        assert(old(self).messages@.len() > 0 ==> self.messages() =~= old(self).messages().skip(1));
        Polled::Ready(r)
    }

    fn poll_status(&mut self) -> (r: Polled<Result<Status, ()>>) {
        match self.status.take() {
            Some(s) => Polled::Ready(Ok(s)),
            None => Polled::Ready(Err(())),
        }
    }

    fn poll_trailers(&mut self) -> (r: Polled<Result<Metadata, ()>>) {
        match self.trailers.take() {
            Some(m) => Polled::Ready(Ok(m)),
            None => Polled::Ready(Err(())),
        }
    }
}

/// A frame of an encoded body.
pub enum EncodedFrame<B> {
    /// A framed message.
    Data(GrpcLengthEncodedBuf<B>),
    /// The trailers.
    Trailers(HeaderMap<HeaderValue>),
}

/// What an encoded body gives: a frame, or the status with which it fails.
pub enum EncodedView {
    /// A framed message.
    Data(Seq<u8>),
    /// The trailers.
    Trailers(Map<Seq<char>, Seq<Seq<u8>>>),
    /// The status with which the body fails.
    Failure(StatusView),
}

/// What an answer of an encoded body is.
pub open spec fn encoded_view<B: Buf>(answer: Polled<Result<EncodedFrame<B>, Status>>) -> Polled<
    EncodedView,
> {
    match answer {
        Polled::Pending => Polled::Pending,
        Polled::Ready(Ok(EncodedFrame::Data(frame))) => Polled::Ready(
            EncodedView::Data(frame.bytes()),
        ),
        Polled::Ready(Ok(EncodedFrame::Trailers(map))) => Polled::Ready(
            EncodedView::Trailers(headers(map)),
        ),
        Polled::Ready(Err(e)) => Polled::Ready(EncodedView::Failure(e@)),
    }
}

/// What an encoded body gives behind its messages: the trailers, or a failure where the status
/// cannot be told.
pub open spec fn encoded_end(
    status: StatusView,
    trailers: Map<Seq<char>, Seq<Seq<u8>>>,
) -> EncodedView {
    if can_be_told(status) {
        EncodedView::Trailers(status_over(status, trailers))
    } else {
        EncodedView::Failure(invalid_message_status())
    }
}

/// What an encoded body with these messages gives at an index: the messages in their frames, and
/// from then on its end.
pub open spec fn encoded_at(messages: Seq<Seq<u8>>, end: EncodedView, i: int) -> EncodedView {
    if i < messages.len() {
        EncodedView::Data(frame_of(false, messages[i]))
    } else {
        end
    }
}

/// Whether asking an encoded body that still has the messages `before` may be answered in this way
/// and leave it those `after`: nothing yet, the first message in its frame, or the end, where there
/// are no more messages.
pub open spec fn gives_encoded(
    before: Seq<Seq<u8>>,
    end: EncodedView,
    answer: Polled<EncodedView>,
    after: Seq<Seq<u8>>,
) -> bool {
    match answer {
        Polled::Pending => after == before,
        Polled::Ready(given) => {
            &&& given == encoded_at(before, end, 0)
            &&& after == if before.len() > 0 {
                before.skip(1)
            } else {
                before
            }
        },
    }
}

impl HyperEncoderBody {
    /// The status with which the body will end: the one that is known, or that of the source.
    pub open spec fn status_at_end(&self, sent: Result<StatusView, ()>) -> StatusView {
        match self.spec_status() {
            Some(s) => s,
            None => status_sent(sent),
        }
    }

    /// The trailing metadata with which the body will end: the one that is known, or that of the
    /// source.
    pub open spec fn trailers_at_end(
        &self,
        sent: Result<Map<Seq<char>, Seq<Seq<u8>>>, ()>,
    ) -> Map<Seq<char>, Seq<Seq<u8>>> {
        match self.spec_trailers() {
            Some(m) => m,
            None => trailers_sent(sent),
        }
    }

    /// Whether the status or the trailing metadata is not known.
    pub open spec fn awaits_end(&self) -> bool {
        self.spec_status() is None || self.spec_trailers() is None
    }

    /// What the body gives next: the messages of `source` in their frames and then, once both the
    /// status and the trailing metadata are there, the trailers. A body that is asked again behind
    /// its end gives its end again.
    ///
    /// The body has nothing to give only where the source has just said that the next message, the
    /// status or the trailing metadata is not there yet. When there are no more messages, it asks
    /// for the other two at once.
    pub fn poll_frame<B: Buf, S: EncoderSource<B>>(&mut self, source: &mut S) -> (r: Polled<
        Result<EncodedFrame<B>, Status>,
    >)
        requires
            old(source).inv(),
            old(self).trailers_at_end(old(source).trailers()).dom().len() + 1 < HEADER_ROOM,
        ensures
            final(source).inv(),
            final(self).status_at_end(final(source).status()) == old(self).status_at_end(
                old(source).status(),
            ),
            final(self).trailers_at_end(final(source).trailers()) == old(self).trailers_at_end(
                old(source).trailers(),
            ),
            gives_encoded(
                old(source).messages(),
                encoded_end(
                    old(self).status_at_end(old(source).status()),
                    old(self).trailers_at_end(old(source).trailers()),
                ),
                encoded_view(r),
                final(source).messages(),
            ),
            r matches Polled::Ready(Ok(EncodedFrame::Data(frame))) ==> (5 + old(
                source,
            ).messages()[0].len() <= usize::MAX ==> frame.inv()),
            r is Ready ==> final(source).waits() == old(source).waits(),
            r is Pending ==> {
                ||| final(source).waits() == (EncoderWaits {
                    messages: old(source).waits().messages + 1,
                    ..old(source).waits()
                })
                ||| {
                    &&& final(self).awaits_end()
                    &&& final(source).messages().len() == 0
                    &&& final(source).waits() == (EncoderWaits {
                        messages: old(source).waits().messages,
                        status: waits_after(
                            old(source).waits().status,
                            final(self).spec_status() is None,
                        ),
                        trailers: waits_after(
                            old(source).waits().trailers,
                            final(self).spec_trailers() is None,
                        ),
                    })
                }
            },
    {
        let polled = source.poll_message();
        match self.on_message(polled) {
            EncoderStep::Data(frame) => {
                return Polled::Ready(Ok(EncodedFrame::Data(frame)));
            },
            EncoderStep::Join => {},
            _ => {
                return Polled::Pending;
            },
        }
        let status: Polled<Result<Status, ()>> = if self.needs_status() {
            source.poll_status()
        } else {
            Polled::Pending
        };
        let trailers: Polled<Result<Metadata, ()>> = if self.needs_trailers() {
            source.poll_trailers()
        } else {
            Polled::Pending
        };
        match self.on_join::<B>(status, trailers) {
            EncoderStep::Trailers(map) => Polled::Ready(Ok(EncodedFrame::Trailers(map))),
            EncoderStep::Error(e) => Polled::Ready(Err(e)),
            _ => Polled::Pending,
        }
    }
}

/// What a body has given, in order.
pub open spec fn given_among(answers: Seq<Polled<EncodedView>>) -> Seq<EncodedView>
    decreases answers.len(),
{
    if answers.len() == 0 {
        Seq::empty()
    } else {
        let before = given_among(answers.drop_last());
        match answers.last() {
            Polled::Ready(given) => before.push(given),
            Polled::Pending => before,
        }
    }
}

/// An encoded body gives each message in its frame, in order, and then its end: of a body that has
/// the messages `left[0]` at first and is asked again and again, what it gives at each index is the
/// frame of the message at that index, and behind the last message the trailers or the failure. So
/// one that is asked until it gives something else than a message has given all of them and its end
/// once.
pub proof fn law_encoded_body_gives_all_in_order(
    left: Seq<Seq<Seq<u8>>>,
    end: EncodedView,
    answers: Seq<Polled<EncodedView>>,
)
    requires
        left.len() == answers.len() + 1,
        forall|i: int|
            0 <= i < answers.len() ==> gives_encoded(
                #[trigger] left[i],
                end,
                answers[i],
                left[i + 1],
            ),
    ensures
        forall|i: int|
            0 <= i < given_among(answers).len() ==> #[trigger] given_among(answers)[i]
                == encoded_at(left[0], end, i),
        left.last() == left[0].skip(
            if given_among(answers).len() < left[0].len() {
                given_among(answers).len() as int
            } else {
                left[0].len() as int
            },
        ),
    decreases answers.len(),
{
    if answers.len() == 0 {
        assert(left[0].skip(0) =~= left[0]);
    } else {
        let n = answers.len() - 1;
        let init = left.drop_last();
        let before = answers.drop_last();
        assert forall|i: int| 0 <= i < before.len() implies gives_encoded(
            #[trigger] init[i],
            end,
            before[i],
            init[i + 1],
        ) by {
            assert(gives_encoded(left[i], end, answers[i], left[i + 1]));
        }
        law_encoded_body_gives_all_in_order(init, end, before);
        assert(gives_encoded(left[n], end, answers[n], left[n + 1]));
        assert(init.last() == left[n]);
        let k = given_among(before).len() as int;
        if k < left[0].len() {
            assert(left[0].skip(k).skip(1) =~= left[0].skip(k + 1));
        }
    }
}

/// The result of writing a message to the body of a response, given whether the body took it.
pub fn write_result(taken: bool) -> (r: Result<(), Status>)
    ensures
        taken ==> r is Ok,
        !taken ==> (r matches Err(e) && e@ == (StatusView {
            code: StatusCode::Internal,
            message: "Response receiver dropped"@,
        })),
{
    if taken {
        Ok(())
    } else {
        Err(Status::new(StatusCode::Internal, "Response receiver dropped"))
    }
}

/// The trailing headers tell everything: the number of the status can be read from them, its
/// message stands there as it is where there is one, whatever the metadata holds under these names,
/// and all other metadata is there as it was, whatever the status.
pub proof fn law_status_and_metadata_are_told(
    status: StatusView,
    trailers: Map<Seq<char>, Seq<Seq<u8>>>,
    name: Seq<char>,
)
    ensures
        ({
            let told = status_over(status, trailers);
            &&& values_of(told, "grpc-status"@).len() == 1
            &&& signed_value(values_of(told, "grpc-status"@)[0]) == Some(status.code.number())
            &&& status.message.len() > 0 ==> values_of(told, "grpc-message"@) == seq![
                encode_utf8(status.message),
            ]
            &&& status.message.len() == 0 ==> values_of(told, "grpc-message"@) == values_of(
                trailers,
                "grpc-message"@,
            )
            &&& name != "grpc-status"@ && name != "grpc-message"@ ==> values_of(told, name)
                == values_of(trailers, name)
        }),
{
    lemma_names();
    crate::text::law_decimal_reads_back(status.code.number() as nat);
    crate::status::law_codes_have_their_numbers(status.code, status.code);
}

/// A status can be told unless a control character stands in its message: a tab is the only one
/// that may, and DEL is one that may not.
pub proof fn law_control_characters_cannot_be_told(status: StatusView)
    ensures
        can_be_told(status) <==> forall|i: int|
            0 <= i < encode_utf8(status.message).len() ==> {
                let b = #[trigger] encode_utf8(status.message)[i];
                b == 9 || (b >= 32 && b != 127)
            },
{
    if status.message.len() == 0 {
        assert(encode_utf8(status.message).len() == 0);
    }
    if can_be_told(status) {
        assert forall|i: int| 0 <= i < encode_utf8(status.message).len() implies ({
            let b = #[trigger] encode_utf8(status.message)[i];
            b == 9 || (b >= 32 && b != 127)
        }) by {
            assert(crate::headers::is_value_byte(encode_utf8(status.message)[i]));
        }
    }
}


/// An encoded body holds each message in a frame of its own, which says that it is not compressed,
/// and ends with trailers that tell the status and the metadata; only a status that cannot be told
/// makes it fail, with an internal error.
pub proof fn law_encoded_body_holds_everything(
    messages: Seq<Seq<u8>>,
    status: StatusView,
    trailers: Map<Seq<char>, Seq<Seq<u8>>>,
    i: int,
)
    requires
        0 <= i,
        i < messages.len() ==> messages[i].len() < 0x1_0000_0000,
    ensures
        ({
            let given = encoded_at(messages, encoded_end(status, trailers), i);
            &&& i < messages.len() ==> {
                &&& given is Data
                &&& has_frame(given->Data_0)
                &&& first_message(given->Data_0).payload == messages[i]
                &&& !first_message(given->Data_0).compressed
                &&& given->Data_0.len() == 5 + messages[i].len()
            }
            &&& i >= messages.len() && can_be_told(status) ==> given is Trailers
                && given->Trailers_0 == status_over(status, trailers)
            &&& i >= messages.len() && !can_be_told(status) ==> given is Failure
                && given->Failure_0.code == StatusCode::Internal && given->Failure_0.message
                == "Invalid status message"@
        }),
{
    if i < messages.len() {
        crate::codec::lpm::lemma_frame_round_trip(false, messages[i], Seq::empty());
        crate::codec::lpm::law_frame_layout(false, messages[i]);
        assert(frame_of(false, messages[i]) + Seq::empty() =~= frame_of(false, messages[i]));
    }
}

/// A body ends with what its handler sent: the status and the metadata as they are. A handler that
/// was dropped without a status ends it with an internal error that says so, never with success,
/// and one without metadata ends it with none. What is known of the end does not change any more.
pub proof fn law_body_ends_with_what_was_sent(
    body: HyperEncoderBody,
    status: Result<StatusView, ()>,
    trailers: Result<Map<Seq<char>, Seq<Seq<u8>>>, ()>,
)
    ensures
        body.spec_status() matches Some(s) ==> body.status_at_end(status) == s,
        body.spec_status() is None ==> {
            &&& status matches Ok(s) ==> body.status_at_end(status) == s
            &&& status is Err ==> body.status_at_end(status).code == StatusCode::Internal
                && body.status_at_end(status).message
                == "Handler dropped status channel without waiting"@
        },
        body.spec_trailers() matches Some(m) ==> body.trailers_at_end(trailers) == m,
        body.spec_trailers() is None ==> {
            &&& trailers matches Ok(m) ==> body.trailers_at_end(trailers) == m
            &&& trailers is Err ==> forall|name: Seq<char>| #[trigger]
                values_of(body.trailers_at_end(trailers), name).len() == 0
        },
{
}

} // verus!
