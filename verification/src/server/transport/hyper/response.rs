//! Responses: their headers, their bodies and their trailers.

use crate::buf::contents;
use crate::headers::{
    header_append, header_insert, header_list, header_name, header_value, headers, is_name,
    is_value, is_visible, lemma_few_names, lemma_same_values, lemma_visible_text, listed_values, name_text,
    no_empty_lists, no_headers, value_bytes, values_of, HEADER_ROOM,
};
use crate::metadata::{
    are_read_from, as_headers, can_travel, first_binary, law_binary_names_end_with_bin,
    law_first_binary_is_the_first, lemma_as_headers_size, lemma_as_headers_values,
    lemma_headers_are_read, lemma_listed_grows, value_from_wire, values_under, EntryView,
    MetadataValueView,
};
use crate::percent::{
    escaped, law_escaped_is_visible, law_unescaped_of_escaped, percent_encoded, unescaped,
};
use crate::protobuf::rpc_status::can_be_serialized;
use crate::protobuf::status::{payload_of, StatusErrorView as RichErrorView};
use crate::protobuf::trailers_conv::{can_come_back, law_error_is_told, told_status, trailers_of};
use crate::rpc::{bare_trailers, ResponseHeaders, Trailers, TrailersView};
use crate::status::{StatusCodeError, StatusError, StatusErrorView};
use crate::text::{decimal, decimal_text, digit, law_decimal_reads_back, unsigned_value};
use bytes::Bytes;
use http::header::HeaderValue;
use http::HeaderMap;
use std::collections::VecDeque;
use vstd::prelude::*;
use vstd::utf8::{encode_utf8, valid_utf8};

verus! {

/// The headers that tell a status: `grpc-status` with the code's number and, for an error with a
/// message, `grpc-message` with the message in percent-encoding.
pub open spec fn status_headers(status: Result<(), StatusErrorView>) -> Map<
    Seq<char>,
    Seq<Seq<u8>>,
> {
    match status {
        Ok(_) => no_headers().insert("grpc-status"@, seq![encode_utf8("0"@)]),
        Err(e) => {
            let m = no_headers().insert(
                "grpc-status"@,
                seq![encode_utf8(decimal(e.code.number() as nat))],
            );
            if e.message.len() == 0 {
                m
            } else {
                m.insert("grpc-message"@, seq![escaped(encode_utf8(e.message))])
            }
        },
    }
}

/// Headers of which each has only its last value.
pub open spec fn last_values(m: Map<Seq<char>, Seq<Seq<u8>>>) -> Map<Seq<char>, Seq<Seq<u8>>> {
    m.map_values(|v: Seq<Seq<u8>>| seq![v.last()])
}

/// The trailing headers of a response: the status, and the metadata over it, of which the last
/// value under each name counts.
pub open spec fn trailing_headers(t: TrailersView) -> Map<Seq<char>, Seq<Seq<u8>>> {
    status_headers(t.status).union_prefer_right(last_values(as_headers(t.metadata)))
}

/// The trailing headers of a response whose handler gave no trailers.
pub open spec fn missing_trailing_headers() -> Map<Seq<char>, Seq<Seq<u8>>> {
    no_headers().insert("grpc-status"@, seq![encode_utf8(decimal(13))]).insert(
        "grpc-message"@,
        seq![encode_utf8("handler did not return trailers"@)],
    )
}

/// The names of the headers that the transport sets are header names.
pub(crate) proof fn lemma_names()
    ensures
        is_name("grpc-status"@),
        is_name("grpc-message"@),
        is_name("content-type"@),
        is_name("path"@),
        "grpc-status"@ != "grpc-message"@,
{
    reveal_strlit("grpc-status");
    reveal_strlit("grpc-message");
    reveal_strlit("content-type");
    reveal_strlit("path");
    assert("grpc-status"@.len() != "grpc-message"@.len());
}

/// Inserts a value under a name in lower case.
pub(crate) fn set_header(map: &mut HeaderMap<HeaderValue>, name: &str, value: HeaderValue)
    requires
        is_name(name@),
        headers(*old(map)).dom().len() < HEADER_ROOM,
    ensures
        headers(*final(map)) == headers(*old(map)).insert(name@, seq![value_bytes(value)]),
{
    if let Some(name) = header_name(name) {
        header_insert(map, name, value);
    }
}

/// Decimal digits may stand in a header.
pub(crate) proof fn lemma_decimal_is_value(n: nat)
    requires
        n < 100,
    ensures
        is_value(encode_utf8(decimal(n))),
{
    let s = decimal(n);
    if n >= 10 {
        assert(n / 10 < 10);
        assert(decimal(n / 10) =~= seq![digit(n / 10)]);
        assert(s =~= seq![digit(n / 10), digit(n % 10)]);
    }
    lemma_visible_text(s);
}

/// The trailing headers of a response.
pub fn trailers_to_header_map(trailers: &Trailers) -> (r: HeaderMap<HeaderValue>)
    requires
        as_headers(trailers@.metadata).dom().len() + 2 < HEADER_ROOM,
    ensures
        headers(r) == trailing_headers(trailers@),
{
    let mut map: HeaderMap<HeaderValue> = HeaderMap::new();
    let ghost status = status_headers(trailers@.status);
    proof {
        lemma_names();
    }
    match trailers.status() {
        Ok(_) => {
            proof {
                reveal_strlit("0");
                lemma_visible_text("0"@);
            }
            if let Some(v) = header_value("0".as_bytes()) {
                set_header(&mut map, "grpc-status", v);
            }
        },
        Err(err) => {
            let code: u32 = err.code().value() as u32;
            proof {
                lemma_decimal_is_value(code as nat);
            }
            if let Some(v) = header_value(decimal_text(code).as_str().as_bytes()) {
                set_header(&mut map, "grpc-status", v);
            }
            let msg: &str = err.message();
            if !msg.is_empty() {
                proof {
                    law_escaped_is_visible(encode_utf8(msg@));
                }
                let encoded = percent_encoded(msg.as_bytes());
                if let Some(v) = header_value(encoded.as_str().as_bytes()) {
                    set_header(&mut map, "grpc-message", v);
                }
            }
        },
    }
    assert(headers(map) =~= status);
    let ghost custom = as_headers(trailers@.metadata);
    let ghost names = custom.dom().insert("grpc-status"@).insert("grpc-message"@);
    proof {
        lemma_as_headers_size(trailers@.metadata);
        lemma_as_headers_values(trailers@.metadata);
    }
    let trailer_headers = trailers.metadata().clone().into_headers();
    let list = header_list(&trailer_headers);
    let mut i: usize = 0;
    while i < list.len()
        invariant
            i <= list@.len(),
            names.finite(),
            names.len() < HEADER_ROOM,
            names == custom.dom().insert("grpc-status"@).insert("grpc-message"@),
            forall|name: Seq<char>| #[trigger] listed_values(list@, name) == values_of(custom, name),
            forall|name: Seq<char>| #[trigger]
                status.dom().contains(name) ==> names.contains(name),
            no_empty_lists(status),
            no_empty_lists(headers(map)),
            forall|name: Seq<char>| #[trigger]
                values_of(headers(map), name) == overlaid(
                    status,
                    listed_values(list@.take(i as int), name),
                    name,
                ),
        decreases list@.len() - i,
    {
        let ghost before = headers(map);
        let ghost sofar = list@.take(i as int);
        let ghost name = name_text(list@[i as int].0);
        let ghost value = value_bytes(list@[i as int].1);
        proof {
            assert forall|n: Seq<char>| #[trigger] before.dom().contains(n) implies names.contains(
                n,
            ) by {
                assert(values_of(before, n).len() > 0);
                assert(values_of(before, n) == overlaid(status, listed_values(sofar, n), n));
                lemma_listed_grows(list@, i as int, n);
                assert(listed_values(list@, n) == values_of(custom, n));
            }
            lemma_few_names(before, names);
            assert(list@.take(i + 1).drop_last() =~= sofar);
            assert(list@.take(i + 1).last() == list@[i as int]);
        }
        header_insert(&mut map, list[i].0.clone(), list[i].1.clone());
        i += 1;
        proof {
            assert forall|n: Seq<char>| #[trigger]
                values_of(headers(map), n) == overlaid(
                    status,
                    listed_values(list@.take(i as int), n),
                    n,
                ) by {
                assert(values_of(before, n) == overlaid(status, listed_values(sofar, n), n));
                if n == name {
                    assert(listed_values(list@.take(i as int), n).last() == value);
                }
            }
        }
    }
    proof {
        assert(list@.take(i as int) =~= list@);
        let all = trailing_headers(trailers@);
        assert forall|n: Seq<char>| #[trigger] values_of(headers(map), n) == values_of(all, n) by {
            assert(listed_values(list@, n) == values_of(custom, n));
            assert(values_of(headers(map), n) == overlaid(status, listed_values(list@, n), n));
        }
        lemma_same_values(headers(map), all);
    }
    map
}

/// The values under a name where listed values stand over a status.
spec fn overlaid(
    status: Map<Seq<char>, Seq<Seq<u8>>>,
    listed: Seq<Seq<u8>>,
    name: Seq<char>,
) -> Seq<Seq<u8>> {
    if listed.len() > 0 {
        seq![listed.last()]
    } else {
        values_of(status, name)
    }
}

/// The trailing headers of a response whose handler gave no trailers.
fn missing_trailers_header_map() -> (r: HeaderMap<HeaderValue>)
    ensures
        headers(r) == missing_trailing_headers(),
{
    let mut map: HeaderMap<HeaderValue> = HeaderMap::new();
    proof {
        lemma_names();
        lemma_decimal_is_value(13);
        reveal_strlit("handler did not return trailers");
        lemma_visible_text("handler did not return trailers"@);
    }
    let code: u32 = StatusCodeError::Internal.value() as u32;
    if let Some(v) = header_value(decimal_text(code).as_str().as_bytes()) {
        set_header(&mut map, "grpc-status", v);
    }
    if let Some(v) = header_value("handler did not return trailers".as_bytes()) {
        set_header(&mut map, "grpc-message", v);
    }
    map
}

/// What came of asking for something that may not be there yet.
pub enum Polled<T> {
    /// It is there.
    Ready(T),
    /// It is not there yet.
    Pending,
}

/// What the body of a response is to ask for next.
#[derive(Debug, Clone, Copy, PartialEq, Eq, Structural)]
pub enum BodyPhase {
    /// The next message.
    Data,
    /// The trailers.
    Trailers,
    /// Nothing: the body has come to its end.
    End,
}

/// What the body of a response does.
pub enum BodyStep {
    /// It gives a frame with data.
    Data(Bytes),
    /// It gives the frame with the trailers.
    Trailers(HeaderMap<HeaderValue>),
    /// It has nothing to give yet.
    Pending,
    /// It goes on in the next phase.
    Advance,
}

/// The body of a response: first the messages, and when there are no more of them, the trailers
/// with the status.
#[derive(Debug)]
pub struct GrpcResponseBody {
    phase: BodyPhase,
}

impl GrpcResponseBody {
    /// What the body asks for next.
    pub closed spec fn spec_phase(&self) -> BodyPhase {
        self.phase
    }

    /// A body of which nothing was given yet.
    pub fn new() -> (r: Self)
        ensures
            r.spec_phase() == BodyPhase::Data,
    {
        GrpcResponseBody { phase: BodyPhase::Data }
    }

    /// What the body asks for next.
    pub fn phase(&self) -> (r: BodyPhase)
        ensures
            r == self.spec_phase(),
    {
        self.phase
    }

    /// What to do with what came of asking for a message.
    pub fn on_data(&mut self, polled: Polled<Option<Bytes>>) -> (r: BodyStep)
        requires
            old(self).spec_phase() == BodyPhase::Data,
        ensures
            final(self).spec_phase() == phase_after(old(self).spec_phase(), data_event(polled)),
            match polled {
                Polled::Ready(Some(bytes)) => r == BodyStep::Data(bytes),
                Polled::Ready(None) => r is Advance,
                Polled::Pending => r is Pending,
            },
    {
        match polled {
            Polled::Ready(Some(bytes)) => BodyStep::Data(bytes),
            Polled::Ready(None) => {
                self.phase = BodyPhase::Trailers;
                BodyStep::Advance
            },
            Polled::Pending => BodyStep::Pending,
        }
    }

    /// What to do with what came of asking for the trailers. It is an error if the handler was
    /// dropped without giving any.
    pub fn on_trailers(&mut self, polled: Polled<Result<Trailers, ()>>) -> (r: BodyStep)
        requires
            old(self).spec_phase() == BodyPhase::Trailers,
            polled matches Polled::Ready(Ok(t)) ==> as_headers(t@.metadata).dom().len() + 2
                < HEADER_ROOM,
        ensures
            final(self).spec_phase() == phase_after(
                old(self).spec_phase(),
                trailers_event(polled),
            ),
            match polled {
                Polled::Ready(t) => r matches BodyStep::Trailers(m) && headers(m)
                    == last_headers(end_view(t)),
                Polled::Pending => r is Pending,
            },
    {
        match polled {
            Polled::Ready(Ok(trailers)) => {
                self.phase = BodyPhase::End;
                BodyStep::Trailers(trailers_to_header_map(&trailers))
            },
            Polled::Ready(Err(_)) => {
                self.phase = BodyPhase::End;
                BodyStep::Trailers(missing_trailers_header_map())
            },
            Polled::Pending => BodyStep::Pending,
        }
    }
}

/// The trailing headers of a response, whether its handler gave trailers or not.
pub open spec fn last_headers(end: Result<TrailersView, ()>) -> Map<Seq<char>, Seq<Seq<u8>>> {
    match end {
        Ok(t) => trailing_headers(t),
        Err(_) => missing_trailing_headers(),
    }
}

/// The parts of which a body is made, which may not be there yet.
///
/// A source is described by the messages that it will still give and by the trailers. When they
/// are there is up to the source, which counts how often it has answered that they are not.
pub trait ResponseSource: Sized {
    /// Whether the source is in a usable state.
    open spec fn inv(&self) -> bool {
        true
    }

    /// The messages that will still come, in order.
    open spec fn messages(&self) -> Seq<Seq<u8>> {
        arbitrary()
    }

    /// The trailers, or that there will be none.
    open spec fn trailers(&self) -> Result<TrailersView, ()> {
        arbitrary()
    }

    /// How often the source has answered that the next message is not there yet.
    open spec fn data_waits(&self) -> nat {
        arbitrary()
    }

    /// How often the source has answered that the trailers are not there yet.
    open spec fn trailers_waits(&self) -> nat {
        arbitrary()
    }

    /// Asks for the next message.
    fn poll_data(&mut self) -> (r: Polled<Option<Bytes>>)
        requires
            old(self).inv(),
        ensures
            final(self).inv(),
            final(self).trailers() == old(self).trailers(),
            final(self).data_waits() == waits_after(old(self).data_waits(), r is Pending),
            final(self).trailers_waits() == old(self).trailers_waits(),
            match r {
                Polled::Ready(Some(b)) => {
                    &&& old(self).messages().len() > 0
                    &&& contents(b) == old(self).messages()[0]
                    &&& final(self).messages() == old(self).messages().skip(1)
                },
                Polled::Ready(None) => old(self).messages().len() == 0
                    && final(self).messages() == old(self).messages(),
                Polled::Pending => final(self).messages() == old(self).messages(),
            },
    ;

    /// Asks for the trailers, which are given once.
    fn poll_trailers(&mut self) -> (r: Polled<Result<Trailers, ()>>)
        requires
            old(self).inv(),
        ensures
            final(self).inv(),
            final(self).messages() == old(self).messages(),
            final(self).data_waits() == old(self).data_waits(),
            final(self).trailers_waits() == waits_after(old(self).trailers_waits(), r is Pending),
            match r {
                Polled::Ready(t) => end_view(t) == old(self).trailers(),
                Polled::Pending => final(self).trailers() == old(self).trailers(),
            },
    ;
}

/// How often something was not there after it was asked for once more.
pub open spec fn waits_after(before: nat, pending: bool) -> nat {
    if pending {
        before + 1
    } else {
        before
    }
}

/// The parts of a response that are all there.
pub struct ReadyResponse {
    /// The messages, in order.
    pub messages: VecDeque<Bytes>,
    /// The trailers, until they are given.
    pub trailers: Option<Trailers>,
}

impl ResponseSource for ReadyResponse {
    open spec fn inv(&self) -> bool {
        true
    }

    open spec fn messages(&self) -> Seq<Seq<u8>> {
        self.messages@.map_values(|b: Bytes| contents(b))
    }

    open spec fn trailers(&self) -> Result<TrailersView, ()> {
        match self.trailers {
            Some(t) => Ok(t@),
            None => Err(()),
        }
    }

    open spec fn data_waits(&self) -> nat {
        0
    }

    open spec fn trailers_waits(&self) -> nat {
        0
    }

    fn poll_data(&mut self) -> (r: Polled<Option<Bytes>>) {
        let r = self.messages.pop_front();
        assert(old(self).messages@.len() > 0 ==> self.messages() =~= old(self).messages().skip(1));
        Polled::Ready(r)
    }

    fn poll_trailers(&mut self) -> (r: Polled<Result<Trailers, ()>>) {
        match self.trailers.take() {
            Some(t) => Polled::Ready(Ok(t)),
            None => Polled::Ready(Err(())),
        }
    }
}

/// A frame of a response's body.
pub enum ResponseFrame {
    /// Data.
    Data(Bytes),
    /// The trailers.
    Trailers(HeaderMap<HeaderValue>),
}

/// What a [`ResponseFrame`] holds.
pub enum ResponseFrameView {
    /// Data.
    Data(Seq<u8>),
    /// The trailers.
    Trailers(Map<Seq<char>, Seq<Seq<u8>>>),
}

impl View for ResponseFrame {
    type V = ResponseFrameView;

    open spec fn view(&self) -> ResponseFrameView {
        match self {
            ResponseFrame::Data(b) => ResponseFrameView::Data(contents(*b)),
            ResponseFrame::Trailers(m) => ResponseFrameView::Trailers(headers(*m)),
        }
    }
}

/// The frames that a body still has to give: one for each message, in order, and one with the
/// trailers.
pub open spec fn due(
    phase: BodyPhase,
    messages: Seq<Seq<u8>>,
    trailers: Result<TrailersView, ()>,
) -> Seq<ResponseFrameView> {
    match phase {
        BodyPhase::Data => messages.map_values(|b: Seq<u8>| ResponseFrameView::Data(b)).push(
            ResponseFrameView::Trailers(last_headers(trailers)),
        ),
        BodyPhase::Trailers => seq![ResponseFrameView::Trailers(last_headers(trailers))],
        BodyPhase::End => Seq::empty(),
    }
}

/// Whether asking a body that still has `before` to give may be answered in this way and leave it
/// `after` to give: nothing yet, the first of the frames, or the end, where there are no more.
pub open spec fn gives(
    before: Seq<ResponseFrameView>,
    answer: Polled<Option<ResponseFrameView>>,
    after: Seq<ResponseFrameView>,
) -> bool {
    match answer {
        Polled::Pending => before.len() > 0 && after == before,
        Polled::Ready(Some(frame)) => before.len() > 0 && frame == before[0] && after
            == before.skip(1),
        Polled::Ready(None) => before.len() == 0 && after.len() == 0,
    }
}

/// What the answer of a body is.
pub open spec fn answer_view(answer: Polled<Option<ResponseFrame>>) -> Polled<
    Option<ResponseFrameView>,
> {
    match answer {
        Polled::Pending => Polled::Pending,
        Polled::Ready(None) => Polled::Ready(None),
        Polled::Ready(Some(frame)) => Polled::Ready(Some(frame@)),
    }
}

impl GrpcResponseBody {
    /// The next frame of the body: the messages of `source` and then its trailers, as they come.
    ///
    /// The body has nothing to give only where the source has just said so of what the body asks
    /// for in the phase in which it is left. When there are no more messages, it asks for the
    /// trailers at once.
    pub fn poll_frame<S: ResponseSource>(&mut self, source: &mut S) -> (r: Polled<
        Option<ResponseFrame>,
    >)
        requires
            old(source).inv(),
            old(self).spec_phase() != BodyPhase::End ==> (old(source).trailers() matches Ok(t)
                ==> as_headers(t.metadata).dom().len() + 2 < HEADER_ROOM),
        ensures
            final(source).inv(),
            final(source).data_waits() == waits_after(
                old(source).data_waits(),
                r is Pending && final(self).spec_phase() == BodyPhase::Data,
            ),
            final(source).trailers_waits() == waits_after(
                old(source).trailers_waits(),
                r is Pending && final(self).spec_phase() == BodyPhase::Trailers,
            ),
            r is Pending ==> final(self).spec_phase() != BodyPhase::End,
            old(self).spec_phase() == BodyPhase::End ==> final(self).spec_phase() == BodyPhase::End
                && *final(source) == *old(source),
            final(self).spec_phase() != BodyPhase::End ==> final(source).trailers() == old(
                source,
            ).trailers(),
            gives(
                due(old(self).spec_phase(), old(source).messages(), old(source).trailers()),
                answer_view(r),
                due(final(self).spec_phase(), final(source).messages(), final(source).trailers()),
            ),
    {
        let ghost messages = source.messages();
        let ghost end = source.trailers();
        let ghost shown = |b: Seq<u8>| ResponseFrameView::Data(b);
        if self.phase == BodyPhase::Data {
            let polled = source.poll_data();
            match self.on_data(polled) {
                BodyStep::Data(bytes) => {
                    proof {
                        let before = due(BodyPhase::Data, messages, end);
                        assert(before[0] == shown(messages[0]));
                        assert(before.skip(1) =~= due(BodyPhase::Data, messages.skip(1), end));
                    }
                    return Polled::Ready(Some(ResponseFrame::Data(bytes)));
                },
                BodyStep::Pending => {
                    return Polled::Pending;
                },
                _ => {
                    assert(due(BodyPhase::Data, messages, end) =~= due(
                        BodyPhase::Trailers,
                        messages,
                        end,
                    ));
                },
            }
        }
        if self.phase == BodyPhase::Trailers {
            let polled = source.poll_trailers();
            match self.on_trailers(polled) {
                BodyStep::Trailers(map) => {
                    assert(due(BodyPhase::Trailers, messages, end).skip(1) =~= Seq::empty());
                    return Polled::Ready(Some(ResponseFrame::Trailers(map)));
                },
                _ => {
                    return Polled::Pending;
                },
            }
        }
        Polled::Ready(None)
    }
}

/// The frames among the answers of a body.
pub open spec fn frames_among(answers: Seq<Polled<Option<ResponseFrameView>>>) -> Seq<
    ResponseFrameView,
>
    decreases answers.len(),
{
    if answers.len() == 0 {
        Seq::empty()
    } else {
        let before = frames_among(answers.drop_last());
        match answers.last() {
            Polled::Ready(Some(frame)) => before.push(frame),
            _ => before,
        }
    }
}

/// A body gives its data in order, then its trailers once, and then its end: of a body that has
/// `due` to give at first and is asked again and again, the frames among the answers are the first
/// of `due`, and what is left is the rest. If the body has answered that it is at its end, all of
/// them were given, and every later answer is the same.
pub proof fn law_body_gives_all_in_order(
    left: Seq<Seq<ResponseFrameView>>,
    answers: Seq<Polled<Option<ResponseFrameView>>>,
)
    requires
        left.len() == answers.len() + 1,
        forall|i: int|
            0 <= i < answers.len() ==> gives(#[trigger] left[i], answers[i], left[i + 1]),
    ensures
        left[0] == frames_among(answers) + left.last(),
        forall|i: int, j: int|
            0 <= i <= j < answers.len() && is_end(#[trigger] answers[i]) ==> is_end(
                #[trigger] answers[j],
            ),
        (exists|i: int| 0 <= i < answers.len() && is_end(#[trigger] answers[i])) ==> left[0]
            == frames_among(answers),
    decreases answers.len(),
{
    if answers.len() == 0 {
        assert(frames_among(answers) + left.last() =~= left[0]);
    } else {
        let n = answers.len() - 1;
        let init = left.drop_last();
        let before = answers.drop_last();
        assert forall|i: int| 0 <= i < before.len() implies gives(
            #[trigger] init[i],
            before[i],
            init[i + 1],
        ) by {
            assert(gives(left[i], answers[i], left[i + 1]));
        }
        law_body_gives_all_in_order(init, before);
        assert(gives(left[n], answers[n], left[n + 1]));
        assert(init.last() == left[n]);
        assert(frames_among(answers) + left.last() =~= frames_among(before) + init.last());
        assert forall|i: int, j: int|
            0 <= i <= j < answers.len() && is_end(#[trigger] answers[i]) implies is_end(
            #[trigger] answers[j],
        ) by {
            lemma_nothing_after_the_end(left, answers, i, j);
        }
        if exists|i: int| 0 <= i < answers.len() && is_end(#[trigger] answers[i]) {
            let i = choose|i: int| 0 <= i < answers.len() && is_end(#[trigger] answers[i]);
            lemma_nothing_after_the_end(left, answers, i, n);
            assert(frames_among(answers) + left.last() =~= frames_among(answers));
        }
    }
}

/// A body that has answered that it is at its end stays there.
proof fn lemma_nothing_after_the_end(
    left: Seq<Seq<ResponseFrameView>>,
    answers: Seq<Polled<Option<ResponseFrameView>>>,
    i: int,
    j: int,
)
    requires
        left.len() == answers.len() + 1,
        forall|k: int|
            0 <= k < answers.len() ==> gives(#[trigger] left[k], answers[k], left[k + 1]),
        0 <= i <= j < answers.len(),
        is_end(answers[i]),
    ensures
        is_end(answers[j]),
        left[j + 1].len() == 0,
    decreases j - i,
{
    assert(gives(left[i], answers[i], left[i + 1]));
    if i < j {
        lemma_nothing_after_the_end(left, answers, i, j - 1);
        assert(gives(left[j], answers[j], left[j + 1]));
    }
}

/// Whether a body has answered that it is at its end.
pub open spec fn is_end(answer: Polled<Option<ResponseFrameView>>) -> bool {
    answer matches Polled::Ready(None)
}

/// What the bytes of a response's body come from.
pub enum ResponseBody {
    /// There are no messages: only the trailers are sent.
    TrailersOnly(Trailers),
    /// The messages and trailers of the handler are sent.
    Streaming,
}

/// The beginning of a response.
pub struct GrpcResponse {
    /// The HTTP status.
    pub status: u16,
    /// The HTTP headers.
    pub headers: HeaderMap<HeaderValue>,
    /// What follows.
    pub body: ResponseBody,
}

/// The headers of a response without metadata.
pub open spec fn content_type_headers() -> Map<Seq<char>, Seq<Seq<u8>>> {
    no_headers().insert("content-type"@, seq![encode_utf8("application/grpc"@)])
}

/// The headers of a response: the content type, and behind it the metadata.
pub open spec fn response_headers(custom: Map<Seq<char>, Seq<Seq<u8>>>) -> Map<
    Seq<char>,
    Seq<Seq<u8>>,
> {
    custom.insert(
        "content-type"@,
        seq![encode_utf8("application/grpc"@)] + values_of(custom, "content-type"@),
    )
}

/// The headers of a response without metadata.
fn content_type_header_map() -> (r: HeaderMap<HeaderValue>)
    ensures
        headers(r) == content_type_headers(),
{
    let mut map: HeaderMap<HeaderValue> = HeaderMap::new();
    proof {
        lemma_names();
        reveal_strlit("application/grpc");
        lemma_visible_text("application/grpc"@);
    }
    if let Some(v) = header_value("application/grpc".as_bytes()) {
        set_header(&mut map, "content-type", v);
    }
    map
}

/// A response that consists of trailers with an error.
pub fn trailers_only_error(err: StatusError) -> (r: GrpcResponse)
    ensures
        r.status == 200,
        headers(r.headers) == content_type_headers(),
        r.body matches ResponseBody::TrailersOnly(t) && t@ == bare_trailers(Err(err@)),
{
    GrpcResponse {
        status: 200,
        headers: content_type_header_map(),
        body: ResponseBody::TrailersOnly(Trailers::new(Err(err))),
    }
}

/// A response that begins with the handler's headers.
pub fn streaming_response(response_headers_sent: ResponseHeaders) -> (r: GrpcResponse)
    requires
        as_headers(response_headers_sent@).dom().len() + 1 < HEADER_ROOM,
    ensures
        r.status == 200,
        headers(r.headers) == response_headers(as_headers(response_headers_sent@)),
        r.body is Streaming,
{
    let ghost custom = as_headers(response_headers_sent@);
    let ghost app = encode_utf8("application/grpc"@);
    let ghost names = custom.dom().insert("content-type"@);
    let mut map = content_type_header_map();
    proof {
        lemma_as_headers_size(response_headers_sent@);
        lemma_as_headers_values(response_headers_sent@);
    }
    let header_map = response_headers_sent.metadata().clone().into_headers();
    let list = header_list(&header_map);
    let mut i: usize = 0;
    while i < list.len()
        invariant
            i <= list@.len(),
            names.finite(),
            names.len() < HEADER_ROOM,
            names == custom.dom().insert("content-type"@),
            forall|name: Seq<char>| #[trigger] listed_values(list@, name) == values_of(custom, name),
            no_empty_lists(headers(map)),
            forall|name: Seq<char>| #[trigger]
                values_of(headers(map), name) == values_of(content_type_headers(), name)
                    + listed_values(list@.take(i as int), name),
        decreases list@.len() - i,
    {
        let ghost before = headers(map);
        let ghost sofar = list@.take(i as int);
        let ghost name = name_text(list@[i as int].0);
        proof {
            assert forall|n: Seq<char>| #[trigger] before.dom().contains(n) implies names.contains(
                n,
            ) by {
                assert(values_of(before, n).len() > 0);
                assert(values_of(before, n) == values_of(content_type_headers(), n)
                    + listed_values(sofar, n));
                lemma_listed_grows(list@, i as int, n);
                assert(listed_values(list@, n) == values_of(custom, n));
            }
            lemma_few_names(before, names);
            assert(list@.take(i + 1).drop_last() =~= sofar);
            assert(list@.take(i + 1).last() == list@[i as int]);
        }
        header_append(&mut map, list[i].0.clone(), list[i].1.clone());
        i += 1;
        proof {
            assert forall|n: Seq<char>| #[trigger]
                values_of(headers(map), n) == values_of(content_type_headers(), n)
                    + listed_values(list@.take(i as int), n) by {
                assert(values_of(before, n) == values_of(content_type_headers(), n)
                    + listed_values(sofar, n));
                assert(values_of(headers(map), n) =~= values_of(content_type_headers(), n)
                    + listed_values(list@.take(i as int), n));
            }
        }
    }
    proof {
        assert(list@.take(i as int) =~= list@);
        let all = response_headers(custom);
        assert forall|n: Seq<char>| #[trigger] values_of(headers(map), n) == values_of(all, n) by {
            assert(listed_values(list@, n) == values_of(custom, n));
            assert(values_of(headers(map), n) == values_of(content_type_headers(), n)
                + listed_values(list@, n));
            assert(values_of(headers(map), n) =~= values_of(all, n));
        }
        lemma_same_values(headers(map), all);
    }
    GrpcResponse { status: 200, headers: map, body: ResponseBody::Streaming }
}

/// What to do once it is known whether the handler sends headers.
pub enum HeadersStep {
    /// Send this response.
    Respond(GrpcResponse),
    /// Wait for the handler's trailers: without headers, the response consists of trailers only.
    AwaitTrailers,
}

/// What to do once the handler has sent its headers, or will send none.
pub fn on_response_headers(event: Result<ResponseHeaders, ()>) -> (r: HeadersStep)
    requires
        event matches Ok(h) ==> as_headers(h@).dom().len() + 1 < HEADER_ROOM,
    ensures
        match event {
            Ok(h) => r matches HeadersStep::Respond(resp) && resp.status == 200 && headers(
                resp.headers,
            ) == response_headers(as_headers(h@)) && resp.body is Streaming,
            Err(_) => r is AwaitTrailers,
        },
{
    match event {
        Ok(h) => HeadersStep::Respond(streaming_response(h)),
        Err(_) => HeadersStep::AwaitTrailers,
    }
}

/// The error with which a call ends whose handler sent no headers: the handler's own, or that the
/// handler said nothing.
pub open spec fn error_without_headers(event: Result<TrailersView, ()>) -> StatusErrorView {
    match event {
        Ok(t) => match t.status {
            Err(e) => e,
            Ok(_) => StatusErrorView {
                code: StatusCodeError::Internal,
                message: "handler completed without sending headers or error"@,
            },
        },
        Err(_) => StatusErrorView {
            code: StatusCodeError::Internal,
            message: "handler did not send response headers"@,
        },
    }
}

/// What a handler's end looks like.
pub open spec fn end_view(event: Result<Trailers, ()>) -> Result<TrailersView, ()> {
    match event {
        Ok(t) => Ok(t@),
        Err(_) => Err(()),
    }
}

/// The response of a call whose handler sent no headers and then ended, with trailers or by being
/// dropped.
pub fn on_trailers_without_headers(event: Result<Trailers, ()>) -> (r: GrpcResponse)
    ensures
        r.status == 200,
        headers(r.headers) == content_type_headers(),
        r.body matches ResponseBody::TrailersOnly(t) && t@ == bare_trailers(
            Err(error_without_headers(end_view(event))),
        ),
{
    let err: StatusError = match event {
        Ok(trailers) => match trailers.into_status() {
            Err(e) => e,
            Ok(_) => StatusError::new(
                StatusCodeError::Internal,
                "handler completed without sending headers or error",
            ),
        },
        Err(_) => StatusError::new(
            StatusCodeError::Internal,
            "handler did not send response headers",
        ),
    };
    trailers_only_error(err)
}

/// What can come of asking in a phase of a response's body.
pub enum BodyEvent {
    /// A message is there.
    Message,
    /// There are no more messages.
    NoMore,
    /// The trailers are there, or will never be.
    Trailers,
    /// Nothing is there yet.
    Pending,
}

/// What came of asking for a message.
pub open spec fn data_event(polled: Polled<Option<Bytes>>) -> BodyEvent {
    match polled {
        Polled::Ready(Some(_)) => BodyEvent::Message,
        Polled::Ready(None) => BodyEvent::NoMore,
        Polled::Pending => BodyEvent::Pending,
    }
}

/// What came of asking for the trailers.
pub open spec fn trailers_event(polled: Polled<Result<Trailers, ()>>) -> BodyEvent {
    match polled {
        Polled::Ready(_) => BodyEvent::Trailers,
        Polled::Pending => BodyEvent::Pending,
    }
}

/// The phase after an event.
pub open spec fn phase_after(phase: BodyPhase, event: BodyEvent) -> BodyPhase {
    match (phase, event) {
        (BodyPhase::Data, BodyEvent::NoMore) => BodyPhase::Trailers,
        (BodyPhase::Trailers, BodyEvent::Trailers) => BodyPhase::End,
        _ => phase,
    }
}

/// Whether an event can come in a phase.
pub open spec fn body_can_see(phase: BodyPhase, event: BodyEvent) -> bool {
    match phase {
        BodyPhase::Data => event is Message || event is NoMore || event is Pending,
        BodyPhase::Trailers => event is Trailers || event is Pending,
        BodyPhase::End => false,
    }
}

/// The phase after a list of events.
pub open spec fn phase_after_all(events: Seq<BodyEvent>) -> BodyPhase
    decreases events.len(),
{
    if events.len() == 0 {
        BodyPhase::Data
    } else {
        phase_after(phase_after_all(events.drop_last()), events.last())
    }
}

/// Whether a list of events can come, in this order.
pub open spec fn body_can_see_all(events: Seq<BodyEvent>) -> bool
    decreases events.len(),
{
    events.len() == 0 || (body_can_see_all(events.drop_last()) && body_can_see(
        phase_after_all(events.drop_last()),
        events.last(),
    ))
}

/// A body gives its trailers last and only once: where they stand at index `i` of what happened,
/// nothing stands behind them, no other trailers stand before them, and the body has come to its
/// end.
pub proof fn law_trailers_come_last_and_once(events: Seq<BodyEvent>, i: int)
    requires
        body_can_see_all(events),
        0 <= i < events.len(),
        events[i] is Trailers,
    ensures
        i == events.len() - 1,
        phase_after_all(events) == BodyPhase::End,
        forall|j: int| 0 <= j < i ==> !(#[trigger] events[j] is Trailers),
    decreases events.len(),
{
    let init = events.drop_last();
    if i < events.len() - 1 {
        assert(init[i] is Trailers);
        law_trailers_come_last_and_once(init, i);
    }
    assert forall|j: int| 0 <= j < i implies !(#[trigger] events[j] is Trailers) by {
        if events[j] is Trailers {
            assert(init[j] is Trailers);
            law_trailers_come_last_and_once(init, j);
        }
    }
}

/// The trailers of a response carry the metadata of the handler, the status and the message,
/// whatever the status is. Under each name of the metadata stands the last of its values. Where the
/// metadata does not say otherwise, `grpc-status` is read as the number of the code, 0 for success,
/// and `grpc-message` is the message of an error in percent-encoding, and is there only where an
/// error has one. Nothing else is there.
pub proof fn law_trailers_carry_everything(t: TrailersView)
    ensures
        forall|name: Seq<char>| #[trigger]
            as_headers(t.metadata).dom().contains(name) ==> values_of(trailing_headers(t), name)
                == seq![as_headers(t.metadata)[name].last()],
        !as_headers(t.metadata).dom().contains("grpc-status"@) ==> {
            let told = values_of(trailing_headers(t), "grpc-status"@);
            &&& told.len() == 1
            &&& unsigned_value(told[0]) == Some(
                match t.status {
                    Ok(_) => 0nat,
                    Err(e) => e.code.number() as nat,
                },
            )
        },
        !as_headers(t.metadata).dom().contains("grpc-message"@) ==> {
            let told = values_of(trailing_headers(t), "grpc-message"@);
            match t.status {
                Ok(_) => told.len() == 0,
                Err(e) => if e.message.len() == 0 {
                    told.len() == 0
                } else {
                    told.len() == 1 && unescaped(told[0]) == encode_utf8(e.message)
                        && is_visible(told[0])
                },
            }
        },
        forall|name: Seq<char>| #[trigger]
            trailing_headers(t).dom().contains(name) ==> as_headers(t.metadata).dom().contains(name)
                || name == "grpc-status"@ || name == "grpc-message"@,
{
    lemma_names();
    lemma_as_headers_values(t.metadata);
    if let Err(e) = t.status {
        law_decimal_reads_back(e.code.number() as nat);
        law_unescaped_of_escaped(encode_utf8(e.message));
        law_escaped_is_visible(encode_utf8(e.message));
    } else {
        law_decimal_reads_back(0);
        reveal_strlit("0");
        assert("0"@ =~= decimal(0));
    }
}

/// The trailers of a response whose handler gave none tell an internal error, and why.
pub proof fn law_missing_trailers_are_an_error()
    ensures
        ({
            let told = missing_trailing_headers();
            &&& values_of(told, "grpc-status"@).len() == 1
            &&& unsigned_value(values_of(told, "grpc-status"@)[0]) == Some(
                StatusCodeError::Internal.number() as nat,
            )
            &&& values_of(told, "grpc-message"@) == seq![
                encode_utf8("handler did not return trailers"@),
            ]
            &&& forall|name: Seq<char>| #[trigger]
                told.dom().contains(name) ==> name == "grpc-status"@ || name == "grpc-message"@
        }),
{
    lemma_names();
    law_decimal_reads_back(13);
}

/// What a client reads from the trailers of a response has, under every key of the metadata whose
/// entries can travel, the last value that the handler gave to that key, whatever the status is.
pub proof fn law_trailing_metadata_is_read_back(
    t: TrailersView,
    read: Seq<EntryView>,
    key: Seq<char>,
)
    requires
        forall|i: int| 0 <= i < t.metadata.len() ==> can_travel(#[trigger] t.metadata[i]),
        forall|name: Seq<char>| #[trigger]
            are_read_from(
                name,
                values_under(read, name),
                values_of(trailing_headers(t), name),
            ),
        values_under(t.metadata, key).len() > 0,
    ensures
        values_under(read, key) == seq![values_under(t.metadata, key).last()],
{
    lemma_headers_are_read(t.metadata, key);
    law_trailers_carry_everything(t);
    let bytes = values_of(as_headers(t.metadata), key);
    let told = values_of(trailing_headers(t), key);
    assert(as_headers(t.metadata).dom().contains(key));
    assert(told == seq![bytes.last()]);
    assert(are_read_from(key, values_under(read, key), told));
    assert(value_from_wire(key, bytes[bytes.len() - 1]) == Some(
        values_under(t.metadata, key)[bytes.len() - 1],
    ));
    assert(value_from_wire(key, told[0]) == Some(values_under(read, key)[0]));
    assert(values_under(read, key) =~= seq![values_under(t.metadata, key).last()]);
}

/// The headers of a response carry the handler's metadata: under each name stand all of its values,
/// in order. The content type is that of gRPC, with what the handler gave to it behind.
pub proof fn law_response_headers_carry_metadata(metadata: Seq<EntryView>, name: Seq<char>)
    ensures
        ({
            let told = values_of(response_headers(as_headers(metadata)), name);
            let given = values_of(as_headers(metadata), name);
            if name == "content-type"@ {
                &&& told.len() == given.len() + 1
                &&& told[0] == encode_utf8("application/grpc"@)
                &&& told.skip(1) == given
            } else {
                told == given
            }
        }),
{
    let given = values_of(as_headers(metadata), name);
    let first = seq![encode_utf8("application/grpc"@)];
    assert((first + given).skip(1) =~= given);
}

/// What a client reads from the headers of a response has, under every key but the content type's,
/// the values that the handler gave to it, in order.
pub proof fn law_initial_metadata_is_read_back(
    metadata: Seq<EntryView>,
    read: Seq<EntryView>,
    key: Seq<char>,
)
    requires
        forall|i: int| 0 <= i < metadata.len() ==> can_travel(#[trigger] metadata[i]),
        forall|name: Seq<char>| #[trigger]
            are_read_from(
                name,
                values_under(read, name),
                values_of(response_headers(as_headers(metadata)), name),
            ),
        key != "content-type"@,
    ensures
        values_under(read, key) == values_under(metadata, key),
{
    law_response_headers_carry_metadata(metadata, key);
    lemma_headers_are_read(metadata, key);
    let bytes = values_of(as_headers(metadata), key);
    assert(are_read_from(key, values_under(read, key), bytes));
    assert forall|i: int| 0 <= i < bytes.len() implies values_under(read, key)[i] == values_under(
        metadata,
        key,
    )[i] by {
        assert(value_from_wire(key, bytes[i]) == Some(values_under(read, key)[i]));
        assert(value_from_wire(key, bytes[i]) == Some(values_under(metadata, key)[i]));
    }
    assert(values_under(read, key) =~= values_under(metadata, key));
}

/// A call whose handler sent no headers ends with an error: the one that the handler ended with, as
/// it is, or an internal one where it ended with success or was dropped.
pub proof fn law_no_headers_is_an_error(event: Result<TrailersView, ()>)
    ensures
        event matches Ok(t) ==> (t.status matches Err(e) ==> error_without_headers(event) == e),
        !(event matches Ok(t) && t.status is Err) ==> {
            &&& error_without_headers(event).code.number() == 13
            &&& error_without_headers(event).message.len() > 0
        },
        error_without_headers(Err(())).message == "handler did not send response headers"@,
        forall|t: TrailersView|
            t.status is Ok ==> (#[trigger] error_without_headers(Ok(t))).message
                == "handler completed without sending headers or error"@,
{
    reveal_strlit("handler completed without sending headers or error");
    reveal_strlit("handler did not send response headers");
}


/// The details of an error reach the client: what it reads from the trailers of a response whose
/// call ended with an error has the payloads of the error, besides its code and its message. The
/// headers are read into `t`, the number of `grpc-status` as the code and `grpc-message` without
/// its percent-encoding as the message, which the trailers carry as they are.
pub proof fn law_error_details_reach_the_client(
    e: RichErrorView,
    t: TrailersView,
    type_url: Seq<u8>,
)
    requires
        can_come_back(Err(e)),
        can_be_serialized(e.message, e.payloads),
        valid_utf8(type_url),
        t.status == trailers_of(Err(e)).status,
        forall|name: Seq<char>| #[trigger]
            are_read_from(
                name,
                values_under(t.metadata, name),
                values_of(trailing_headers(trailers_of(Err(e))), name),
            ),
    ensures
        told_status(t) matches Err(told) && told.code == e.code && told.message == e.message
            && payload_of(told.payloads, type_url) == payload_of(e.payloads, type_url),
{
    let key = "grpc-status-details-bin"@;
    let sent = trailers_of(Err(e));
    law_error_is_told(Err(e), type_url);
    reveal_strlit("grpc-status-details-bin");
    reveal_strlit("grpc-status");
    reveal_strlit("grpc-message");
    assert(is_name(key));
    law_binary_names_end_with_bin(key);
    if e.payloads.len() == 0 {
        law_trailers_carry_everything(sent);
        assert(as_headers(sent.metadata).dom() =~= Set::empty());
        assert(key.len() != "grpc-status"@.len() && key.len() != "grpc-message"@.len());
        assert(!trailing_headers(sent).dom().contains(key));
        assert(are_read_from(
            key,
            values_under(t.metadata, key),
            values_of(trailing_headers(sent), key),
        ));
        lemma_first_binary(t.metadata, key);
        assert(e.payloads =~= Seq::empty());
    } else {
        let b = first_binary(sent.metadata, key);
        let entry = sent.metadata.last();
        assert(sent.metadata.len() == 1) by {
            reveal(Seq::filter);
        }
        assert(sent.metadata[0] == entry && entry.0 == key && entry.1 is Binary);
        assert(can_travel(entry));
        assert(values_under(sent.metadata, key) =~= seq![entry.1]) by {
            assert(values_under(sent.metadata.drop_last(), key).len() == 0);
        }
        law_trailing_metadata_is_read_back(sent, t.metadata, key);
        lemma_first_binary(t.metadata, key);
        lemma_first_binary(sent.metadata, key);
    }
}

/// What is found under a key with one value, or with none.
proof fn lemma_first_binary(entries: Seq<EntryView>, key: Seq<char>)
    requires
        values_under(entries, key).len() <= 1,
    ensures
        values_under(entries, key).len() == 0 ==> first_binary(entries, key) is None,
        values_under(entries, key).len() == 1 && values_under(entries, key)[0] is Binary
            ==> first_binary(entries, key) == Some(values_under(entries, key)[0]->Binary_0),
{
    law_first_binary_is_the_first(entries, key);
    if values_under(entries, key).len() == 0 {
        if let Some(b) = first_binary(entries, key) {
            let i = choose|i: int|
                0 <= i < entries.len() && #[trigger] entries[i] == (
                    key,
                    MetadataValueView::Binary(b),
                );
            lemma_value_under(entries, key, i);
        }
    } else if values_under(entries, key)[0] is Binary {
        lemma_has_value(entries, key);
        let k = choose|k: int|
            0 <= k < entries.len() && (#[trigger] entries[k]).0 == key && entries[k].1
                == values_under(entries, key)[0];
        if let Some(b) = first_binary(entries, key) {
            let i = choose|i: int|
                0 <= i < entries.len() && #[trigger] entries[i] == (
                    key,
                    MetadataValueView::Binary(b),
                );
            lemma_value_under(entries, key, i);
        }
    }
}

/// An entry's value is among the values under its key.
proof fn lemma_value_under(entries: Seq<EntryView>, key: Seq<char>, i: int)
    requires
        0 <= i < entries.len(),
        entries[i].0 == key,
    ensures
        values_under(entries, key).contains(entries[i].1),
        values_under(entries, key).len() > 0,
    decreases entries.len(),
{
    let before = entries.drop_last();
    if i < before.len() {
        assert(before[i] == entries[i]);
        lemma_value_under(before, key, i);
        let j = choose|j: int|
            0 <= j < values_under(before, key).len() && values_under(before, key)[j]
                == entries[i].1;
        assert(values_under(entries, key)[j] == entries[i].1);
    } else {
        let all = values_under(entries, key);
        assert(all[all.len() - 1] == entries[i].1);
    }
}

/// The first value under a key is that of an entry.
proof fn lemma_has_value(entries: Seq<EntryView>, key: Seq<char>)
    requires
        values_under(entries, key).len() > 0,
    ensures
        exists|k: int|
            0 <= k < entries.len() && (#[trigger] entries[k]).0 == key && entries[k].1
                == values_under(entries, key)[0],
    decreases entries.len(),
{
    let before = entries.drop_last();
    if values_under(before, key).len() > 0 {
        lemma_has_value(before, key);
        let k = choose|k: int|
            0 <= k < before.len() && (#[trigger] before[k]).0 == key && before[k].1
                == values_under(before, key)[0];
        assert(entries[k] == before[k]);
    } else {
        let last = entries.len() - 1;
        assert(entries[last].0 == key);
    }
}

/// A body always ends with trailers that tell how the call ended: the handler's where it gave some,
/// and an internal error where it did not.
pub proof fn law_body_ends_with_status(
    messages: Seq<Seq<u8>>,
    end: Result<TrailersView, ()>,
    i: int,
)
    ensures
        ({
            let frames = due(BodyPhase::Data, messages, end);
            &&& frames.len() == messages.len() + 1
            &&& 0 <= i < messages.len() ==> frames[i] == ResponseFrameView::Data(messages[i])
            &&& frames.last() is Trailers
            &&& end matches Ok(t) ==> frames.last()->Trailers_0 == trailing_headers(t)
            &&& end is Err ==> unsigned_value(
                values_of(frames.last()->Trailers_0, "grpc-status"@)[0],
            ) == Some(StatusCodeError::Internal.number() as nat)
        }),
{
    law_missing_trailers_are_an_error();
}


/// The headers of a response without metadata are the content type of gRPC, and nothing else.
pub proof fn law_plain_response_headers(name: Seq<char>)
    ensures
        values_of(content_type_headers(), "content-type"@) == seq![
            encode_utf8("application/grpc"@),
        ],
        name != "content-type"@ ==> values_of(content_type_headers(), name).len() == 0,
{
}

} // verus!
