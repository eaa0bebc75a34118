//! The sending side of a call: headers and bytes on their way to the client.

use crate::buf::{contents, Buf};
use crate::codec::lpm::{frame_of, frames_of, LpmMessage};
use crate::metadata::EntryView;
use crate::rpc::{item_view, ItemView, ResponseHeaders, SendMessage, ServerResponseStreamItem};
use crate::server::interceptor::http2_framing::{framed_send, framed_sends};
use crate::server::{Layer, SendOptions, SendStream, Sent};
use bytes::Bytes;
use vstd::prelude::*;

verus! {

/// What a response is made of, besides its trailers.
pub enum ResponsePart {
    /// The headers.
    Headers(Seq<EntryView>),
    /// Bytes of the body.
    Body(Seq<u8>),
}

/// What was handed to a response, and whether it was taken.
pub struct Handed {
    /// What was handed over.
    pub part: ResponsePart,
    /// Whether it was taken.
    pub ok: bool,
}

/// What takes the headers and the body of a response.
///
/// A sink is described by what was handed to it. Whether it takes it is up to the sink.
pub trait ResponseSink: Sized {
    /// Whether the sink is in a usable state.
    open spec fn inv(&self) -> bool {
        true
    }

    /// What was handed over, in order.
    open spec fn handed(&self) -> Seq<Handed> {
        arbitrary()
    }

    /// Hands the headers over.
    fn put_headers(&mut self, headers: ResponseHeaders) -> (r: Result<(), ()>)
        requires
            old(self).inv(),
        ensures
            final(self).inv(),
            final(self).handed() == old(self).handed().push(
                (Handed { part: ResponsePart::Headers(headers@), ok: r is Ok }),
            ),
    ;

    /// Hands bytes of the body over.
    fn put_body(&mut self, bytes: Bytes) -> (r: Result<(), ()>)
        requires
            old(self).inv(),
        ensures
            final(self).inv(),
            final(self).handed() == old(self).handed().push(
                (Handed { part: ResponsePart::Body(contents(bytes)), ok: r is Ok }),
            ),
    ;
}

/// One part of a response that was taken.
pub enum TakenPart {
    /// The headers.
    Headers(ResponseHeaders),
    /// Bytes of the body.
    Body(Bytes),
}

/// A response that is gathered.
pub struct GatheredResponse {
    /// What was handed over, in order.
    pub parts: Vec<TakenPart>,
}

/// What a part that was taken is.
pub open spec fn taken(part: TakenPart) -> Handed {
    match part {
        TakenPart::Headers(h) => Handed { part: ResponsePart::Headers(h@), ok: true },
        TakenPart::Body(b) => Handed { part: ResponsePart::Body(contents(b)), ok: true },
    }
}

impl GatheredResponse {
    /// A response of which nothing is there yet.
    pub fn new() -> (r: Self)
        ensures
            r.parts@.len() == 0,
            r.handed() == Seq::<Handed>::empty(),
    {
        let r = GatheredResponse { parts: Vec::new() };
        assert(r.handed() =~= Seq::<Handed>::empty());
        r
    }
}

impl ResponseSink for GatheredResponse {
    open spec fn inv(&self) -> bool {
        true
    }

    open spec fn handed(&self) -> Seq<Handed> {
        self.parts@.map_values(|p: TakenPart| taken(p))
    }

    fn put_headers(&mut self, headers: ResponseHeaders) -> (r: Result<(), ()>) {
        let part = TakenPart::Headers(headers);
        self.parts.push(part);
        assert(self.handed() =~= old(self).handed().push(taken(part)));
        Ok(())
    }

    fn put_body(&mut self, bytes: Bytes) -> (r: Result<(), ()>) {
        let part = TakenPart::Body(bytes);
        self.parts.push(part);
        assert(self.handed() =~= old(self).handed().push(taken(part)));
        Ok(())
    }
}

/// Whether headers are among what was sent.
pub open spec fn headers_sent(log: Seq<Sent>) -> bool {
    exists|i: int| 0 <= i < log.len() && (#[trigger] log[i]).item is Headers
}

/// What an item becomes on its way, after the sends of `log`. Headers are refused once headers were
/// sent, and so is a message that cannot be encoded.
pub open spec fn part_of(log: Seq<Sent>, item: ItemView) -> Option<ResponsePart> {
    match item {
        ItemView::Headers(h) => if headers_sent(log) {
            None
        } else {
            Some(ResponsePart::Headers(h))
        },
        ItemView::Message(Ok(bytes)) => Some(ResponsePart::Body(bytes)),
        ItemView::Message(Err(_)) => None,
    }
}

/// What is handed to a response by sends.
pub open spec fn handed_by(log: Seq<Sent>) -> Seq<Handed>
    decreases log.len(),
{
    if log.len() == 0 {
        Seq::empty()
    } else {
        let before = handed_by(log.drop_last());
        match part_of(log.drop_last(), log.last().item) {
            Some(part) => before.push(Handed { part, ok: log.last().ok }),
            None => before,
        }
    }
}

/// Whether no send succeeded that is refused.
pub open spec fn refusals_fail(log: Seq<Sent>) -> bool {
    forall|i: int|
        0 <= i < log.len() && part_of(log.take(i), (#[trigger] log[i]).item) is None ==> !log[i].ok
}

/// The lowest sending stream: it hands the headers, once, to the response, and the bytes of each
/// message to its body.
pub struct HttpSendStream<S> {
    sink: S,
    headers_sent: bool,
    log: Ghost<Seq<Sent>>,
}

impl<S: ResponseSink> HttpSendStream<S> {
    /// A stream to a response of which nothing is there yet.
    pub fn new(sink: S) -> (r: Self)
        requires
            sink.inv(),
            sink.handed().len() == 0,
        ensures
            r.inv(),
            r.sent() == Seq::<Sent>::empty(),
            r.origin() == Seq::<Layer>::empty(),
    {
        assert(sink.handed() =~= Seq::<Handed>::empty());
        HttpSendStream { sink, headers_sent: false, log: Ghost(Seq::empty()) }
    }

    /// The response as it was handed over.
    pub fn into_sink(self) -> (r: S)
        requires
            self.inv(),
        ensures
            r.inv(),
            r.handed() == handed_by(self.sent()),
            refusals_fail(self.sent()),
    {
        self.sink
    }
}

impl<S: ResponseSink> SendStream for HttpSendStream<S> {
    closed spec fn inv(&self) -> bool {
        &&& self.sink.inv()
        &&& self.sink.handed() == handed_by(self.log@)
        &&& self.headers_sent == headers_sent(self.log@)
        &&& refusals_fail(self.log@)
    }

    closed spec fn sent(&self) -> Seq<Sent> {
        self.log@
    }

    closed spec fn origin(&self) -> Seq<Layer> {
        Seq::empty()
    }

    fn send<M: SendMessage>(
        &mut self,
        item: ServerResponseStreamItem<'_, M>,
        options: SendOptions,
    ) -> (r: Result<(), ()>) {
        let ghost view = item_view(item);
        let r = match item {
            ServerResponseStreamItem::Headers(h) => {
                if self.headers_sent {
                    Err(())
                } else {
                    self.headers_sent = true;
                    self.sink.put_headers(h)
                }
            },
            ServerResponseStreamItem::Message(msg) => {
                match msg.encode() {
                    Ok(buf) => {
                        let mut buf = buf;
                        let ghost all = buf.bytes();
                        let len: usize = buf.remaining();
                        let bytes = buf.copy_to_bytes(len);
                        assert(all.take(len as int) =~= all);
                        self.sink.put_body(bytes)
                    },
                    Err(_) => Err(()),
                }
            },
        };
        proof {
            let before = self.log@;
            let entry = Sent { item: view, options, ok: r is Ok };
            self.log@ = before.push(entry);
            let log = self.log@;
            assert(log.drop_last() =~= before);
            assert(log.last() == entry);
            assert(headers_sent(log) == (headers_sent(before) || view is Headers)) by {
                if headers_sent(before) {
                    let i = choose|i: int|
                        0 <= i < before.len() && (#[trigger] before[i]).item is Headers;
                    assert(log[i].item is Headers);
                }
                if headers_sent(log) && !(view is Headers) {
                    let i = choose|i: int| 0 <= i < log.len() && (#[trigger] log[i]).item is Headers;
                    assert(before[i].item is Headers);
                }
            }
            assert forall|i: int|
                0 <= i < log.len() && part_of(log.take(i), (#[trigger] log[i]).item) is None implies
                !log[i].ok by {
                if i < before.len() {
                    assert(log.take(i) =~= before.take(i));
                    assert(log[i] == before[i]);
                } else {
                    assert(log.take(i) =~= before);
                }
            }
        }
        r
    }
}

/// Headers among what was handed over were among what was sent.
proof fn lemma_handed_headers(log: Seq<Sent>, i: int)
    requires
        0 <= i < handed_by(log).len(),
        handed_by(log)[i].part is Headers,
    ensures
        headers_sent(log),
    decreases log.len(),
{
    let before = log.drop_last();
    if i < handed_by(before).len() {
        lemma_handed_headers(before, i);
        let k = choose|k: int| 0 <= k < before.len() && (#[trigger] before[k]).item is Headers;
        assert(log[k].item is Headers);
    } else {
        assert(log[log.len() - 1].item is Headers);
    }
}

/// A response gets headers once: whatever is sent, no more than one of the parts that are handed
/// over is headers.
pub proof fn law_headers_go_once(log: Seq<Sent>, i: int, j: int)
    requires
        0 <= i < handed_by(log).len(),
        0 <= j < handed_by(log).len(),
        handed_by(log)[i].part is Headers,
        handed_by(log)[j].part is Headers,
    ensures
        i == j,
    decreases log.len(),
{
    let before = log.drop_last();
    if i < handed_by(before).len() {
        lemma_handed_headers(before, i);
    }
    if j < handed_by(before).len() {
        lemma_handed_headers(before, j);
    }
    if i < handed_by(before).len() && j < handed_by(before).len() {
        law_headers_go_once(before, i, j);
    }
}

/// The bytes of the body among what was handed to a response.
pub open spec fn body_of(handed: Seq<Handed>) -> Seq<u8>
    decreases handed.len(),
{
    if handed.len() == 0 {
        Seq::empty()
    } else {
        let before = body_of(handed.drop_last());
        match handed.last().part {
            ResponsePart::Body(bytes) => before + bytes,
            ResponsePart::Headers(_) => before,
        }
    }
}

/// The messages among what was sent, as they go into frames.
pub open spec fn messages_of(output: Seq<Sent>) -> Seq<LpmMessage>
    decreases output.len(),
{
    if output.len() == 0 {
        Seq::empty()
    } else {
        let before = messages_of(output.drop_last());
        match output.last().item {
            ItemView::Message(Ok(payload)) => before.push(
                LpmMessage { compressed: false, payload },
            ),
            _ => before,
        }
    }
}

/// One more frame at the end.
proof fn lemma_frames_push(messages: Seq<LpmMessage>, m: LpmMessage)
    ensures
        frames_of(messages.push(m)) == frames_of(messages) + frame_of(m.compressed, m.payload),
    decreases messages.len(),
{
    if messages.len() == 0 {
        let one = messages.push(m);
        assert(one.skip(1) =~= Seq::empty());
        assert(frames_of(one.skip(1)) =~= Seq::empty());
        assert(frames_of(one) =~= frame_of(m.compressed, m.payload));
        assert(frames_of(messages) + frame_of(m.compressed, m.payload) =~= frame_of(
            m.compressed,
            m.payload,
        ));
    } else {
        let first = messages[0];
        lemma_frames_push(messages.skip(1), m);
        assert(messages.push(m).skip(1) =~= messages.skip(1).push(m));
        assert(frames_of(messages.push(m)) =~= frames_of(messages) + frame_of(
            m.compressed,
            m.payload,
        ));
    }
}

/// The body of a response holds what the handler sent: where all sends of a handler behind the
/// framing layer succeed, the body is made of the frames of its messages, in their order.
pub proof fn law_body_holds_what_was_sent(output: Seq<Sent>)
    requires
        refusals_fail(framed_sends(output)),
        forall|i: int| 0 <= i < output.len() ==> (#[trigger] output[i]).ok,
    ensures
        body_of(handed_by(framed_sends(output))) == frames_of(messages_of(output)),
    decreases output.len(),
{
    let log = framed_sends(output);
    if output.len() == 0 {
        assert(log =~= Seq::empty());
    } else {
        let before = output.drop_last();
        assert(framed_sends(before) =~= log.drop_last());
        assert forall|i: int|
            0 <= i < before.len() && part_of(
                framed_sends(before).take(i),
                (#[trigger] framed_sends(before)[i]).item,
            ) is None implies !framed_sends(before)[i].ok by {
            assert(framed_sends(before).take(i) =~= log.take(i));
            assert(log[i] == framed_sends(before)[i]);
        }
        assert forall|i: int| 0 <= i < before.len() implies (#[trigger] before[i]).ok by {
            assert(before[i] == output[i]);
        }
        law_body_holds_what_was_sent(before);
        let n = output.len() - 1;
        assert(log[n] == framed_send(output[n]));
        assert(log.take(n) =~= log.drop_last());
        assert(output[n].ok);
        assert(log[n].ok);
        assert(part_of(log.take(n), log[n].item) is Some);
        let handed = handed_by(log);
        assert(handed.drop_last() =~= handed_by(log.drop_last()));
        if let ItemView::Message(Ok(payload)) = output[n].item {
            lemma_frames_push(messages_of(before), LpmMessage { compressed: false, payload });
        }
    }
}

/// What was handed over by the first sends stays at the front.
proof fn lemma_handed_by_first(log: Seq<Sent>, i: int)
    requires
        0 <= i <= log.len(),
    ensures
        handed_by(log.take(i)).is_prefix_of(handed_by(log)),
    decreases log.len() - i,
{
    if i == log.len() {
        assert(log.take(i) =~= log);
    } else {
        assert(log.take(i + 1).drop_last() =~= log.take(i));
        lemma_handed_by_first(log, i + 1);
    }
}

/// Each send is handed to the response as it is, in the order of the sends: headers with their
/// metadata, where none were sent before, and the bytes of each message that has any. With each goes
/// whether the response took it. Later headers, and messages that cannot be encoded, hand nothing
/// over.
pub proof fn law_sends_are_handed_on(log: Seq<Sent>, i: int)
    requires
        0 <= i < log.len(),
    ensures
        handed_by(log.take(0)).len() == 0,
        handed_by(log.take(i + 1)).is_prefix_of(handed_by(log)),
        handed_by(log.take(i)).is_prefix_of(handed_by(log.take(i + 1))),
        ({
            let before = handed_by(log.take(i)).len() as int;
            let after = handed_by(log.take(i + 1));
            match log[i].item {
                ItemView::Headers(h) => if exists|j: int| 0 <= j < i && (#[trigger] log[j]).item
                    is Headers {
                    after.len() == before
                } else {
                    &&& after.len() == before + 1
                    &&& after[before].part == ResponsePart::Headers(h)
                    &&& after[before].ok == log[i].ok
                },
                ItemView::Message(Ok(bytes)) => {
                    &&& after.len() == before + 1
                    &&& after[before].part == ResponsePart::Body(bytes)
                    &&& after[before].ok == log[i].ok
                },
                ItemView::Message(Err(_)) => after.len() == before,
            }
        }),
{
    let first = log.take(i);
    assert(log.take(0) =~= Seq::empty());
    assert(log.take(i + 1).drop_last() =~= first);
    assert(log.take(i + 1).last() == log[i]);
    lemma_handed_by_first(log, i + 1);
    assert(headers_sent(first) == exists|j: int| 0 <= j < i && (#[trigger] log[j]).item
        is Headers) by {
        if headers_sent(first) {
            let j = choose|j: int| 0 <= j < first.len() && (#[trigger] first[j]).item is Headers;
            assert(log[j].item is Headers);
        }
        if exists|j: int| 0 <= j < i && (#[trigger] log[j]).item is Headers {
            let j = choose|j: int| 0 <= j < i && (#[trigger] log[j]).item is Headers;
            assert(first[j].item is Headers);
        }
    }
}

/// The headers that a response gets are the first that the handler sends behind the framing layer,
/// with all of their metadata, and no others.
pub proof fn law_response_gets_first_headers(output: Seq<Sent>, i: int, h: Seq<EntryView>)
    requires
        0 <= i < output.len(),
        output[i].item == ItemView::Headers(h),
        forall|j: int| 0 <= j < i ==> !((#[trigger] output[j]).item is Headers),
    ensures
        exists|k: int|
            0 <= k < handed_by(framed_sends(output)).len() && (#[trigger] handed_by(
                framed_sends(output),
            )[k]).part == ResponsePart::Headers(h) && handed_by(framed_sends(output))[k].ok
                == output[i].ok,
        forall|k: int|
            0 <= k < handed_by(framed_sends(output)).len() && (#[trigger] handed_by(
                framed_sends(output),
            )[k]).part is Headers ==> handed_by(framed_sends(output))[k].part
                == ResponsePart::Headers(h),
{
    let log = framed_sends(output);
    let handed = handed_by(log);
    assert(log[i] == framed_send(output[i]));
    assert forall|j: int| 0 <= j < i implies !((#[trigger] log[j]).item is Headers) by {
        assert(log[j] == framed_send(output[j]));
    }
    law_sends_are_handed_on(log, i);
    let k = handed_by(log.take(i)).len() as int;
    assert(handed_by(log.take(i + 1)) =~= handed.take(k + 1));
    assert(handed[k] == handed.take(k + 1)[k]);
    assert(handed[k].part == ResponsePart::Headers(h));
    assert forall|j: int| 0 <= j < handed.len() && (#[trigger] handed[j]).part is Headers implies
        handed[j].part == ResponsePart::Headers(h) by {
        law_headers_go_once(log, j, k);
    }
}

/// A message that the handler sends behind the framing layer is handed to the body of the response
/// in a frame, behind what was sent before it.
pub proof fn law_response_gets_each_message(output: Seq<Sent>, i: int, payload: Seq<u8>)
    requires
        0 <= i < output.len(),
        output[i].item == ItemView::Message(Ok(payload)),
        5 + payload.len() <= usize::MAX,
    ensures
        ({
            let handed = handed_by(framed_sends(output));
            let k = handed_by(framed_sends(output.take(i))).len() as int;
            &&& k < handed.len()
            &&& handed[k].part == ResponsePart::Body(frame_of(false, payload))
            &&& handed[k].ok == output[i].ok
        }),
{
    let log = framed_sends(output);
    let handed = handed_by(log);
    assert(log[i] == framed_send(output[i]));
    law_sends_are_handed_on(log, i);
    assert(log.take(i) =~= framed_sends(output.take(i)));
    let k = handed_by(log.take(i)).len() as int;
    assert(handed_by(log.take(i + 1)) =~= handed.take(k + 1));
    assert(handed[k] == handed.take(k + 1)[k]);
}


/// What a response does not get is not said to be sent: headers that come after others, and a
/// message that cannot be encoded, are answered with a failure.
pub proof fn law_refused_sends_fail(log: Seq<Sent>, i: int, j: int)
    requires
        refusals_fail(log),
        0 <= i < j < log.len(),
    ensures
        log[i].item is Headers && log[j].item is Headers ==> !log[j].ok,
        log[j].item matches ItemView::Message(Err(_)) ==> !log[j].ok,
        log[i].item matches ItemView::Message(Err(_)) ==> !log[i].ok,
{
    if log[i].item is Headers {
        assert(log.take(j)[i].item is Headers);
        assert(headers_sent(log.take(j)));
    }
}

/// A gathered response holds what was handed to it, part by part, and takes everything.
pub proof fn law_gathered_parts(response: GatheredResponse, i: int)
    requires
        0 <= i < response.parts@.len(),
    ensures
        response.handed().len() == response.parts@.len(),
        response.handed()[i].ok,
        response.parts@[i] matches TakenPart::Headers(h) ==> response.handed()[i].part
            == ResponsePart::Headers(h@),
        response.parts@[i] matches TakenPart::Body(b) ==> response.handed()[i].part
            == ResponsePart::Body(contents(b)),
{
}

} // verus!
