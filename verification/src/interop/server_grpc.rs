//! The handlers of the test service.

use crate::client::CallOptions;
use crate::interop::messages::{
    empty_output_request, empty_simple_request, law_payload_response_reads_back,
    law_sum_response_reads_back, payload_bytes, payload_response, sum_response_bytes, Empty,
    Payload, ResponseParameters, SimpleRequest, SimpleRequestView, SimpleResponse,
    StreamingInputCallRequest, StreamingInputCallResponse, StreamingOutputCallRequest,
    StreamingOutputCallResponse,
};
use crate::metadata::{
    first_binary, first_text, law_insert_changes_one_key, values_under, with_entry,
    MetadataValueView,
};
use crate::protobuf::merge::{after_bytes, MergeFields};
use crate::protobuf::message::{
    encoding_of, Message, ParseMessage, ProtoRecvMessage, ProtoSendMessage, SerializeMessage,
};
use crate::protobuf::rpc_status::int32_of;
use crate::protobuf::wire::{lemma_delimited_size, MAX_GROUP_DEPTH, MAX_LENGTH};
use crate::rpc::{
    bare_trailers, error_trailers, item_view, ItemView, RecvItem, RequestHeaders, ResponseHeaders,
    SendMessage, ServerResponseStreamItem, Trailers, TrailersView,
};
use crate::server::descriptor::{
    method_views, MethodDescriptor, MethodDescriptorView, MethodType, ServiceDescriptor,
};
use crate::server::interceptor::Intercept;
use crate::server::service::{Service, ServiceRegistrar};
use crate::server::{
    default_send_options, Call, Handle, Input, Layer, RecvStream, SendOptions, SendStream, Sent,
};
use crate::status::{StatusCodeError, StatusError};
use crate::text::copied;
use vstd::prelude::*;

verus! {

/// Whether what was sent are these items, without options. Whether each send succeeds does not
/// matter.
pub open spec fn sent_items(output: Seq<Sent>, items: Seq<ItemView>) -> bool {
    &&& output.len() == items.len()
    &&& forall|i: int|
        0 <= i < output.len() ==> (#[trigger] output[i]).item == items[i] && output[i].options
            == default_send_options()
}

/// Headers without metadata.
pub open spec fn plain_headers() -> ItemView {
    ItemView::Headers(Seq::empty())
}

/// A message that was serialized to these bytes, or could not be.
pub open spec fn message_item(serialized: Option<Seq<u8>>) -> ItemView {
    ItemView::Message(encoding_of(serialized))
}

/// So many zeros.
pub open spec fn zeros(n: int) -> Seq<u8> {
    Seq::new(n as nat, |i: int| 0u8)
}

/// How a call ends: what is sent, and the trailers.
pub struct Ending {
    /// What is sent.
    pub items: Seq<ItemView>,
    /// The trailers.
    pub trailers: TrailersView,
}

/// A call that ends with an error before anything is sent.
pub open spec fn refused(code: StatusCodeError, message: Seq<char>) -> Ending {
    Ending { items: Seq::empty(), trailers: error_trailers(code, message) }
}

/// Whether a call ends in this way.
pub open spec fn ends(call: Call, ending: Ending) -> bool {
    sent_items(call.output, ending.items) && call.trailers == ending.trailers
}

/// A payload of so many zeros.
pub fn server_payload(size: usize) -> (r: Payload)
    ensures
        r.body@ == zeros(size as int),
{
    let mut body: Vec<u8> = Vec::new();
    let mut i: usize = 0;
    while i < size
        invariant
            i <= size,
            body@.len() == i,
            forall|j: int| 0 <= j < i ==> #[trigger] body@[j] == 0,
        decreases size - i,
    {
        body.push(0);
        i += 1;
    }
    assert(body@ =~= zeros(size as int));
    Payload { body }
}

/// Sends headers without metadata.
fn send_headers<Tx: SendStream>(tx: &mut Tx)
    requires
        old(tx).inv(),
    ensures
        final(tx).inv(),
        final(tx).origin() == old(tx).origin(),
        exists|ok: bool|
            final(tx).sent() == #[trigger] old(tx).sent().push(
                (Sent { item: plain_headers(), options: default_send_options(), ok }),
            ),
{
    let r = tx.send(
        ServerResponseStreamItem::<ProtoSendMessage<'_, Empty>>::Headers(ResponseHeaders::new()),
        SendOptions::default(),
    );
    assert(tx.sent() == old(tx).sent().push(
        (Sent { item: plain_headers(), options: default_send_options(), ok: r is Ok }),
    ));
}

/// Sends a message.
fn send_message<Tx: SendStream, M: SerializeMessage>(tx: &mut Tx, message: &M)
    requires
        old(tx).inv(),
    ensures
        final(tx).inv(),
        final(tx).origin() == old(tx).origin(),
        exists|ok: bool|
            final(tx).sent() == #[trigger] old(tx).sent().push(
                (Sent {
                    item: message_item(message.serialized()),
                    options: default_send_options(),
                    ok,
                }),
            ),
{
    let send = ProtoSendMessage::from_view(message);
    let r = tx.send(ServerResponseStreamItem::Message(&send), SendOptions::default());
    assert(tx.sent() == old(tx).sent().push(
        (Sent {
            item: message_item(message.serialized()),
            options: default_send_options(),
            ok: r is Ok,
        }),
    ));
}

/// One more item is sent.
proof fn lemma_sent_one(output: Seq<Sent>, items: Seq<ItemView>, s: Sent)
    requires
        sent_items(output, items),
        s.options == default_send_options(),
    ensures
        sent_items(output.push(s), items.push(s.item)),
{
    assert forall|i: int| 0 <= i < output.push(s).len() implies (
    #[trigger] output.push(s)[i]).item == items.push(s.item)[i] && output.push(s)[i].options
        == default_send_options() by {
        if i < output.len() {
            assert(output.push(s)[i] == output[i]);
        }
    }
}

/// How a call to `EmptyCall` ends.
pub open spec fn empty_call(input: Input) -> Ending {
    if input.messages.len() == 0 && !input.fails {
        refused(StatusCodeError::Internal, "no request message received"@)
    } else if input.messages.len() == 0 || !Empty::is_readable(input.messages[0].bytes) {
        refused(StatusCodeError::Internal, "failed to receive request"@)
    } else {
        Ending {
            items: seq![plain_headers(), message_item(Some(Seq::empty()))],
            trailers: bare_trailers(Ok(())),
        }
    }
}

/// The handler of `EmptyCall`: it answers an empty message by an empty message.
#[derive(Debug, Clone, Copy)]
pub struct EmptyCallHandler {}

impl Handle for EmptyCallHandler {
    open spec fn inv(&self) -> bool {
        true
    }

    open spec fn handled(&self, call: Call) -> bool {
        ends(call, empty_call(call.input))
    }

    fn handle<Tx: SendStream, Rx: RecvStream>(
        &self,
        headers: RequestHeaders,
        options: CallOptions,
        tx: Tx,
        rx: Rx,
    ) -> (r: (Trailers, Tx)) {
        let mut rx = rx;
        let mut tx = tx;
        let ghost before = tx.sent();
        proof {
            assert(before.skip(before.len() as int) =~= Seq::empty());
        }
        let mut recv = ProtoRecvMessage::new(Empty::new_message());
        match rx.next(&mut recv) {
            Some(Ok(())) => {},
            Some(Err(())) => {
                return (
                    Trailers::new(
                        Err(StatusError::new(StatusCodeError::Internal, "failed to receive request")),
                    ),
                    tx,
                );
            },
            None => {
                return (
                    Trailers::new(
                        Err(
                            StatusError::new(
                                StatusCodeError::Internal,
                                "no request message received",
                            ),
                        ),
                    ),
                    tx,
                );
            },
        }
        send_headers(&mut tx);
        let ghost one = tx.sent().skip(before.len() as int);
        assert(sent_items(one, seq![plain_headers()]));
        let response = Empty {  };
        send_message(&mut tx, &response);
        proof {
            let two = tx.sent().skip(before.len() as int);
            assert(two.drop_last() =~= one);
            assert(two =~= one.push(two.last()));
            lemma_sent_one(one, seq![plain_headers()], two.last());
            assert(seq![plain_headers()].push(two.last().item) =~= seq![
                plain_headers(),
                message_item(Some(Seq::empty())),
            ]);
        }
        (Trailers::new(Ok(())), tx)
    }
}

/// How a call to `UnaryCall` ends for a request.
pub open spec fn unary_answer(request: SimpleRequestView) -> Ending {
    if request.response_status.code != 0 {
        refused(
            StatusCodeError::of_number(request.response_status.code),
            request.response_status.message,
        )
    } else if request.response_size < 0 {
        refused(StatusCodeError::InvalidArgument, "response_size cannot be negative"@)
    } else {
        Ending {
            items: seq![
                plain_headers(),
                message_item(payload_response(zeros(request.response_size))),
            ],
            trailers: bare_trailers(Ok(())),
        }
    }
}

/// How a call to `UnaryCall` ends.
pub open spec fn unary_call(input: Input) -> Ending {
    if input.messages.len() == 0 && !input.fails {
        refused(StatusCodeError::Internal, "no request message received"@)
    } else if input.messages.len() == 0 {
        refused(StatusCodeError::Internal, "failed to receive request"@)
    } else {
        match after_bytes::<SimpleRequest>(empty_simple_request(), input.messages[0].bytes, MAX_GROUP_DEPTH as nat) {
            Some(request) => unary_answer(request),
            None => refused(StatusCodeError::Internal, "failed to receive request"@),
        }
    }
}

/// The handler of `UnaryCall`: it answers by a payload of the size that was asked for, or by the
/// status that was asked for.
#[derive(Debug, Clone, Copy)]
pub struct UnaryCallHandler {}

impl Handle for UnaryCallHandler {
    open spec fn inv(&self) -> bool {
        true
    }

    open spec fn handled(&self, call: Call) -> bool {
        ends(call, unary_call(call.input))
    }

    fn handle<Tx: SendStream, Rx: RecvStream>(
        &self,
        headers: RequestHeaders,
        options: CallOptions,
        tx: Tx,
        rx: Rx,
    ) -> (r: (Trailers, Tx)) {
        let mut rx = rx;
        let mut tx = tx;
        let ghost before = tx.sent();
        proof {
            assert(before.skip(before.len() as int) =~= Seq::empty());
        }
        let mut recv = ProtoRecvMessage::new(SimpleRequest::new_message());
        match rx.next(&mut recv) {
            Some(Ok(())) => {},
            Some(Err(())) => {
                return (
                    Trailers::new(
                        Err(StatusError::new(StatusCodeError::Internal, "failed to receive request")),
                    ),
                    tx,
                );
            },
            None => {
                return (
                    Trailers::new(
                        Err(
                            StatusError::new(
                                StatusCodeError::Internal,
                                "no request message received",
                            ),
                        ),
                    ),
                    tx,
                );
            },
        }
        let request = recv.into_message();
        if request.response_status.code != 0 {
            let code = StatusCodeError::from_number(request.response_status.code);
            let trailers = Trailers::new(
                Err(StatusError::with_text(code, request.response_status.message)),
            );
            return (trailers, tx);
        }
        if request.response_size < 0 {
            return (
                Trailers::new(
                    Err(
                        StatusError::new(
                            StatusCodeError::InvalidArgument,
                            "response_size cannot be negative",
                        ),
                    ),
                ),
                tx,
            );
        }
        let size: usize = request.response_size as usize;
        send_headers(&mut tx);
        let ghost one = tx.sent().skip(before.len() as int);
        assert(sent_items(one, seq![plain_headers()]));
        let response = SimpleResponse { payload: server_payload(size) };
        send_message(&mut tx, &response);
        proof {
            let two = tx.sent().skip(before.len() as int);
            assert(two.drop_last() =~= one);
            assert(two =~= one.push(two.last()));
            lemma_sent_one(one, seq![plain_headers()], two.last());
            assert(seq![plain_headers()].push(two.last().item) =~= seq![
                plain_headers(),
                message_item(payload_response(zeros(size as int))),
            ]);
        }
        (Trailers::new(Ok(())), tx)
    }
}

/// The handler of `UnimplementedCall`: it always answers that the call is not implemented.
#[derive(Debug, Clone, Copy)]
pub struct UnimplementedCallHandler {}

impl Handle for UnimplementedCallHandler {
    open spec fn inv(&self) -> bool {
        true
    }

    open spec fn handled(&self, call: Call) -> bool {
        ends(call, refused(StatusCodeError::Unimplemented, ""@))
    }

    fn handle<Tx: SendStream, Rx: RecvStream>(
        &self,
        headers: RequestHeaders,
        options: CallOptions,
        tx: Tx,
        rx: Rx,
    ) -> (r: (Trailers, Tx)) {
        assert(tx.sent().skip(tx.sent().len() as int) =~= Seq::empty());
        (Trailers::new(Err(StatusError::new(StatusCodeError::Unimplemented, ""))), tx)
    }
}

/// The responses of the given sizes. They end before a size that is negative.
pub open spec fn responses_of(sizes: Seq<int>) -> Seq<ItemView>
    decreases sizes.len(),
{
    if sizes.len() == 0 || sizes[0] < 0 {
        Seq::empty()
    } else {
        seq![message_item(payload_response(zeros(sizes[0])))] + responses_of(sizes.skip(1))
    }
}

/// Whether no size is negative.
pub open spec fn are_sizes(sizes: Seq<int>) -> bool {
    forall|i: int| 0 <= i < sizes.len() ==> #[trigger] sizes[i] >= 0
}

/// Sends one response for each size, and stops at one that is negative. Returns whether there was
/// none.
fn send_responses<Tx: SendStream>(tx: &mut Tx, request: &StreamingOutputCallRequest) -> (r: bool)
    requires
        old(tx).inv(),
    ensures
        final(tx).inv(),
        final(tx).origin() == old(tx).origin(),
        old(tx).sent().is_prefix_of(final(tx).sent()),
        sent_items(
            final(tx).sent().skip(old(tx).sent().len() as int),
            responses_of(request.says().sizes),
        ),
        r == are_sizes(request.says().sizes),
{
    let ghost before = tx.sent();
    let ghost sizes = request.says().sizes;
    let ghost mut done: Seq<ItemView> = Seq::empty();
    proof {
        assert(before.skip(before.len() as int) =~= Seq::empty());
        assert(sizes.skip(0) =~= sizes);
        assert(done + responses_of(sizes) =~= responses_of(sizes));
    }
    let mut i: usize = 0;
    while i < request.response_parameters.len()
        invariant
            i <= request.response_parameters@.len(),
            sizes == request.says().sizes,
            before == old(tx).sent(),
            tx.inv(),
            tx.origin() == old(tx).origin(),
            before.is_prefix_of(tx.sent()),
            sent_items(tx.sent().skip(before.len() as int), done),
            responses_of(sizes) == done + responses_of(sizes.skip(i as int)),
            forall|j: int| 0 <= j < i ==> #[trigger] sizes[j] >= 0,
        decreases request.response_parameters@.len() - i,
    {
        let size: i32 = request.response_parameters[i].size;
        assert(sizes[i as int] == size);
        assert(sizes.skip(i as int)[0] == size);
        if size < 0 {
            assert(done + responses_of(sizes.skip(i as int)) =~= done);
            return false;
        }
        let response = StreamingOutputCallResponse { payload: server_payload(size as usize) };
        let ghost sofar = tx.sent();
        send_message(tx, &response);
        proof {
            let s = tx.sent().last();
            assert(tx.sent().skip(before.len() as int) =~= sofar.skip(before.len() as int).push(s));
            lemma_sent_one(sofar.skip(before.len() as int), done, s);
            assert(sizes.skip(i as int).skip(1) =~= sizes.skip(i + 1));
            assert(done.push(s.item) + responses_of(sizes.skip(i + 1)) =~= done + responses_of(
                sizes.skip(i as int),
            ));
            done = done.push(s.item);
        }
        i += 1;
    }
    assert(done + responses_of(sizes.skip(i as int)) =~= done);
    true
}

/// The trailers of a call whose responses have the given sizes.
pub open spec fn trailers_of_sizes(sizes: Seq<int>) -> TrailersView {
    if are_sizes(sizes) {
        bare_trailers(Ok(()))
    } else {
        negative_size()
    }
}

/// The trailers of a call that asks for a response of negative size.
pub open spec fn negative_size() -> TrailersView {
    error_trailers(StatusCodeError::InvalidArgument, "response_size cannot be negative"@)
}

/// How a call to `StreamingOutputCall` ends.
pub open spec fn streaming_output_call(input: Input) -> Ending {
    if input.messages.len() == 0 {
        refused(StatusCodeError::Internal, "failed to receive request"@)
    } else {
        match after_bytes::<StreamingOutputCallRequest>(
            empty_output_request(),
            input.messages[0].bytes,
            MAX_GROUP_DEPTH as nat,
        ) {
            Some(request) => Ending {
                items: seq![plain_headers()] + responses_of(request.sizes),
                trailers: trailers_of_sizes(request.sizes),
            },
            None => refused(StatusCodeError::Internal, "failed to receive request"@),
        }
    }
}

/// The error of a call that asks for a response of negative size.
fn negative_size_error() -> (r: Trailers)
    ensures
        r@ == negative_size(),
{
    Trailers::new(
        Err(
            StatusError::new(StatusCodeError::InvalidArgument, "response_size cannot be negative"),
        ),
    )
}

/// The handler of `StreamingOutputCall`: it sends one response for each size that was asked for.
#[derive(Debug, Clone, Copy)]
pub struct StreamingOutputCallHandler {}

/// Items that are sent behind others.
proof fn lemma_sent_more(a: Seq<Sent>, x: Seq<ItemView>, b: Seq<Sent>, y: Seq<ItemView>)
    requires
        sent_items(a, x),
        sent_items(b, y),
    ensures
        sent_items(a + b, x + y),
{
    assert forall|i: int| 0 <= i < (a + b).len() implies (#[trigger] (a + b)[i]).item == (x + y)[i]
        && (a + b)[i].options == default_send_options() by {
        if i < a.len() {
            assert((a + b)[i] == a[i]);
        } else {
            assert((a + b)[i] == b[i - a.len()]);
        }
    }
}

impl Handle for StreamingOutputCallHandler {
    open spec fn inv(&self) -> bool {
        true
    }

    open spec fn handled(&self, call: Call) -> bool {
        ends(call, streaming_output_call(call.input))
    }

    fn handle<Tx: SendStream, Rx: RecvStream>(
        &self,
        headers: RequestHeaders,
        options: CallOptions,
        tx: Tx,
        rx: Rx,
    ) -> (r: (Trailers, Tx)) {
        let mut rx = rx;
        let mut tx = tx;
        let ghost before = tx.sent();
        proof {
            assert(before.skip(before.len() as int) =~= Seq::empty());
        }
        let mut recv = ProtoRecvMessage::new(StreamingOutputCallRequest::new_message());
        match rx.next(&mut recv) {
            Some(Ok(())) => {},
            _ => {
                return (
                    Trailers::new(
                        Err(StatusError::new(StatusCodeError::Internal, "failed to receive request")),
                    ),
                    tx,
                );
            },
        }
        let request = recv.into_message();
        send_headers(&mut tx);
        let ghost first = tx.sent();
        let ghost one = tx.sent().skip(before.len() as int);
        assert(sent_items(one, seq![plain_headers()]));
        let all_sent = send_responses(&mut tx, &request);
        proof {
            let more = tx.sent().skip(first.len() as int);
            assert(tx.sent().skip(before.len() as int) =~= one + more);
            lemma_sent_more(
                one,
                seq![plain_headers()],
                more,
                responses_of(request.says().sizes),
            );
        }
        if all_sent {
            (Trailers::new(Ok(())), tx)
        } else {
            (negative_size_error(), tx)
        }
    }
}

/// The sum of the sizes of the payloads of a stream of requests, and whether all of them could be
/// read and the stream came to a normal end.
pub open spec fn summed(input: Input) -> (nat, bool)
    decreases input.messages.len(),
{
    if input.messages.len() == 0 {
        (0, !input.fails)
    } else {
        match after_bytes::<StreamingInputCallRequest>(
            Seq::<u8>::empty(),
            input.messages[0].bytes,
            MAX_GROUP_DEPTH as nat,
        ) {
            Some(body) => {
                let rest = summed(
                    Input { messages: input.messages.skip(1), fails: input.fails },
                );
                (body.len() + rest.0, rest.1)
            },
            None => (0, false),
        }
    }
}

/// Adds a size to a sum that is kept in 32 bits.
fn add_size(sum: u32, size: usize) -> (r: u32)
    ensures
        r == (sum + size as int % 0x1_0000_0000) % 0x1_0000_0000,
{
    let low: u64 = size as u64 % 0x1_0000_0000;
    ((sum as u64 + low) % 0x1_0000_0000) as u32
}

/// How a call to `StreamingInputCall` ends.
pub open spec fn streaming_input_call(input: Input) -> Ending {
    let (sum, ok) = summed(input);
    if ok {
        Ending {
            items: seq![plain_headers(), message_item(Some(sum_response_bytes(int32_of(sum))))],
            trailers: bare_trailers(Ok(())),
        }
    } else {
        refused(StatusCodeError::Internal, "failed to receive streaming request"@)
    }
}

/// The handler of `StreamingInputCall`: it answers by the sum of the sizes of all payloads. The sum
/// is kept in 32 bits.
#[derive(Debug, Clone, Copy)]
pub struct StreamingInputCallHandler {}

impl Handle for StreamingInputCallHandler {
    open spec fn inv(&self) -> bool {
        true
    }

    open spec fn handled(&self, call: Call) -> bool {
        ends(call, streaming_input_call(call.input))
    }

    fn handle<Tx: SendStream, Rx: RecvStream>(
        &self,
        headers: RequestHeaders,
        options: CallOptions,
        tx: Tx,
        rx: Rx,
    ) -> (r: (Trailers, Tx)) {
        let mut requests = rx;
        let mut out = tx;
        let ghost before = tx.sent();
        let ghost input = rx.input();
        let ghost mut total: nat = 0;
        let mut sum: u32 = 0;
        proof {
            assert(before.skip(before.len() as int) =~= Seq::empty());
        }
        loop
            invariant_except_break
                requests.inv(),
                !requests.ended(),
                sum as nat == total % 0x1_0000_0000,
                summed(input).0 == total + summed(requests.input()).0,
                summed(input).1 == summed(requests.input()).1,
            invariant
                input == rx.input(),
                before == tx.sent(),
                out.inv(),
                out.origin() == tx.origin(),
                out.sent() == before,
                before.skip(before.len() as int) == Seq::<Sent>::empty(),
            ensures
                summed(input) == (total, true),
                sum as nat == total % 0x1_0000_0000,
            decreases requests.input().messages.len(),
        {
            let ghost here = requests.input();
            let mut recv = ProtoRecvMessage::new(StreamingInputCallRequest::new_message());
            match requests.next(&mut recv) {
                Some(Ok(())) => {
                    let request = recv.into_message();
                    let len: usize = request.payload.body.len();
                    sum = add_size(sum, len);
                    proof {
                        vstd::arithmetic::div_mod::lemma_add_mod_noop(
                            total as int,
                            len as int,
                            0x1_0000_0000,
                        );
                        let body = request.payload.body@;
                        assert(after_bytes::<StreamingInputCallRequest>(
                            Seq::<u8>::empty(),
                            here.messages[0].bytes,
                            MAX_GROUP_DEPTH as nat,
                        ) == Some(body));
                        total = total + body.len();
                    }
                },
                Some(Err(())) => {
                    return (
                        Trailers::new(
                            Err(
                                StatusError::new(
                                    StatusCodeError::Internal,
                                    "failed to receive streaming request",
                                ),
                            ),
                        ),
                        out,
                    );
                },
                None => {
                    break ;
                },
            }
        }
        let aggregated_payload_size: i32 = if sum < 0x8000_0000 {
            sum as i32
        } else {
            (sum as i64 - 0x1_0000_0000) as i32
        };
        assert(aggregated_payload_size == int32_of(total));
        send_headers(&mut out);
        let ghost one = out.sent().skip(before.len() as int);
        assert(sent_items(one, seq![plain_headers()]));
        let response = StreamingInputCallResponse { aggregated_payload_size };
        send_message(&mut out, &response);
        proof {
            let two = out.sent().skip(before.len() as int);
            assert(two.drop_last() =~= one);
            assert(two =~= one.push(two.last()));
            lemma_sent_one(one, seq![plain_headers()], two.last());
            assert(seq![plain_headers()].push(two.last().item) =~= seq![
                plain_headers(),
                message_item(Some(sum_response_bytes(int32_of(total)))),
            ]);
        }
        (Trailers::new(Ok(())), out)
    }
}

/// What is sent in answer to a stream of requests, behind the headers, and the trailers.
pub open spec fn duplex(input: Input) -> Ending
    decreases input.messages.len(),
{
    if input.messages.len() == 0 {
        if input.fails {
            refused(StatusCodeError::Internal, "failed to receive streaming request"@)
        } else {
            Ending { items: Seq::empty(), trailers: bare_trailers(Ok(())) }
        }
    } else {
        match after_bytes::<StreamingOutputCallRequest>(
            empty_output_request(),
            input.messages[0].bytes,
            MAX_GROUP_DEPTH as nat,
        ) {
            None => refused(StatusCodeError::Internal, "failed to receive streaming request"@),
            Some(request) => if request.response_status.code != 0 {
                refused(
                    StatusCodeError::of_number(request.response_status.code),
                    request.response_status.message,
                )
            } else if !are_sizes(request.sizes) {
                Ending { items: responses_of(request.sizes), trailers: negative_size() }
            } else {
                let rest = duplex(
                    Input { messages: input.messages.skip(1), fails: input.fails },
                );
                Ending {
                    items: responses_of(request.sizes) + rest.items,
                    trailers: rest.trailers,
                }
            },
        }
    }
}

/// How a call to `FullDuplexCall` ends.
pub open spec fn full_duplex_call(input: Input) -> Ending {
    Ending {
        items: seq![plain_headers()] + duplex(input).items,
        trailers: duplex(input).trailers,
    }
}

/// The handler of `FullDuplexCall`: it sends, for each request, one response for each size that was
/// asked for, until a request asks for a status.
#[derive(Debug, Clone, Copy)]
pub struct FullDuplexCallHandler {}

impl Handle for FullDuplexCallHandler {
    open spec fn inv(&self) -> bool {
        true
    }

    open spec fn handled(&self, call: Call) -> bool {
        ends(call, full_duplex_call(call.input))
    }

    fn handle<Tx: SendStream, Rx: RecvStream>(
        &self,
        headers: RequestHeaders,
        options: CallOptions,
        tx: Tx,
        rx: Rx,
    ) -> (r: (Trailers, Tx)) {
        let mut requests = rx;
        let mut out = tx;
        let ghost before = tx.sent();
        let ghost input = rx.input();
        send_headers(&mut out);
        let ghost mut done: Seq<ItemView> = seq![plain_headers()];
        proof {
            assert(sent_items(out.sent().skip(before.len() as int), done));
            assert(before.is_prefix_of(out.sent()));
        }
        loop
            invariant
                requests.inv(),
                !requests.ended(),
                out.inv(),
                input == rx.input(),
                before == tx.sent(),
                out.origin() == tx.origin(),
                before.is_prefix_of(out.sent()),
                sent_items(out.sent().skip(before.len() as int), done),
                full_duplex_call(input).items == done + duplex(requests.input()).items,
                full_duplex_call(input).trailers == duplex(requests.input()).trailers,
            decreases requests.input().messages.len(),
        {
            let ghost here = requests.input();
            let ghost sofar = out.sent();
            let mut recv = ProtoRecvMessage::new(StreamingOutputCallRequest::new_message());
            match requests.next(&mut recv) {
                Some(Ok(())) => {
                    let request = recv.into_message();
                    proof {
                        assert(after_bytes::<StreamingOutputCallRequest>(
                            empty_output_request(),
                            here.messages[0].bytes,
                            MAX_GROUP_DEPTH as nat,
                        ) == Some(request.says()));
                    }
                    if request.response_status.code != 0 {
                        let code = StatusCodeError::from_number(request.response_status.code);
                        assert(done + Seq::<ItemView>::empty() =~= done);
                        return (
                            Trailers::new(
                                Err(StatusError::with_text(code, request.response_status.message)),
                            ),
                            out,
                        );
                    }
                    let all_sent = send_responses(&mut out, &request);
                    proof {
                        let more = out.sent().skip(sofar.len() as int);
                        let items = responses_of(request.says().sizes);
                        assert(out.sent().skip(before.len() as int) =~= sofar.skip(
                            before.len() as int,
                        ) + more);
                        lemma_sent_more(sofar.skip(before.len() as int), done, more, items);
                        if all_sent {
                            let rest = duplex(
                                Input { messages: here.messages.skip(1), fails: here.fails },
                            );
                            assert(done + (items + rest.items) =~= (done + items) + rest.items);
                        }
                        done = done + items;
                    }
                    if !all_sent {
                        return (negative_size_error(), out);
                    }
                },
                Some(Err(())) => {
                    assert(done + Seq::<ItemView>::empty() =~= done);
                    return (
                        Trailers::new(
                            Err(
                                StatusError::new(
                                    StatusCodeError::Internal,
                                    "failed to receive streaming request",
                                ),
                            ),
                        ),
                        out,
                    );
                },
                None => {
                    assert(done + Seq::<ItemView>::empty() =~= done);
                    return (Trailers::new(Ok(())), out);
                },
            }
        }
    }
}

/// Whether headers were sent.
pub open spec fn has_headers(sends: Seq<Sent>) -> bool
    decreases sends.len(),
{
    sends.len() > 0 && (sends.last().item is Headers || has_headers(sends.drop_last()))
}

/// A send as it reaches the stream below: where it is the first headers and there is something to
/// echo, with the echo in its metadata.
pub open spec fn echoed_send(s: Sent, echo: Option<Seq<char>>, first: bool) -> Sent {
    match (s.item, echo) {
        (ItemView::Headers(h), Some(v)) => if first {
            Sent {
                item: ItemView::Headers(
                    with_entry(h, "x-grpc-test-echo-initial"@, MetadataValueView::Ascii(v)),
                ),
                options: s.options,
                ok: s.ok,
            }
        } else {
            s
        },
        _ => s,
    }
}

/// Sends as they reach the stream below: the first headers carry the echo.
pub open spec fn echoed_sends(sends: Seq<Sent>, echo: Option<Seq<char>>) -> Seq<Sent>
    decreases sends.len(),
{
    if sends.len() == 0 {
        Seq::empty()
    } else {
        let before = sends.drop_last();
        echoed_sends(before, echo).push(echoed_send(sends.last(), echo, !has_headers(before)))
    }
}

/// The text in an optional value.
pub open spec fn text_view(s: Option<String>) -> Option<Seq<char>> {
    match s {
        Some(t) => Some(t@),
        None => None,
    }
}

/// The layer that echoes, on a stream on which this had been sent.
pub open spec fn echo_layer(below: Seq<Sent>, echo: Option<Seq<char>>) -> Layer {
    Layer {
        below,
        settings: match echo {
            Some(v) => seq![("x-grpc-test-echo-initial"@, MetadataValueView::Ascii(v))],
            None => Seq::empty(),
        },
    }
}

/// A sending stream that puts an echo into the first headers.
pub struct EchoSendStream<S> {
    inner: S,
    echo_initial: Option<String>,
    base: Ghost<Seq<Sent>>,
    log: Ghost<Seq<Sent>>,
    echo: Ghost<Option<Seq<char>>>,
}

impl<S: SendStream> EchoSendStream<S> {
    /// What is echoed.
    pub closed spec fn spec_echo(&self) -> Option<Seq<char>> {
        self.echo@
    }

    /// Puts the echo on a stream.
    pub fn new(inner: S, echo_initial: Option<String>) -> (r: Self)
        requires
            inner.inv(),
        ensures
            r.inv(),
            r.sent() == Seq::<Sent>::empty(),
            r.origin() == inner.origin().push(echo_layer(inner.sent(), text_view(echo_initial))),
    {
        let r = EchoSendStream {
            inner,
            echo_initial,
            base: Ghost(inner.sent()),
            log: Ghost(Seq::empty()),
            echo: Ghost(text_view(echo_initial)),
        };
        assert(r.base@ + echoed_sends(r.log@, r.echo@) =~= inner.sent());
        r
    }

    /// Takes the layer off.
    pub fn into_inner(self) -> (r: S)
        requires
            self.inv(),
        ensures
            r.inv(),
            r.origin() == self.origin().drop_last(),
            self.origin().last() == echo_layer(self.origin().last().below, self.spec_echo()),
            r.sent() == self.origin().last().below + echoed_sends(self.sent(), self.spec_echo()),
    {
        assert(self.origin().drop_last() =~= self.inner.origin());
        self.inner
    }
}

impl<S: SendStream> SendStream for EchoSendStream<S> {
    closed spec fn inv(&self) -> bool {
        &&& self.inner.inv()
        &&& self.inner.sent() == self.base@ + echoed_sends(self.log@, self.echo@)
        &&& text_view(self.echo_initial) == if has_headers(self.log@) {
            None
        } else {
            self.echo@
        }
    }

    closed spec fn sent(&self) -> Seq<Sent> {
        self.log@
    }

    closed spec fn origin(&self) -> Seq<Layer> {
        self.inner.origin().push(echo_layer(self.base@, self.echo@))
    }

    fn send<M: SendMessage>(
        &mut self,
        item: ServerResponseStreamItem<'_, M>,
        options: SendOptions,
    ) -> (r: Result<(), ()>) {
        let ghost view = item_view(item);
        let r = match item {
            ServerResponseStreamItem::Headers(h) => {
                let mut h = h;
                if let Some(val) = self.echo_initial.take() {
                    h.metadata_mut().insert("x-grpc-test-echo-initial", val.as_str());
                }
                self.inner.send(ServerResponseStreamItem::<M>::Headers(h), options)
            },
            ServerResponseStreamItem::Message(m) => {
                self.inner.send(ServerResponseStreamItem::Message(m), options)
            },
        };
        proof {
            let entry = Sent { item: view, options, ok: r is Ok };
            self.log@ = self.log@.push(entry);
            assert(self.log@.drop_last() =~= old(self).log@);
            assert(self.inner.sent() =~= self.base@ + echoed_sends(self.log@, self.echo@));
        }
        r
    }
}

/// The trailers with an echo, where there is one.
pub open spec fn echoed_trailers(t: TrailersView, echo: Option<Seq<u8>>) -> TrailersView {
    match echo {
        Some(v) => TrailersView {
            metadata: with_entry(
                t.metadata,
                "x-grpc-test-echo-trailing-bin"@,
                MetadataValueView::Binary(v),
            ),
            ..t
        },
        None => t,
    }
}

/// An interceptor that echoes two headers of the request: `x-grpc-test-echo-initial` in the headers
/// of the response, and `x-grpc-test-echo-trailing-bin` in its trailers.
#[derive(Debug, Clone, Copy)]
pub struct EchoMetadataInterceptor {}

impl Intercept for EchoMetadataInterceptor {
    open spec fn inv(&self) -> bool {
        true
    }

    open spec fn intercepted(&self, next: spec_fn(Call) -> bool, call: Call) -> bool {
        exists|output: Seq<Sent>, trailers: TrailersView|
            {
                &&& #[trigger] next(Call { output, trailers, ..call })
                &&& call.output == echoed_sends(
                    output,
                    first_text(call.headers.metadata, "x-grpc-test-echo-initial"@),
                )
                &&& call.trailers == echoed_trailers(
                    trailers,
                    first_binary(call.headers.metadata, "x-grpc-test-echo-trailing-bin"@),
                )
            }
    }

    fn intercept<Tx: SendStream, Rx: RecvStream, H: Handle>(
        &self,
        headers: RequestHeaders,
        options: CallOptions,
        tx: Tx,
        rx: Rx,
        next: &H,
    ) -> (r: (Trailers, Tx)) {
        let ghost input = rx.input();
        let echo_initial: Option<String> = match headers.metadata().get("x-grpc-test-echo-initial") {
            Some(v) => Some(String::from_str(v)),
            None => None,
        };
        let echo_trailing: Option<Vec<u8>> = match headers.metadata().get_bin(
            "x-grpc-test-echo-trailing-bin",
        ) {
            Some(v) => Some(copied(v)),
            None => None,
        };
        let ghost echo = text_view(echo_initial);
        let echo_tx = EchoSendStream::new(tx, echo_initial);
        let (trailers, echo_tx_back) = next.handle(headers, options, echo_tx, rx);
        let ghost output = echo_tx_back.sent();
        let ghost told = trailers@;
        let ghost stack = echo_tx_back.origin();
        let tx_back = echo_tx_back.into_inner();
        let mut trailers = trailers;
        if let Some(val) = echo_trailing {
            trailers.metadata_mut().insert_bin(
                "x-grpc-test-echo-trailing-bin",
                val.as_slice(),
            );
        }
        proof {
            assert(stack == tx.origin().push(echo_layer(tx.sent(), echo)));
            assert(stack.drop_last() =~= tx.origin());
            lemma_same_echo(tx.sent(), echo, echo_tx_back.spec_echo());
            assert(output.skip(0) =~= output);
            assert(tx_back.sent().skip(tx.sent().len() as int) =~= echoed_sends(output, echo));
            let f = |c: Call| next.handled(c);
            let call = Call {
                headers: headers@,
                options,
                input,
                output: tx_back.sent().skip(tx.sent().len() as int),
                trailers: trailers@,
            };
            assert(f(Call { output, trailers: told, ..call }));
            assert(self.intercepted(f, call));
        }
        (trailers, tx_back)
    }
}

/// Layers that echo are the same only if what they echo is.
proof fn lemma_same_echo(below: Seq<Sent>, a: Option<Seq<char>>, b: Option<Seq<char>>)
    ensures
        echo_layer(below, a) == echo_layer(below, b) ==> a == b,
{
    let x = echo_layer(below, a).settings;
    let y = echo_layer(below, b).settings;
    if x == y {
        assert(x.len() == y.len());
        if a is Some && b is Some {
            assert(x[0] == y[0]);
        }
    }
}

/// The handler of one method of the test service.
#[derive(Debug, Clone, Copy)]
pub enum TestServiceHandler {
    /// `EmptyCall`.
    EmptyCall(EmptyCallHandler),
    /// `UnaryCall`.
    UnaryCall(UnaryCallHandler),
    /// `UnimplementedCall`.
    UnimplementedCall(UnimplementedCallHandler),
    /// `StreamingOutputCall`.
    StreamingOutputCall(StreamingOutputCallHandler),
    /// `StreamingInputCall`.
    StreamingInputCall(StreamingInputCallHandler),
    /// `FullDuplexCall`.
    FullDuplexCall(FullDuplexCallHandler),
}

impl Handle for TestServiceHandler {
    open spec fn inv(&self) -> bool {
        true
    }

    open spec fn handled(&self, call: Call) -> bool {
        match self {
            TestServiceHandler::EmptyCall(h) => h.handled(call),
            TestServiceHandler::UnaryCall(h) => h.handled(call),
            TestServiceHandler::UnimplementedCall(h) => h.handled(call),
            TestServiceHandler::StreamingOutputCall(h) => h.handled(call),
            TestServiceHandler::StreamingInputCall(h) => h.handled(call),
            TestServiceHandler::FullDuplexCall(h) => h.handled(call),
        }
    }

    fn handle<Tx: SendStream, Rx: RecvStream>(
        &self,
        headers: RequestHeaders,
        options: CallOptions,
        tx: Tx,
        rx: Rx,
    ) -> (r: (Trailers, Tx)) {
        match self {
            TestServiceHandler::EmptyCall(h) => h.handle(headers, options, tx, rx),
            TestServiceHandler::UnaryCall(h) => h.handle(headers, options, tx, rx),
            TestServiceHandler::UnimplementedCall(h) => h.handle(headers, options, tx, rx),
            TestServiceHandler::StreamingOutputCall(h) => h.handle(headers, options, tx, rx),
            TestServiceHandler::StreamingInputCall(h) => h.handle(headers, options, tx, rx),
            TestServiceHandler::FullDuplexCall(h) => h.handle(headers, options, tx, rx),
        }
    }
}

/// A method of the test service.
pub open spec fn test_method(path: Seq<char>, method_type: MethodType) -> MethodDescriptorView {
    MethodDescriptorView { full_path: path, method_type }
}

/// The methods of the test service.
pub open spec fn test_methods() -> Seq<(MethodDescriptorView, TestServiceHandler)> {
    seq![
        (
            test_method("/grpc.testing.TestService/EmptyCall"@, MethodType::Unary),
            TestServiceHandler::EmptyCall(EmptyCallHandler {  }),
        ),
        (
            test_method("/grpc.testing.TestService/UnaryCall"@, MethodType::Unary),
            TestServiceHandler::UnaryCall(UnaryCallHandler {  }),
        ),
        (
            test_method("/grpc.testing.TestService/UnimplementedCall"@, MethodType::Unary),
            TestServiceHandler::UnimplementedCall(UnimplementedCallHandler {  }),
        ),
        (
            test_method(
                "/grpc.testing.TestService/StreamingOutputCall"@,
                MethodType::ServerStreaming,
            ),
            TestServiceHandler::StreamingOutputCall(StreamingOutputCallHandler {  }),
        ),
        (
            test_method(
                "/grpc.testing.TestService/StreamingInputCall"@,
                MethodType::ClientStreaming,
            ),
            TestServiceHandler::StreamingInputCall(StreamingInputCallHandler {  }),
        ),
        (
            test_method("/grpc.testing.TestService/FullDuplexCall"@, MethodType::BidiStreaming),
            TestServiceHandler::FullDuplexCall(FullDuplexCallHandler {  }),
        ),
    ]
}

/// The test service.
#[derive(Debug, Clone, Copy)]
pub struct TestServiceImpl {}

impl Service<TestServiceHandler> for TestServiceImpl {
    open spec fn described(&self, d: ServiceDescriptor) -> bool {
        &&& d.name@ == "grpc.testing.TestService"@
        &&& d.spec_methods() == test_methods().map_values(
            |m: (MethodDescriptorView, TestServiceHandler)| m.0,
        )
    }

    open spec fn methods(&self) -> Seq<(MethodDescriptorView, TestServiceHandler)> {
        test_methods()
    }

    fn descriptor(&self) -> (r: ServiceDescriptor) {
        let mut methods: Vec<MethodDescriptor> = Vec::new();
        methods.push(
            MethodDescriptor::new("/grpc.testing.TestService/EmptyCall", MethodType::Unary),
        );
        methods.push(
            MethodDescriptor::new("/grpc.testing.TestService/UnaryCall", MethodType::Unary),
        );
        methods.push(
            MethodDescriptor::new("/grpc.testing.TestService/UnimplementedCall", MethodType::Unary),
        );
        methods.push(
            MethodDescriptor::new(
                "/grpc.testing.TestService/StreamingOutputCall",
                MethodType::ServerStreaming,
            ),
        );
        methods.push(
            MethodDescriptor::new(
                "/grpc.testing.TestService/StreamingInputCall",
                MethodType::ClientStreaming,
            ),
        );
        methods.push(
            MethodDescriptor::new(
                "/grpc.testing.TestService/FullDuplexCall",
                MethodType::BidiStreaming,
            ),
        );
        assert(method_views(methods@) =~= test_methods().map_values(
            |m: (MethodDescriptorView, TestServiceHandler)| m.0,
        ));
        ServiceDescriptor::new("grpc.testing.TestService", methods)
    }

    fn register_methods<R: ServiceRegistrar<TestServiceHandler>>(self, registrar: &mut R) {
        let ghost before = registrar.registered();
        registrar.register_method(
            MethodDescriptor::new("/grpc.testing.TestService/EmptyCall", MethodType::Unary),
            TestServiceHandler::EmptyCall(EmptyCallHandler {  }),
        );
        registrar.register_method(
            MethodDescriptor::new("/grpc.testing.TestService/UnaryCall", MethodType::Unary),
            TestServiceHandler::UnaryCall(UnaryCallHandler {  }),
        );
        registrar.register_method(
            MethodDescriptor::new("/grpc.testing.TestService/UnimplementedCall", MethodType::Unary),
            TestServiceHandler::UnimplementedCall(UnimplementedCallHandler {  }),
        );
        registrar.register_method(
            MethodDescriptor::new(
                "/grpc.testing.TestService/StreamingOutputCall",
                MethodType::ServerStreaming,
            ),
            TestServiceHandler::StreamingOutputCall(StreamingOutputCallHandler {  }),
        );
        registrar.register_method(
            MethodDescriptor::new(
                "/grpc.testing.TestService/StreamingInputCall",
                MethodType::ClientStreaming,
            ),
            TestServiceHandler::StreamingInputCall(StreamingInputCallHandler {  }),
        );
        registrar.register_method(
            MethodDescriptor::new(
                "/grpc.testing.TestService/FullDuplexCall",
                MethodType::BidiStreaming,
            ),
            TestServiceHandler::FullDuplexCall(FullDuplexCallHandler {  }),
        );
        assert(registrar.registered() =~= before + test_methods());
    }
}

/// What a client reads of a message: a payload of this size, all zeros. One that is too long for the
/// wire is not sent.
pub open spec fn carries_zeros(sent: Sent, size: int) -> bool {
    &&& sent.options.final_msg == false && sent.options.disable_compression == false
    &&& match sent.item {
        ItemView::Headers(_) => false,
        ItemView::Message(Ok(bytes)) => exists|body: Seq<u8>|
            {
                &&& #[trigger] after_bytes::<StreamingInputCallRequest>(
                    Seq::<u8>::empty(),
                    bytes,
                    MAX_GROUP_DEPTH as nat,
                ) == Some(body)
                &&& body.len() == size
                &&& forall|i: int| 0 <= i < body.len() ==> #[trigger] body[i] == 0
            },
        ItemView::Message(Err(_)) => size + 6 > MAX_LENGTH,
    }
}

/// Whether a send is headers without metadata.
pub open spec fn carries_plain_headers(sent: Sent) -> bool {
    &&& sent.options.final_msg == false && sent.options.disable_compression == false
    &&& sent.item matches ItemView::Headers(h) && h.len() == 0
}

/// A response of a size carries that many zeros.
proof fn lemma_carries_zeros(sent: Sent, size: int)
    requires
        0 <= size <= MAX_LENGTH,
        sent.options == default_send_options(),
        sent.item == message_item(payload_response(zeros(size))),
    ensures
        carries_zeros(sent, size),
{
    let body = zeros(size);
    lemma_delimited_size(2, body);
    if payload_bytes(body).len() <= MAX_LENGTH {
        law_payload_response_reads_back(body);
        let bytes = payload_response(body)->Some_0;
        assert(sent.item == ItemView::Message(Ok(bytes)));
        assert(after_bytes::<StreamingInputCallRequest>(
            Seq::<u8>::empty(),
            bytes,
            MAX_GROUP_DEPTH as nat,
        ) == Some(body));
    }
}

/// A call to `UnaryCall` that asks for a status is answered by this status, whatever else it asks
/// for, and nothing is sent. Only a call that asks for none gets a payload: of the size that it asks
/// for, which must not be negative. A call whose request cannot be read, or is not there, is
/// answered by an internal error.
pub proof fn law_unary_call(handler: UnaryCallHandler, call: Call)
    requires
        handler.handled(call),
    ensures
        call.trailers.metadata.len() == 0,
        call.input.messages.len() == 0 ==> {
            &&& call.output.len() == 0
            &&& call.trailers.status matches Err(e) && e.code.number() == 13 && e.message
                == if call.input.fails {
                "failed to receive request"@
            } else {
                "no request message received"@
            }
        },
        call.input.messages.len() > 0 ==> match after_bytes::<SimpleRequest>(
            empty_simple_request(),
            call.input.messages[0].bytes,
            MAX_GROUP_DEPTH as nat,
        ) {
            None => {
                &&& call.output.len() == 0
                &&& call.trailers.status matches Err(e) && e.code.number() == 13 && e.message
                    == "failed to receive request"@
            },
            Some(request) => {
                &&& request.response_status.code != 0 ==> {
                    &&& call.output.len() == 0
                    &&& call.trailers.status matches Err(e) && e.code
                        == StatusCodeError::of_number(request.response_status.code) && e.message
                        == request.response_status.message
                }
                &&& request.response_status.code == 0 && request.response_size < 0 ==> {
                    &&& call.output.len() == 0
                    &&& call.trailers.status matches Err(e) && e.code.number() == 3 && e.message
                        == "response_size cannot be negative"@
                }
                &&& request.response_status.code == 0 && 0 <= request.response_size
                    <= MAX_LENGTH ==> {
                    &&& call.output.len() == 2
                    &&& carries_plain_headers(call.output[0])
                    &&& carries_zeros(call.output[1], request.response_size)
                    &&& call.trailers.status is Ok
                }
            },
        },
{
    if call.input.messages.len() > 0 {
        if let Some(request) = after_bytes::<SimpleRequest>(
            empty_simple_request(),
            call.input.messages[0].bytes,
            MAX_GROUP_DEPTH as nat,
        ) {
            if request.response_status.code == 0 && 0 <= request.response_size <= MAX_LENGTH {
                let ending = unary_call(call.input);
                assert(call.output[0].item == ending.items[0]);
                assert(call.output[1].item == ending.items[1]);
                lemma_carries_zeros(call.output[1], request.response_size);
            }
        }
    }
}

/// A call to `EmptyCall` is answered by headers and an empty message, where a request is there and
/// can be read, and by an internal error otherwise.
pub proof fn law_empty_call(handler: EmptyCallHandler, call: Call)
    requires
        handler.handled(call),
    ensures
        call.trailers.metadata.len() == 0,
        call.input.messages.len() > 0 && after_bytes::<Empty>(
            (),
            call.input.messages[0].bytes,
            MAX_GROUP_DEPTH as nat,
        ) is Some ==> {
            &&& call.output.len() == 2
            &&& carries_plain_headers(call.output[0])
            &&& call.output[1].item matches ItemView::Message(Ok(b)) && b.len() == 0
            &&& call.trailers.status is Ok
        },
        !(call.input.messages.len() > 0 && after_bytes::<Empty>(
            (),
            call.input.messages[0].bytes,
            MAX_GROUP_DEPTH as nat,
        ) is Some) ==> {
            &&& call.output.len() == 0
            &&& call.trailers.status matches Err(e) && e.code.number() == 13 && e.message
                == if call.input.messages.len() == 0 && !call.input.fails {
                "no request message received"@
            } else {
                "failed to receive request"@
            }
        },
{
    let ending = empty_call(call.input);
    if ending.items.len() == 2 {
        assert(call.output[0].item == ending.items[0]);
        assert(call.output[1].item == ending.items[1]);
    }
}

/// A call to `UnimplementedCall` is answered so, and nothing is sent.
pub proof fn law_unimplemented_call(handler: UnimplementedCallHandler, call: Call)
    requires
        handler.handled(call),
    ensures
        call.output.len() == 0,
        call.trailers.metadata.len() == 0,
        call.trailers.status matches Err(e) && e.code.number() == 12 && e.message.len() == 0,
{
    reveal_strlit("");
}

/// There is one response for each size, up to the first that is negative.
proof fn lemma_responses_of(sizes: Seq<int>)
    ensures
        responses_of(sizes).len() <= sizes.len(),
        forall|i: int|
            0 <= i < responses_of(sizes).len() ==> sizes[i] >= 0 && #[trigger] responses_of(
                sizes,
            )[i] == message_item(payload_response(zeros(sizes[i]))),
        responses_of(sizes).len() < sizes.len() ==> sizes[responses_of(sizes).len() as int] < 0,
    decreases sizes.len(),
{
    if sizes.len() > 0 && sizes[0] >= 0 {
        let rest = sizes.skip(1);
        lemma_responses_of(rest);
        assert forall|i: int| 0 <= i < responses_of(sizes).len() implies sizes[i] >= 0
            && #[trigger] responses_of(sizes)[i] == message_item(
            payload_response(zeros(sizes[i])),
        ) by {
            if i > 0 {
                assert(responses_of(sizes)[i] == responses_of(rest)[i - 1]);
                assert(rest[i - 1] == sizes[i]);
            }
        }
    }
}

/// A call to `StreamingOutputCall` is answered by headers and one response for each size that is
/// asked for, in order, each of that size, and by success.
pub proof fn law_streaming_output_call(
    handler: StreamingOutputCallHandler,
    call: Call,
    sizes: Seq<int>,
)
    requires
        handler.handled(call),
        call.input.messages.len() > 0,
        after_bytes::<StreamingOutputCallRequest>(
            empty_output_request(),
            call.input.messages[0].bytes,
            MAX_GROUP_DEPTH as nat,
        ) matches Some(request) && request.sizes == sizes,
        forall|i: int| 0 <= i < sizes.len() ==> 0 <= #[trigger] sizes[i] <= MAX_LENGTH,
    ensures
        call.output.len() == sizes.len() + 1,
        carries_plain_headers(call.output[0]),
        forall|i: int|
            0 <= i < sizes.len() ==> carries_zeros(#[trigger] call.output[i + 1], sizes[i]),
        call.trailers.status is Ok,
        call.trailers.metadata.len() == 0,
{
    lemma_responses_of(sizes);
    let ending = streaming_output_call(call.input);
    if responses_of(sizes).len() < sizes.len() {
        assert(sizes[responses_of(sizes).len() as int] >= 0);
    }
    assert(call.output[0].item == ending.items[0]);
    assert(are_sizes(sizes));
    assert forall|i: int| 0 <= i < sizes.len() implies carries_zeros(
        #[trigger] call.output[i + 1],
        sizes[i],
    ) by {
        assert(call.output[i + 1].item == ending.items[i + 1]);
        assert(ending.items[i + 1] == responses_of(sizes)[i]);
        lemma_carries_zeros(call.output[i + 1], sizes[i]);
    }
}

/// A call to `StreamingOutputCall` whose request is not there or cannot be read is answered by an
/// internal error, and nothing is sent.
pub proof fn law_streaming_output_call_needs_a_request(handler: StreamingOutputCallHandler, call: Call)
    requires
        handler.handled(call),
        call.input.messages.len() == 0 || after_bytes::<StreamingOutputCallRequest>(
            empty_output_request(),
            call.input.messages[0].bytes,
            MAX_GROUP_DEPTH as nat,
        ) is None,
    ensures
        call.output.len() == 0,
        call.trailers.status matches Err(e) && e.code.number() == 13 && e.message
            == "failed to receive request"@,
{
}

/// What a stream gives that has these messages and fails at its end or does not.
pub open spec fn given(messages: Seq<RecvItem>, fails: bool) -> Input {
    Input { messages, fails }
}

/// The sizes of the payloads of a stream add up: those of one part and those of the rest.
pub proof fn law_sizes_add_up(a: Seq<RecvItem>, b: Seq<RecvItem>, fails: bool)
    ensures
        summed(given(a, false)).1 ==> summed(given(a + b, fails))
            == (
            summed(given(a, false)).0 + summed(given(b, fails)).0,
            summed(given(b, fails)).1,
        ),
        !summed(given(a, false)).1 ==> !summed(
            given(a + b, fails),
        ).1,
        summed(given(Seq::empty(), fails)) == (0nat, !fails),
        forall|m: RecvItem, body: Seq<u8>|
            #![trigger summed(given(seq![m], false)), body.len()]
            after_bytes::<StreamingInputCallRequest>(
                Seq::<u8>::empty(),
                m.bytes,
                MAX_GROUP_DEPTH as nat,
            ) == Some(body) ==> summed(given(seq![m], false)) == (
                body.len(),
                true,
            ),
        forall|m: RecvItem|
            after_bytes::<StreamingInputCallRequest>(
                Seq::<u8>::empty(),
                m.bytes,
                MAX_GROUP_DEPTH as nat,
            ) is None ==> !(#[trigger] summed(given(seq![m], false))).1,
    decreases a.len(),
{
    if a.len() == 0 {
        assert(a + b =~= b);
    } else {
        law_sizes_add_up(a.skip(1), b, fails);
        assert((a + b).skip(1) =~= a.skip(1) + b);
        assert((a + b)[0] == a[0]);
    }
    assert forall|m: RecvItem, body: Seq<u8>|
        #![trigger summed(given(seq![m], false)), body.len()]
        after_bytes::<StreamingInputCallRequest>(
            Seq::<u8>::empty(),
            m.bytes,
            MAX_GROUP_DEPTH as nat,
        ) == Some(body) implies summed(given(seq![m], false)) == (
        body.len(),
        true,
    ) by {
        let one = seq![m];
        assert(one.skip(1) =~= Seq::empty());
        assert(summed(given(one.skip(1), false)) == (0nat, true));
    }
    assert forall|m: RecvItem|
        after_bytes::<StreamingInputCallRequest>(
            Seq::<u8>::empty(),
            m.bytes,
            MAX_GROUP_DEPTH as nat,
        ) is None implies !(#[trigger] summed(given(seq![m], false))).1 by {
        assert(seq![m][0] == m);
    }
}

/// A call to `StreamingInputCall` is answered by headers and the sum of the sizes of all payloads,
/// in 32 bits, where all of them can be read, and by an internal error otherwise.
pub proof fn law_streaming_input_call(handler: StreamingInputCallHandler, call: Call)
    requires
        handler.handled(call),
    ensures
        call.trailers.metadata.len() == 0,
        summed(call.input).1 ==> {
            &&& call.output.len() == 2
            &&& carries_plain_headers(call.output[0])
            &&& call.output[1].options == default_send_options()
            &&& call.output[1].item matches ItemView::Message(Ok(b)) && (after_bytes::<
                ResponseParameters,
            >(0, b, MAX_GROUP_DEPTH as nat) matches Some(sum) && i32::MIN <= sum <= i32::MAX && (
            sum - summed(call.input).0) % 0x1_0000_0000 == 0)
            &&& call.trailers.status is Ok
        },
        !summed(call.input).1 ==> {
            &&& call.output.len() == 0
            &&& call.trailers.status matches Err(e) && e.code.number() == 13 && e.message
                == "failed to receive streaming request"@
        },
{
    let ending = streaming_input_call(call.input);
    if summed(call.input).1 {
        let n = summed(call.input).0;
        let sum = int32_of(n);
        assert(call.output[0].item == ending.items[0]);
        assert(call.output[1].item == ending.items[1]);
        law_sum_response_reads_back(sum);
        let k = n as int / 0x1_0000_0000;
        assert(n == k * 0x1_0000_0000 + n as int % 0x1_0000_0000);
        if n as int % 0x1_0000_0000 < 0x8000_0000 {
            assert(sum - n == -k * 0x1_0000_0000);
            assert((-k * 0x1_0000_0000) % 0x1_0000_0000 == 0) by (nonlinear_arith);
        } else {
            assert(sum - n == (-k - 1) * 0x1_0000_0000);
            assert(((-k - 1) * 0x1_0000_0000) % 0x1_0000_0000 == 0) by (nonlinear_arith);
        }
    }
}

/// A message in front of others.
pub open spec fn preceded(message: RecvItem, rest: Input) -> Input {
    Input { messages: seq![message] + rest.messages, fails: rest.fails }
}

/// Whether a message is a request for these sizes that asks for no status.
pub open spec fn asks_for(message: RecvItem, sizes: Seq<int>) -> bool {
    after_bytes::<StreamingOutputCallRequest>(
        empty_output_request(),
        message.bytes,
        MAX_GROUP_DEPTH as nat,
    ) matches Some(request) && request.response_status.code == 0 && request.sizes == sizes && forall|
        i: int,
    |
        0 <= i < sizes.len() ==> 0 <= #[trigger] sizes[i]
}

/// In `FullDuplexCall`, each request is answered by one response for each size that it asks for,
/// before what follows is looked at. A request that asks for a status ends the call with it, and
/// what follows is not looked at; what cannot be read ends it with an internal error; and the end of
/// the stream ends it with success.
pub proof fn law_full_duplex_call(message: RecvItem, rest: Input, sizes: Seq<int>)
    ensures
        full_duplex_call(rest).items.len() > 0,
        full_duplex_call(rest).items[0] matches ItemView::Headers(h) && h.len() == 0,
        asks_for(message, sizes) ==> {
            let all = full_duplex_call(
                preceded(message, rest),
            );
            let then = full_duplex_call(rest);
            &&& all.trailers == then.trailers
            &&& all.items.len() == sizes.len() + then.items.len()
            &&& forall|i: int|
                0 <= i < sizes.len() ==> #[trigger] all.items[i + 1] == message_item(
                    payload_response(zeros(sizes[i])),
                )
            &&& all.items.skip(1 + sizes.len() as int) == then.items.skip(1)
        },
        after_bytes::<StreamingOutputCallRequest>(
            empty_output_request(),
            message.bytes,
            MAX_GROUP_DEPTH as nat,
        ) matches Some(request) && request.response_status.code != 0 ==> {
            let all = full_duplex_call(
                preceded(message, rest),
            );
            let asked = after_bytes::<StreamingOutputCallRequest>(
                empty_output_request(),
                message.bytes,
                MAX_GROUP_DEPTH as nat,
            )->Some_0.response_status;
            &&& all.items.len() == 1
            &&& all.trailers.metadata.len() == 0
            &&& all.trailers.status matches Err(e) && e.code == StatusCodeError::of_number(
                asked.code,
            ) && e.message == asked.message
        },
        after_bytes::<StreamingOutputCallRequest>(
            empty_output_request(),
            message.bytes,
            MAX_GROUP_DEPTH as nat,
        ) is None ==> {
            let all = full_duplex_call(
                preceded(message, rest),
            );
            &&& all.items.len() == 1
            &&& all.trailers.status matches Err(e) && e.code.number() == 13 && e.message
                == "failed to receive streaming request"@
        },
        rest.messages.len() == 0 ==> {
            let all = full_duplex_call(rest);
            &&& all.items.len() == 1
            &&& all.trailers.metadata.len() == 0
            &&& rest.fails ==> (all.trailers.status matches Err(e) && e.code.number() == 13
                && e.message == "failed to receive streaming request"@)
            &&& !rest.fails ==> all.trailers.status is Ok
        },
{
    let input = preceded(message, rest);
    let all = full_duplex_call(input);
    assert(input.messages.skip(1) =~= rest.messages);
    assert(Input { messages: input.messages.skip(1), fails: input.fails } == rest);
    if asks_for(message, sizes) {
        lemma_responses_of(sizes);
        if responses_of(sizes).len() < sizes.len() {
            assert(sizes[responses_of(sizes).len() as int] >= 0);
        }
        let then = full_duplex_call(rest);
        assert(all.items =~= seq![plain_headers()] + (responses_of(sizes) + duplex(rest).items));
        assert forall|i: int| 0 <= i < sizes.len() implies #[trigger] all.items[i + 1]
            == message_item(payload_response(zeros(sizes[i]))) by {
            assert(all.items[i + 1] == responses_of(sizes)[i]);
        }
        assert(all.items.skip(1 + sizes.len() as int) =~= duplex(rest).items);
        assert(then.items.skip(1) =~= duplex(rest).items);
    }
}

/// What the handler of `FullDuplexCall` sends is what [`law_full_duplex_call`] speaks of.
pub proof fn law_full_duplex_handler(handler: FullDuplexCallHandler, call: Call)
    requires
        handler.handled(call),
    ensures
        call.trailers == full_duplex_call(call.input).trailers,
        call.output.len() == full_duplex_call(call.input).items.len(),
        forall|i: int|
            0 <= i < call.output.len() ==> (#[trigger] call.output[i]).item == full_duplex_call(
                call.input,
            ).items[i] && call.output[i].options == default_send_options(),
{
}

/// The echo changes the first headers of a response and nothing else. These have the echoed value
/// as the only one under its key, and every other key as before. Without something to echo nothing
/// is changed at all.
pub proof fn law_echo_goes_into_first_headers(
    sends: Seq<Sent>,
    echo: Option<Seq<char>>,
    i: int,
    key: Seq<char>,
)
    requires
        0 <= i < sends.len(),
    ensures
        echoed_sends(sends, echo).len() == sends.len(),
        echoed_sends(sends, echo)[i].options == sends[i].options,
        echoed_sends(sends, echo)[i].ok == sends[i].ok,
        ({
            let first = sends[i].item is Headers && forall|j: int|
                0 <= j < i ==> !((#[trigger] sends[j]).item is Headers);
            let became = echoed_sends(sends, echo)[i].item;
            if first && echo is Some {
                &&& became matches ItemView::Headers(h) && (if key == "x-grpc-test-echo-initial"@ {
                    values_under(h, key) == seq![MetadataValueView::Ascii(echo->Some_0)]
                } else {
                    values_under(h, key) == values_under(sends[i].item->Headers_0, key)
                })
            } else {
                became == sends[i].item
            }
        }),
    decreases sends.len(),
{
    let before = sends.drop_last();
    lemma_has_headers(before);
    lemma_echoed_len(sends, echo);
    lemma_echoed_len(before, echo);
    if i < before.len() {
        law_echo_goes_into_first_headers(before, echo, i, key);
        assert(echoed_sends(sends, echo)[i] == echoed_sends(before, echo)[i]);
        assert(before[i] == sends[i]);
        assert((forall|j: int| 0 <= j < i ==> !((#[trigger] sends[j]).item is Headers)) == (
        forall|j: int| 0 <= j < i ==> !((#[trigger] before[j]).item is Headers))) by {
            assert forall|j: int| 0 <= j < i implies sends[j] == before[j] by {}
        }
    } else {
        assert(has_headers(before) == !(forall|j: int|
            0 <= j < i ==> !((#[trigger] sends[j]).item is Headers))) by {
            if has_headers(before) {
                let j = choose|j: int| 0 <= j < before.len() && (#[trigger] before[j]).item
                    is Headers;
                assert(sends[j].item is Headers);
            } else {
                assert forall|j: int| 0 <= j < i implies !((#[trigger] sends[j]).item
                    is Headers) by {
                    assert(sends[j] == before[j]);
                }
            }
        }
        if let ItemView::Headers(h) = sends[i].item {
            if let Some(v) = echo {
                law_insert_changes_one_key(
                    h,
                    "x-grpc-test-echo-initial"@,
                    MetadataValueView::Ascii(v),
                    key,
                );
            }
        }
    }
}

/// As many sends reach the stream below as were made.
proof fn lemma_echoed_len(sends: Seq<Sent>, echo: Option<Seq<char>>)
    ensures
        echoed_sends(sends, echo).len() == sends.len(),
    decreases sends.len(),
{
    if sends.len() > 0 {
        lemma_echoed_len(sends.drop_last(), echo);
    }
}

/// Whether headers were sent, in other words.
proof fn lemma_has_headers(sends: Seq<Sent>)
    ensures
        has_headers(sends) <==> exists|j: int|
            0 <= j < sends.len() && (#[trigger] sends[j]).item is Headers,
    decreases sends.len(),
{
    if sends.len() > 0 {
        let before = sends.drop_last();
        lemma_has_headers(before);
        if has_headers(before) {
            let j = choose|j: int| 0 <= j < before.len() && (#[trigger] before[j]).item is Headers;
            assert(sends[j].item is Headers);
        }
        if exists|j: int| 0 <= j < sends.len() && (#[trigger] sends[j]).item is Headers {
            let j = choose|j: int| 0 <= j < sends.len() && (#[trigger] sends[j]).item is Headers;
            if j < before.len() {
                assert(before[j].item is Headers);
            }
        }
    }
}

/// The echo in the trailers is the only value under its key; the status and every other key stay as
/// they are, and without something to echo all of the trailers do.
pub proof fn law_echo_goes_into_trailers(t: TrailersView, echo: Option<Seq<u8>>, key: Seq<char>)
    ensures
        echoed_trailers(t, echo).status == t.status,
        echo is None ==> echoed_trailers(t, echo) == t,
        echo matches Some(v) ==> values_under(echoed_trailers(t, echo).metadata, key) == if key
            == "x-grpc-test-echo-trailing-bin"@ {
            seq![MetadataValueView::Binary(v)]
        } else {
            values_under(t.metadata, key)
        },
{
    if let Some(v) = echo {
        law_insert_changes_one_key(
            t.metadata,
            "x-grpc-test-echo-trailing-bin"@,
            MetadataValueView::Binary(v),
            key,
        );
    }
}

/// A call behind the echo is one that the next handler may handle, with the same headers, options
/// and input, and with the same status.
pub proof fn law_echo_hands_calls_on(
    interceptor: EchoMetadataInterceptor,
    next: spec_fn(Call) -> bool,
    call: Call,
)
    requires
        interceptor.intercepted(next, call),
    ensures
        exists|inner: Call|
            {
                &&& #[trigger] next(inner)
                &&& inner.headers == call.headers
                &&& inner.options == call.options
                &&& inner.input == call.input
                &&& inner.trailers.status == call.trailers.status
                &&& call.output == echoed_sends(
                    inner.output,
                    first_text(call.headers.metadata, "x-grpc-test-echo-initial"@),
                )
                &&& call.trailers == echoed_trailers(
                    inner.trailers,
                    first_binary(call.headers.metadata, "x-grpc-test-echo-trailing-bin"@),
                )
            },
{
    let (output, trailers) = choose|output: Seq<Sent>, trailers: TrailersView|
        {
            &&& #[trigger] next(Call { output, trailers, ..call })
            &&& call.output == echoed_sends(
                output,
                first_text(call.headers.metadata, "x-grpc-test-echo-initial"@),
            )
            &&& call.trailers == echoed_trailers(
                trailers,
                first_binary(call.headers.metadata, "x-grpc-test-echo-trailing-bin"@),
            )
        };
    let inner = Call { output, trailers, ..call };
    assert(next(inner));
}

/// Each method of the test service is registered once, under its path, as what it is, and with the
/// handler of its name.
pub proof fn law_test_methods()
    ensures
        test_methods().len() == 6,
        forall|i: int|
            0 <= i < 6 ==> ("/grpc.testing.TestService/"@ + (match (#[trigger] test_methods()[i]).1 {
                TestServiceHandler::EmptyCall(_) => "EmptyCall"@,
                TestServiceHandler::UnaryCall(_) => "UnaryCall"@,
                TestServiceHandler::UnimplementedCall(_) => "UnimplementedCall"@,
                TestServiceHandler::StreamingOutputCall(_) => "StreamingOutputCall"@,
                TestServiceHandler::StreamingInputCall(_) => "StreamingInputCall"@,
                TestServiceHandler::FullDuplexCall(_) => "FullDuplexCall"@,
            }) == test_methods()[i].0.full_path) && (test_methods()[i].0.method_type == match test_methods()[i].1 {
                TestServiceHandler::StreamingOutputCall(_) => MethodType::ServerStreaming,
                TestServiceHandler::StreamingInputCall(_) => MethodType::ClientStreaming,
                TestServiceHandler::FullDuplexCall(_) => MethodType::BidiStreaming,
                _ => MethodType::Unary,
            }),
        forall|i: int, j: int|
            0 <= i < j < 6 ==> (#[trigger] test_methods()[i]).0.full_path != (
            #[trigger] test_methods()[j]).0.full_path,
{
    reveal_strlit("/grpc.testing.TestService/");
    reveal_strlit("EmptyCall");
    reveal_strlit("UnaryCall");
    reveal_strlit("UnimplementedCall");
    reveal_strlit("StreamingOutputCall");
    reveal_strlit("StreamingInputCall");
    reveal_strlit("FullDuplexCall");
    reveal_strlit("/grpc.testing.TestService/EmptyCall");
    reveal_strlit("/grpc.testing.TestService/UnaryCall");
    reveal_strlit("/grpc.testing.TestService/UnimplementedCall");
    reveal_strlit("/grpc.testing.TestService/StreamingOutputCall");
    reveal_strlit("/grpc.testing.TestService/StreamingInputCall");
    reveal_strlit("/grpc.testing.TestService/FullDuplexCall");
    let p = "/grpc.testing.TestService/"@;
    assert(p + "EmptyCall"@ =~= "/grpc.testing.TestService/EmptyCall"@);
    assert(p + "UnaryCall"@ =~= "/grpc.testing.TestService/UnaryCall"@);
    assert(p + "UnimplementedCall"@ =~= "/grpc.testing.TestService/UnimplementedCall"@);
    assert(p + "StreamingOutputCall"@ =~= "/grpc.testing.TestService/StreamingOutputCall"@);
    assert(p + "StreamingInputCall"@ =~= "/grpc.testing.TestService/StreamingInputCall"@);
    assert(p + "FullDuplexCall"@ =~= "/grpc.testing.TestService/FullDuplexCall"@);
    assert("/grpc.testing.TestService/EmptyCall"@[26] == 'E');
    assert("/grpc.testing.TestService/UnaryCall"@[27] == 'n');
    assert("/grpc.testing.TestService/UnaryCall"@.len() == 35);
    assert("/grpc.testing.TestService/UnimplementedCall"@.len() == 43);
    assert("/grpc.testing.TestService/StreamingOutputCall"@.len() == 45);
    assert("/grpc.testing.TestService/StreamingInputCall"@.len() == 44);
    assert("/grpc.testing.TestService/FullDuplexCall"@.len() == 40);
    assert("/grpc.testing.TestService/EmptyCall"@ != "/grpc.testing.TestService/UnaryCall"@) by {
        assert("/grpc.testing.TestService/UnaryCall"@[26] == 'U');
    }
}


/// There are as many responses as there are sizes in front of the first negative one.
proof fn lemma_responses_before(sizes: Seq<int>, k: int)
    requires
        0 <= k < sizes.len(),
        sizes[k] < 0,
        forall|i: int| 0 <= i < k ==> 0 <= #[trigger] sizes[i],
    ensures
        responses_of(sizes).len() == k,
        !are_sizes(sizes),
{
    lemma_responses_of(sizes);
    let n = responses_of(sizes).len() as int;
    if n < k {
        assert(sizes[n] >= 0);
    }
    if n > k {
        assert(responses_of(sizes)[k] == message_item(payload_response(zeros(sizes[k]))));
    }
}

/// A call to `StreamingOutputCall` that asks for a negative size is answered up to that size, each
/// response of the size that was asked for, and then by an invalid-argument error; what is asked for
/// behind it makes no difference.
pub proof fn law_negative_size_ends_output(
    handler: StreamingOutputCallHandler,
    call: Call,
    sizes: Seq<int>,
    k: int,
)
    requires
        handler.handled(call),
        call.input.messages.len() > 0,
        after_bytes::<StreamingOutputCallRequest>(
            empty_output_request(),
            call.input.messages[0].bytes,
            MAX_GROUP_DEPTH as nat,
        ) matches Some(request) && request.sizes == sizes,
        0 <= k < sizes.len(),
        sizes[k] < 0,
        forall|i: int| 0 <= i < k ==> 0 <= #[trigger] sizes[i] <= MAX_LENGTH,
    ensures
        call.output.len() == k + 1,
        carries_plain_headers(call.output[0]),
        forall|i: int| 0 <= i < k ==> carries_zeros(#[trigger] call.output[i + 1], sizes[i]),
        call.trailers.status matches Err(e) && e.code.number() == 3 && e.message
            == "response_size cannot be negative"@,
        call.trailers.metadata.len() == 0,
{
    lemma_responses_of(sizes);
    lemma_responses_before(sizes, k);
    let ending = streaming_output_call(call.input);
    assert(ending.items[0] == plain_headers());
    assert(call.output[0].item == ending.items[0]);
    assert forall|i: int| 0 <= i < k implies carries_zeros(
        #[trigger] call.output[i + 1],
        sizes[i],
    ) by {
        assert(ending.items[i + 1] == responses_of(sizes)[i]);
        assert(call.output[i + 1].item == ending.items[i + 1]);
        lemma_carries_zeros(call.output[i + 1], sizes[i]);
    }
}

/// A request in `FullDuplexCall` that asks for a negative size is answered up to that size, and then
/// ends the call with an invalid-argument error; what follows is not looked at.
pub proof fn law_negative_size_ends_duplex(
    message: RecvItem,
    rest: Input,
    sizes: Seq<int>,
    k: int,
)
    requires
        after_bytes::<StreamingOutputCallRequest>(
            empty_output_request(),
            message.bytes,
            MAX_GROUP_DEPTH as nat,
        ) matches Some(request) && request.response_status.code == 0 && request.sizes == sizes,
        0 <= k < sizes.len(),
        sizes[k] < 0,
        forall|i: int| 0 <= i < k ==> 0 <= #[trigger] sizes[i],
    ensures
        ({
            let all = full_duplex_call(preceded(message, rest));
            &&& all.items.len() == k + 1
            &&& all.items[0] matches ItemView::Headers(h) && h.len() == 0
            &&& forall|i: int|
                0 <= i < k ==> #[trigger] all.items[i + 1] == message_item(
                    payload_response(zeros(sizes[i])),
                )
            &&& all.trailers.status matches Err(e) && e.code.number() == 3 && e.message
                == "response_size cannot be negative"@
            &&& all.trailers.metadata.len() == 0
        }),
{
    lemma_responses_of(sizes);
    lemma_responses_before(sizes, k);
    let input = preceded(message, rest);
    let all = full_duplex_call(input);
    assert(input.messages[0] == message);
    assert forall|i: int| 0 <= i < k implies #[trigger] all.items[i + 1] == message_item(
        payload_response(zeros(sizes[i])),
    ) by {
        assert(all.items[i + 1] == responses_of(sizes)[i]);
    }
}


/// The test service is described by its name and by its methods, each as it is registered.
pub proof fn law_test_service_is_described(
    service: TestServiceImpl,
    d: ServiceDescriptor,
    i: int,
)
    requires
        service.described(d),
        0 <= i < test_methods().len(),
    ensures
        d.name@ == "grpc.testing.TestService"@,
        d.spec_methods().len() == service.methods().len(),
        d.spec_methods()[i] == service.methods()[i].0,
{
}

} // verus!
