//! The messages of the test service. Of each, the fields are kept that the service reads.

use crate::protobuf::merge::{
    after_bytes, law_bytes_are_merged, law_nothing_is_merged, law_number_is_merged, merge_bytes,
    MergeFields,
};
use crate::protobuf::message::{Message, ParseMessage, SerializeMessage};
use crate::protobuf::rpc_status::int32_of;
use crate::protobuf::wire::{
    delimited_field, fields, varint_field, write_delimited_field, write_varint_field, Field, FieldValue,
    FieldView, MAX_GROUP_DEPTH, MAX_GROUP_DEPTH_INSIDE, MAX_LENGTH, ValueView,
};
use crate::text::{copied, text_from_utf8};
use vstd::prelude::*;
use vstd::utf8::{decode_utf8, encode_utf8, valid_utf8};

verus! {

/// The 32-bit number that a number of variable length stands for.
fn to_int32(v: u64) -> (r: i32)
    ensures
        r == int32_of(v as nat),
{
    let w: u64 = v % 0x1_0000_0000;
    if w < 0x8000_0000 {
        w as i32
    } else {
        (w as i64 - 0x1_0000_0000) as i32
    }
}

/// A number of variable length that stands for a 32-bit number.
pub open spec fn varint_of_int32(n: int) -> nat {
    if n >= 0 {
        n as nat
    } else {
        (n + 0x1_0000_0000_0000_0000) as nat
    }
}

/// A message without fields.
#[derive(Debug)]
pub struct Empty {}

impl MergeFields for Empty {
    type Says = ();

    open spec fn says(&self) -> () {
        ()
    }

    open spec fn after_field(before: (), field: FieldView) -> Option<()> {
        Some(())
    }

    fn merge_field(&mut self, field: &Field) -> (r: bool) {
        true
    }
}

/// A block of data: its bytes (field 2).
#[derive(Debug)]
pub struct Payload {
    /// The bytes.
    pub body: Vec<u8>,
}

impl MergeFields for Payload {
    type Says = Seq<u8>;

    open spec fn says(&self) -> Seq<u8> {
        self.body@
    }

    open spec fn after_field(before: Seq<u8>, field: FieldView) -> Option<Seq<u8>> {
        match field.value {
            ValueView::Delimited(b) => if field.number == 2 {
                Some(b)
            } else {
                Some(before)
            },
            _ => Some(before),
        }
    }

    fn merge_field(&mut self, field: &Field) -> (r: bool) {
        if let FieldValue::Delimited(b) = &field.value {
            if field.number == 2 {
                self.body = copied(b.as_slice());
            }
        }
        true
    }
}

/// The bytes of a payload. An empty body has no field.
pub open spec fn payload_bytes(body: Seq<u8>) -> Seq<u8> {
    if body.len() == 0 {
        Seq::empty()
    } else {
        delimited_field(2, body)
    }
}

impl Payload {
    /// The bytes of the payload.
    pub fn to_bytes(&self) -> (r: Vec<u8>)
        ensures
            r@ == payload_bytes(self.body@),
    {
        let mut out: Vec<u8> = Vec::new();
        if self.body.len() > 0 {
            write_delimited_field(&mut out, 2, self.body.as_slice());
        }
        assert(out@ =~= payload_bytes(self.body@));
        out
    }
}

/// A status that the client asks to be answered: its code (field 1) and message (field 2).
#[derive(Debug)]
pub struct EchoStatus {
    /// The code.
    pub code: i32,
    /// The message.
    pub message: String,
}

/// What an [`EchoStatus`] says.
pub struct EchoStatusView {
    /// The code.
    pub code: int,
    /// The message.
    pub message: Seq<char>,
}

/// The status that is not set.
pub open spec fn no_status() -> EchoStatusView {
    EchoStatusView { code: 0, message: Seq::empty() }
}

impl EchoStatus {
    /// The status that is not set.
    pub fn new() -> (r: Self)
        ensures
            r.says() == no_status(),
    {
        let r = EchoStatus { code: 0, message: String::new() };
        assert(r.message@ =~= Seq::<char>::empty());
        r
    }
}

impl MergeFields for EchoStatus {
    type Says = EchoStatusView;

    open spec fn says(&self) -> EchoStatusView {
        EchoStatusView { code: self.code as int, message: self.message@ }
    }

    open spec fn after_field(before: EchoStatusView, field: FieldView) -> Option<EchoStatusView> {
        match field.value {
            ValueView::Varint(v) => if field.number == 1 {
                Some(EchoStatusView { code: int32_of(v), ..before })
            } else {
                Some(before)
            },
            ValueView::Delimited(b) => if field.number == 2 {
                if valid_utf8(b) {
                    Some(EchoStatusView { message: decode_utf8(b), ..before })
                } else {
                    None
                }
            } else {
                Some(before)
            },
            _ => Some(before),
        }
    }

    fn merge_field(&mut self, field: &Field) -> (r: bool) {
        match &field.value {
            FieldValue::Varint(v) => {
                if field.number == 1 {
                    self.code = to_int32(*v);
                }
                true
            },
            FieldValue::Delimited(b) => {
                if field.number == 2 {
                    match text_from_utf8(copied(b.as_slice())) {
                        Some(s) => {
                            proof {
                                vstd::utf8::encode_utf8_decode_utf8(s@);
                            }
                            self.message = s;
                            true
                        },
                        None => false,
                    }
                } else {
                    true
                }
            },
            _ => true,
        }
    }
}

/// A request for one response: the size of the response's payload (field 2), a payload (field 3)
/// and the status that is to be answered (field 7).
#[derive(Debug)]
pub struct SimpleRequest {
    /// The size of the response's payload.
    pub response_size: i32,
    /// The payload of the request.
    pub payload: Payload,
    /// The status that is to be answered.
    pub response_status: EchoStatus,
}

/// What a [`SimpleRequest`] says.
pub struct SimpleRequestView {
    /// The size of the response's payload.
    pub response_size: int,
    /// The payload of the request.
    pub payload: Seq<u8>,
    /// The status that is to be answered.
    pub response_status: EchoStatusView,
}

/// A request in which nothing is set.
pub open spec fn empty_simple_request() -> SimpleRequestView {
    SimpleRequestView { response_size: 0, payload: Seq::empty(), response_status: no_status() }
}

impl MergeFields for SimpleRequest {
    type Says = SimpleRequestView;

    open spec fn says(&self) -> SimpleRequestView {
        SimpleRequestView {
            response_size: self.response_size as int,
            payload: self.payload.says(),
            response_status: self.response_status.says(),
        }
    }

    open spec fn after_field(before: SimpleRequestView, field: FieldView) -> Option<
        SimpleRequestView,
    > {
        match field.value {
            ValueView::Varint(v) => if field.number == 2 {
                Some(SimpleRequestView { response_size: int32_of(v), ..before })
            } else {
                Some(before)
            },
            ValueView::Delimited(b) => if field.number == 3 {
                match after_bytes::<Payload>(before.payload, b, MAX_GROUP_DEPTH_INSIDE as nat) {
                    Some(payload) => Some(SimpleRequestView { payload, ..before }),
                    None => None,
                }
            } else if field.number == 7 {
                match after_bytes::<EchoStatus>(before.response_status, b, MAX_GROUP_DEPTH_INSIDE as nat) {
                    Some(response_status) => Some(SimpleRequestView { response_status, ..before }),
                    None => None,
                }
            } else {
                Some(before)
            },
            _ => Some(before),
        }
    }

    fn merge_field(&mut self, field: &Field) -> (r: bool) {
        match &field.value {
            FieldValue::Varint(v) => {
                if field.number == 2 {
                    self.response_size = to_int32(*v);
                }
                true
            },
            FieldValue::Delimited(b) => {
                if field.number == 3 {
                    merge_bytes(&mut self.payload, b.as_slice(), MAX_GROUP_DEPTH_INSIDE)
                } else if field.number == 7 {
                    merge_bytes(&mut self.response_status, b.as_slice(), MAX_GROUP_DEPTH_INSIDE)
                } else {
                    true
                }
            },
            _ => true,
        }
    }
}

/// A message of a stream of requests for one response: a payload (field 1).
#[derive(Debug)]
pub struct StreamingInputCallRequest {
    /// The payload.
    pub payload: Payload,
}

impl MergeFields for StreamingInputCallRequest {
    type Says = Seq<u8>;

    open spec fn says(&self) -> Seq<u8> {
        self.payload.says()
    }

    open spec fn after_field(before: Seq<u8>, field: FieldView) -> Option<Seq<u8>> {
        match field.value {
            ValueView::Delimited(b) => if field.number == 1 {
                after_bytes::<Payload>(before, b, MAX_GROUP_DEPTH_INSIDE as nat)
            } else {
                Some(before)
            },
            _ => Some(before),
        }
    }

    fn merge_field(&mut self, field: &Field) -> (r: bool) {
        if let FieldValue::Delimited(b) = &field.value {
            if field.number == 1 {
                return merge_bytes(&mut self.payload, b.as_slice(), MAX_GROUP_DEPTH_INSIDE);
            }
        }
        true
    }
}

/// What one response of a stream is to look like: the size of its payload (field 1).
#[derive(Debug)]
pub struct ResponseParameters {
    /// The size of the payload.
    pub size: i32,
}

impl MergeFields for ResponseParameters {
    type Says = int;

    open spec fn says(&self) -> int {
        self.size as int
    }

    open spec fn after_field(before: int, field: FieldView) -> Option<int> {
        match field.value {
            ValueView::Varint(v) => if field.number == 1 {
                Some(int32_of(v))
            } else {
                Some(before)
            },
            _ => Some(before),
        }
    }

    fn merge_field(&mut self, field: &Field) -> (r: bool) {
        if let FieldValue::Varint(v) = &field.value {
            if field.number == 1 {
                self.size = to_int32(*v);
            }
        }
        true
    }
}

/// A request for a stream of responses: what each is to look like (field 2), a payload (field 3)
/// and the status that is to be answered (field 7).
#[derive(Debug)]
pub struct StreamingOutputCallRequest {
    /// What each response is to look like.
    pub response_parameters: Vec<ResponseParameters>,
    /// The payload of the request.
    pub payload: Payload,
    /// The status that is to be answered.
    pub response_status: EchoStatus,
}

/// What a [`StreamingOutputCallRequest`] says.
pub struct StreamingOutputCallRequestView {
    /// The size of each response's payload.
    pub sizes: Seq<int>,
    /// The payload of the request.
    pub payload: Seq<u8>,
    /// The status that is to be answered.
    pub response_status: EchoStatusView,
}

/// A request in which nothing is set.
pub open spec fn empty_output_request() -> StreamingOutputCallRequestView {
    StreamingOutputCallRequestView {
        sizes: Seq::empty(),
        payload: Seq::empty(),
        response_status: no_status(),
    }
}

impl MergeFields for StreamingOutputCallRequest {
    type Says = StreamingOutputCallRequestView;

    open spec fn says(&self) -> StreamingOutputCallRequestView {
        StreamingOutputCallRequestView {
            sizes: self.response_parameters@.map_values(|p: ResponseParameters| p.size as int),
            payload: self.payload.says(),
            response_status: self.response_status.says(),
        }
    }

    open spec fn after_field(
        before: StreamingOutputCallRequestView,
        field: FieldView,
    ) -> Option<StreamingOutputCallRequestView> {
        match field.value {
            ValueView::Delimited(b) => if field.number == 2 {
                match after_bytes::<ResponseParameters>(0, b, MAX_GROUP_DEPTH_INSIDE as nat) {
                    Some(size) => Some(
                        StreamingOutputCallRequestView {
                            sizes: before.sizes.push(size),
                            ..before
                        },
                    ),
                    None => None,
                }
            } else if field.number == 3 {
                match after_bytes::<Payload>(before.payload, b, MAX_GROUP_DEPTH_INSIDE as nat) {
                    Some(payload) => Some(StreamingOutputCallRequestView { payload, ..before }),
                    None => None,
                }
            } else if field.number == 7 {
                match after_bytes::<EchoStatus>(before.response_status, b, MAX_GROUP_DEPTH_INSIDE as nat) {
                    Some(response_status) => Some(
                        StreamingOutputCallRequestView { response_status, ..before },
                    ),
                    None => None,
                }
            } else {
                Some(before)
            },
            _ => Some(before),
        }
    }

    fn merge_field(&mut self, field: &Field) -> (r: bool) {
        if let FieldValue::Delimited(b) = &field.value {
            if field.number == 2 {
                let mut parameters = ResponseParameters { size: 0 };
                if !merge_bytes(&mut parameters, b.as_slice(), MAX_GROUP_DEPTH_INSIDE) {
                    return false;
                }
                let ghost before = self.says().sizes;
                let ghost size = parameters.says();
                self.response_parameters.push(parameters);
                assert(self.says().sizes =~= before.push(size));
            } else if field.number == 3 {
                return merge_bytes(&mut self.payload, b.as_slice(), MAX_GROUP_DEPTH_INSIDE);
            } else if field.number == 7 {
                return merge_bytes(&mut self.response_status, b.as_slice(), MAX_GROUP_DEPTH_INSIDE);
            }
        }
        true
    }
}

/// A response with a payload (field 1).
#[derive(Debug)]
pub struct SimpleResponse {
    /// The payload.
    pub payload: Payload,
}

/// One response of a stream, with a payload (field 1).
#[derive(Debug)]
pub struct StreamingOutputCallResponse {
    /// The payload.
    pub payload: Payload,
}

/// The response to a stream of requests: the sum of the sizes of their payloads (field 1).
#[derive(Debug)]
pub struct StreamingInputCallResponse {
    /// The sum of the sizes.
    pub aggregated_payload_size: i32,
}

/// The bytes of a response with a payload.
pub open spec fn payload_response_bytes(body: Seq<u8>) -> Seq<u8> {
    delimited_field(1, payload_bytes(body))
}

/// The bytes of a response with a payload, where it can be serialized: the payload must not be
/// longer than a length on the wire may say.
pub open spec fn payload_response(body: Seq<u8>) -> Option<Seq<u8>> {
    if payload_bytes(body).len() <= MAX_LENGTH {
        Some(payload_response_bytes(body))
    } else {
        None
    }
}

/// The bytes of a response with a sum. A sum of zero has no field.
pub open spec fn sum_response_bytes(sum: int) -> Seq<u8> {
    if sum == 0 {
        Seq::empty()
    } else {
        varint_field(1, varint_of_int32(sum))
    }
}

impl Message for Empty {
    open spec fn is_default(&self) -> bool {
        self.says() == ()
    }

    fn new_message() -> (r: Self) {
        Empty {  }
    }
}

impl ParseMessage for Empty {
    open spec fn is_readable(bytes: Seq<u8>) -> bool {
        after_bytes::<Empty>((), bytes, MAX_GROUP_DEPTH as nat) is Some
    }

    open spec fn is_read_from(&self, bytes: Seq<u8>) -> bool {
        after_bytes::<Empty>((), bytes, MAX_GROUP_DEPTH as nat) == Some(self.says())
    }

    fn clear_and_parse(&mut self, bytes: &[u8]) -> (r: bool) {
        *self = Empty::new_message();
        merge_bytes(self, bytes, MAX_GROUP_DEPTH)
    }
}

impl Message for SimpleRequest {
    open spec fn is_default(&self) -> bool {
        self.says() == empty_simple_request()
    }

    fn new_message() -> (r: Self) {
        let r = SimpleRequest {
            response_size: 0,
            payload: Payload { body: Vec::new() },
            response_status: EchoStatus::new(),
        };
        assert(r.says().payload =~= Seq::<u8>::empty());
        r
    }
}

impl ParseMessage for SimpleRequest {
    open spec fn is_readable(bytes: Seq<u8>) -> bool {
        after_bytes::<SimpleRequest>(empty_simple_request(), bytes, MAX_GROUP_DEPTH as nat) is Some
    }

    open spec fn is_read_from(&self, bytes: Seq<u8>) -> bool {
        after_bytes::<SimpleRequest>(empty_simple_request(), bytes, MAX_GROUP_DEPTH as nat) == Some(self.says())
    }

    fn clear_and_parse(&mut self, bytes: &[u8]) -> (r: bool) {
        *self = SimpleRequest::new_message();
        merge_bytes(self, bytes, MAX_GROUP_DEPTH)
    }
}

impl Message for StreamingInputCallRequest {
    open spec fn is_default(&self) -> bool {
        self.says() == Seq::<u8>::empty()
    }

    fn new_message() -> (r: Self) {
        let r = StreamingInputCallRequest { payload: Payload { body: Vec::new() } };
        assert(r.says() =~= Seq::<u8>::empty());
        r
    }
}

impl ParseMessage for StreamingInputCallRequest {
    open spec fn is_readable(bytes: Seq<u8>) -> bool {
        after_bytes::<StreamingInputCallRequest>(Seq::<u8>::empty(), bytes, MAX_GROUP_DEPTH as nat) is Some
    }

    open spec fn is_read_from(&self, bytes: Seq<u8>) -> bool {
        after_bytes::<StreamingInputCallRequest>(Seq::<u8>::empty(), bytes, MAX_GROUP_DEPTH as nat) == Some(self.says())
    }

    fn clear_and_parse(&mut self, bytes: &[u8]) -> (r: bool) {
        *self = StreamingInputCallRequest::new_message();
        merge_bytes(self, bytes, MAX_GROUP_DEPTH)
    }
}

impl Message for StreamingOutputCallRequest {
    open spec fn is_default(&self) -> bool {
        self.says() == empty_output_request()
    }

    fn new_message() -> (r: Self) {
        let r = StreamingOutputCallRequest {
            response_parameters: Vec::new(),
            payload: Payload { body: Vec::new() },
            response_status: EchoStatus::new(),
        };
        assert(r.says().sizes =~= Seq::<int>::empty());
        assert(r.says().payload =~= Seq::<u8>::empty());
        r
    }
}

impl ParseMessage for StreamingOutputCallRequest {
    open spec fn is_readable(bytes: Seq<u8>) -> bool {
        after_bytes::<StreamingOutputCallRequest>(empty_output_request(), bytes, MAX_GROUP_DEPTH as nat) is Some
    }

    open spec fn is_read_from(&self, bytes: Seq<u8>) -> bool {
        after_bytes::<StreamingOutputCallRequest>(empty_output_request(), bytes, MAX_GROUP_DEPTH as nat) == Some(self.says())
    }

    fn clear_and_parse(&mut self, bytes: &[u8]) -> (r: bool) {
        *self = StreamingOutputCallRequest::new_message();
        merge_bytes(self, bytes, MAX_GROUP_DEPTH)
    }
}

impl SerializeMessage for Empty {
    open spec fn serialized(&self) -> Option<Seq<u8>> {
        Some(Seq::empty())
    }

    fn serialize(&self) -> (r: Option<Vec<u8>>) {
        let out: Vec<u8> = Vec::new();
        assert(out@ =~= Seq::<u8>::empty());
        Some(out)
    }
}

impl Message for SimpleResponse {
    open spec fn is_default(&self) -> bool {
        self.payload.says().len() == 0
    }

    fn new_message() -> (r: Self) {
        SimpleResponse { payload: Payload { body: Vec::new() } }
    }
}

impl SerializeMessage for SimpleResponse {
    open spec fn serialized(&self) -> Option<Seq<u8>> {
        payload_response(self.payload.says())
    }

    fn serialize(&self) -> (r: Option<Vec<u8>>) {
        let mut out: Vec<u8> = Vec::new();
        let payload = self.payload.to_bytes();
        if payload.len() > MAX_LENGTH {
            return None;
        }
        write_delimited_field(&mut out, 1, payload.as_slice());
        assert(out@ =~= payload_response_bytes(self.payload.says()));
        Some(out)
    }
}

impl Message for StreamingOutputCallResponse {
    open spec fn is_default(&self) -> bool {
        self.payload.says().len() == 0
    }

    fn new_message() -> (r: Self) {
        StreamingOutputCallResponse { payload: Payload { body: Vec::new() } }
    }
}

impl SerializeMessage for StreamingOutputCallResponse {
    open spec fn serialized(&self) -> Option<Seq<u8>> {
        payload_response(self.payload.says())
    }

    fn serialize(&self) -> (r: Option<Vec<u8>>) {
        let mut out: Vec<u8> = Vec::new();
        let payload = self.payload.to_bytes();
        if payload.len() > MAX_LENGTH {
            return None;
        }
        write_delimited_field(&mut out, 1, payload.as_slice());
        assert(out@ =~= payload_response_bytes(self.payload.says()));
        Some(out)
    }
}

impl Message for StreamingInputCallResponse {
    open spec fn is_default(&self) -> bool {
        self.aggregated_payload_size == 0
    }

    fn new_message() -> (r: Self) {
        StreamingInputCallResponse { aggregated_payload_size: 0 }
    }
}

impl SerializeMessage for StreamingInputCallResponse {
    open spec fn serialized(&self) -> Option<Seq<u8>> {
        Some(sum_response_bytes(self.aggregated_payload_size as int))
    }

    fn serialize(&self) -> (r: Option<Vec<u8>>) {
        let mut out: Vec<u8> = Vec::new();
        let n: i32 = self.aggregated_payload_size;
        if n > 0 {
            write_varint_field(&mut out, 1, n as u64);
        } else if n < 0 {
            let low: u64 = (n as i64 + 0x8000_0000) as u64;
            write_varint_field(&mut out, 1, low + 0xffff_ffff_8000_0000);
        }
        assert(out@ =~= sum_response_bytes(n as int));
        Some(out)
    }
}

/// A 32-bit number is read back from the number of variable length that stands for it.
pub proof fn law_int32_reads_back(n: int)
    requires
        i32::MIN <= n <= i32::MAX,
    ensures
        int32_of(varint_of_int32(n)) == n,
        varint_of_int32(n) < 0x1_0000_0000_0000_0000,
{
}

/// The body of a payload is read from its field, and any other number of it is passed over.
pub proof fn law_payload_is_read(before: Seq<u8>, body: Seq<u8>, max: nat)
    requires
        body.len() <= MAX_LENGTH,
    ensures
        after_bytes::<Payload>(before, delimited_field(2, body), max) == Some(body),
        after_bytes::<Payload>(Seq::empty(), payload_bytes(body), max) == Some(body),
{
    let none = Seq::<u8>::empty();
    law_nothing_is_merged::<Payload>(body, max);
    law_bytes_are_merged::<Payload>(before, 2, body, none, max);
    law_bytes_are_merged::<Payload>(none, 2, body, none, max);
    assert(delimited_field(2, body) + none =~= delimited_field(2, body));
    if body.len() == 0 {
        assert(body =~= none);
    }
}

/// The bytes of a status that is to be answered.
pub open spec fn echo_status_bytes(code: int, message: Seq<char>) -> Seq<u8> {
    varint_field(1, varint_of_int32(code)) + delimited_field(2, encode_utf8(message))
}

/// A status that is to be answered is read with its code and its message.
pub proof fn law_echo_status_is_read(before: EchoStatusView, code: int, message: Seq<char>, max: nat)
    requires
        i32::MIN <= code <= i32::MAX,
        encode_utf8(message).len() <= MAX_LENGTH,
    ensures
        after_bytes::<EchoStatus>(before, echo_status_bytes(code, message), max) == Some(
            EchoStatusView { code, message },
        ),
{
    let none = Seq::<u8>::empty();
    let text = encode_utf8(message);
    let first = EchoStatusView { code, ..before };
    law_int32_reads_back(code);
    vstd::utf8::encode_utf8_valid_utf8(message);
    vstd::utf8::encode_utf8_decode_utf8(message);
    law_nothing_is_merged::<EchoStatus>(EchoStatusView { code, message }, max);
    law_bytes_are_merged::<EchoStatus>(first, 2, text, none, max);
    assert(delimited_field(2, text) + none =~= delimited_field(2, text));
    law_number_is_merged::<EchoStatus>(
        before,
        1,
        varint_of_int32(code),
        delimited_field(2, text),
        max,
    );
}

/// A request for one response is read field by field, in any order: the size of the response, the
/// payload and the status that is to be answered each set what the request says of them and nothing
/// else. Other numbers are passed over.
pub proof fn law_simple_request_is_read(
    before: SimpleRequestView,
    size: int,
    body: Seq<u8>,
    code: int,
    message: Seq<char>,
    other: nat,
    rest: Seq<u8>,
)
    requires
        i32::MIN <= size <= i32::MAX,
        i32::MIN <= code <= i32::MAX,
        delimited_field(2, body).len() <= MAX_LENGTH,
        body.len() <= MAX_LENGTH,
        encode_utf8(message).len() <= MAX_LENGTH,
        echo_status_bytes(code, message).len() <= MAX_LENGTH,
        1 <= other < 16 && other != 2,
        fields(rest, Seq::empty(), MAX_GROUP_DEPTH as nat) is Some,
    ensures
        after_bytes::<SimpleRequest>(
            before,
            varint_field(2, varint_of_int32(size)) + rest,
            MAX_GROUP_DEPTH as nat,
        ) == after_bytes::<SimpleRequest>(
            SimpleRequestView { response_size: size, ..before },
            rest,
            MAX_GROUP_DEPTH as nat,
        ),
        after_bytes::<SimpleRequest>(
            before,
            delimited_field(3, delimited_field(2, body)) + rest,
            MAX_GROUP_DEPTH as nat,
        ) == after_bytes::<SimpleRequest>(
            SimpleRequestView { payload: body, ..before },
            rest,
            MAX_GROUP_DEPTH as nat,
        ),
        after_bytes::<SimpleRequest>(
            before,
            delimited_field(7, echo_status_bytes(code, message)) + rest,
            MAX_GROUP_DEPTH as nat,
        ) == after_bytes::<SimpleRequest>(
            SimpleRequestView { response_status: EchoStatusView { code, message }, ..before },
            rest,
            MAX_GROUP_DEPTH as nat,
        ),
        after_bytes::<SimpleRequest>(
            before,
            varint_field(other, varint_of_int32(size)) + rest,
            MAX_GROUP_DEPTH as nat,
        ) == after_bytes::<SimpleRequest>(before, rest, MAX_GROUP_DEPTH as nat),
        after_bytes::<SimpleRequest>(before, Seq::empty(), MAX_GROUP_DEPTH as nat) == Some(before),
{
    let max = MAX_GROUP_DEPTH as nat;
    let inside = MAX_GROUP_DEPTH_INSIDE as nat;
    law_int32_reads_back(size);
    law_payload_is_read(before.payload, body, inside);
    law_echo_status_is_read(before.response_status, code, message, inside);
    law_number_is_merged::<SimpleRequest>(before, 2, varint_of_int32(size), rest, max);
    law_number_is_merged::<SimpleRequest>(before, other, varint_of_int32(size), rest, max);
    law_bytes_are_merged::<SimpleRequest>(before, 3, delimited_field(2, body), rest, max);
    law_bytes_are_merged::<SimpleRequest>(before, 7, echo_status_bytes(code, message), rest, max);
    law_nothing_is_merged::<SimpleRequest>(before, max);
}

/// A request for a stream of responses is read field by field, in any order: each size that is
/// asked for is added to those before it, and the payload and the status are set.
pub proof fn law_output_request_is_read(
    before: StreamingOutputCallRequestView,
    size: int,
    body: Seq<u8>,
    code: int,
    message: Seq<char>,
    rest: Seq<u8>,
)
    requires
        i32::MIN <= size <= i32::MAX,
        i32::MIN <= code <= i32::MAX,
        varint_field(1, varint_of_int32(size)).len() <= MAX_LENGTH,
        delimited_field(2, body).len() <= MAX_LENGTH,
        body.len() <= MAX_LENGTH,
        encode_utf8(message).len() <= MAX_LENGTH,
        echo_status_bytes(code, message).len() <= MAX_LENGTH,
        fields(rest, Seq::empty(), MAX_GROUP_DEPTH as nat) is Some,
    ensures
        after_bytes::<StreamingOutputCallRequest>(
            before,
            delimited_field(2, varint_field(1, varint_of_int32(size))) + rest,
            MAX_GROUP_DEPTH as nat,
        ) == after_bytes::<StreamingOutputCallRequest>(
            StreamingOutputCallRequestView { sizes: before.sizes.push(size), ..before },
            rest,
            MAX_GROUP_DEPTH as nat,
        ),
        after_bytes::<StreamingOutputCallRequest>(
            before,
            delimited_field(3, delimited_field(2, body)) + rest,
            MAX_GROUP_DEPTH as nat,
        ) == after_bytes::<StreamingOutputCallRequest>(
            StreamingOutputCallRequestView { payload: body, ..before },
            rest,
            MAX_GROUP_DEPTH as nat,
        ),
        after_bytes::<StreamingOutputCallRequest>(
            before,
            delimited_field(7, echo_status_bytes(code, message)) + rest,
            MAX_GROUP_DEPTH as nat,
        ) == after_bytes::<StreamingOutputCallRequest>(
            StreamingOutputCallRequestView {
                response_status: EchoStatusView { code, message },
                ..before
            },
            rest,
            MAX_GROUP_DEPTH as nat,
        ),
        after_bytes::<StreamingOutputCallRequest>(before, Seq::empty(), MAX_GROUP_DEPTH as nat)
            == Some(before),
{
    let max = MAX_GROUP_DEPTH as nat;
    let inside = MAX_GROUP_DEPTH_INSIDE as nat;
    law_parameters_are_read(size, inside);
    law_payload_is_read(before.payload, body, inside);
    law_echo_status_is_read(before.response_status, code, message, inside);
    law_bytes_are_merged::<StreamingOutputCallRequest>(
        before,
        2,
        varint_field(1, varint_of_int32(size)),
        rest,
        max,
    );
    law_bytes_are_merged::<StreamingOutputCallRequest>(
        before,
        3,
        delimited_field(2, body),
        rest,
        max,
    );
    law_bytes_are_merged::<StreamingOutputCallRequest>(
        before,
        7,
        echo_status_bytes(code, message),
        rest,
        max,
    );
    law_nothing_is_merged::<StreamingOutputCallRequest>(before, max);
}

/// The size that is asked for is read from its field.
pub proof fn law_parameters_are_read(size: int, max: nat)
    requires
        i32::MIN <= size <= i32::MAX,
    ensures
        after_bytes::<ResponseParameters>(0, varint_field(1, varint_of_int32(size)), max) == Some(
            size,
        ),
{
    let none = Seq::<u8>::empty();
    law_int32_reads_back(size);
    law_nothing_is_merged::<ResponseParameters>(size, max);
    law_number_is_merged::<ResponseParameters>(0, 1, varint_of_int32(size), none, max);
    assert(varint_field(1, varint_of_int32(size)) + none =~= varint_field(
        1,
        varint_of_int32(size),
    ));
}

/// A response with a payload is read back: who reads the payload in its first field finds the body.
/// A request of a stream, which has its payload there too, serves as such a reader.
pub proof fn law_payload_response_reads_back(body: Seq<u8>)
    requires
        payload_bytes(body).len() <= MAX_LENGTH,
        body.len() <= MAX_LENGTH,
    ensures
        payload_response(body) matches Some(b) && after_bytes::<StreamingInputCallRequest>(
            Seq::<u8>::empty(),
            b,
            MAX_GROUP_DEPTH as nat,
        ) == Some(body),
{
    let none = Seq::<u8>::empty();
    let max = MAX_GROUP_DEPTH as nat;
    law_payload_is_read(none, body, MAX_GROUP_DEPTH_INSIDE as nat);
    law_nothing_is_merged::<StreamingInputCallRequest>(body, max);
    law_bytes_are_merged::<StreamingInputCallRequest>(none, 1, payload_bytes(body), none, max);
    assert(payload_response_bytes(body) + none =~= payload_response_bytes(body));
}

/// A response with a sum is read back: who reads the number in its first field finds the sum, and
/// finds none where it is zero.
pub proof fn law_sum_response_reads_back(sum: int)
    requires
        i32::MIN <= sum <= i32::MAX,
    ensures
        after_bytes::<ResponseParameters>(0, sum_response_bytes(sum), MAX_GROUP_DEPTH as nat)
            == Some(sum),
{
    law_parameters_are_read(sum, MAX_GROUP_DEPTH as nat);
    law_nothing_is_merged::<ResponseParameters>(0, MAX_GROUP_DEPTH as nat);
}


/// The layout of the responses: a payload in the field 1 with its body in the field 2, and a sum in
/// the field 1. An empty body and a sum of zero are left out.
pub proof fn law_response_layout(body: Seq<u8>, sum: int)
    requires
        i32::MIN <= sum <= i32::MAX,
    ensures
        payload_response(body) matches Some(b) ==> b == if body.len() == 0 {
            delimited_field(1, Seq::empty())
        } else {
            delimited_field(1, delimited_field(2, body))
        },
        payload_response(body) is None ==> delimited_field(2, body).len() > MAX_LENGTH,
        sum_response_bytes(sum) == if sum == 0 {
            Seq::<u8>::empty()
        } else {
            varint_field(1, varint_of_int32(sum))
        },
{
}


/// A new request has nothing set, whoever made it.
pub proof fn law_new_requests_are_empty(
    simple: SimpleRequest,
    output: StreamingOutputCallRequest,
    input: StreamingInputCallRequest,
)
    requires
        simple.is_default(),
        output.is_default(),
        input.is_default(),
    ensures
        simple.response_size == 0,
        simple.payload.body@.len() == 0,
        simple.response_status.code == 0,
        simple.response_status.message@.len() == 0,
        output.response_parameters@.len() == 0,
        output.payload.body@.len() == 0,
        output.response_status.code == 0,
        output.response_status.message@.len() == 0,
        input.payload.body@.len() == 0,
        empty_simple_request() == simple.says(),
        empty_output_request() == output.says(),
{
    assert(output.says().sizes.len() == output.response_parameters@.len());
}

/// A request that was read says what its bytes say: the size and the status that are asked for, and
/// nothing that is not in them.
pub proof fn law_request_says_what_was_read(
    simple: SimpleRequest,
    output: StreamingOutputCallRequest,
    size: int,
    code: int,
    message: Seq<char>,
)
    requires
        i32::MIN <= size <= i32::MAX,
        i32::MIN <= code <= i32::MAX,
        encode_utf8(message).len() <= MAX_LENGTH,
        echo_status_bytes(code, message).len() <= MAX_LENGTH,
        varint_field(1, varint_of_int32(size)).len() <= MAX_LENGTH,
        simple.is_read_from(
            varint_field(2, varint_of_int32(size)) + (delimited_field(
                7,
                echo_status_bytes(code, message),
            ) + Seq::empty()),
        ),
        output.is_read_from(
            delimited_field(2, varint_field(1, varint_of_int32(size))) + Seq::empty(),
        ),
    ensures
        simple.response_size == size,
        simple.response_status.code == code,
        simple.response_status.message@ == message,
        simple.payload.body@.len() == 0,
        output.response_parameters@.len() == 1,
        output.response_parameters@[0].size == size,
        output.response_status.code == 0,
{
    let none = Seq::<u8>::empty();
    let max = MAX_GROUP_DEPTH as nat;
    let tail = delimited_field(7, echo_status_bytes(code, message)) + none;
    assert(fields(none, Seq::empty(), max) is Some);
    crate::protobuf::wire::law_fields_are_read(
        7,
        0,
        echo_status_bytes(code, message),
        none,
        max,
    );
    let body = Seq::<u8>::empty();
    assert(delimited_field(2, body).len() <= MAX_LENGTH) by {
        crate::protobuf::wire::lemma_delimited_size(2, body);
    }
    let empty = empty_simple_request();
    law_simple_request_is_read(empty, size, body, code, message, 1, tail);
    let sized = SimpleRequestView { response_size: size, ..empty };
    law_simple_request_is_read(sized, size, body, code, message, 1, none);
    law_simple_request_is_read(
        SimpleRequestView { response_status: EchoStatusView { code, message }, ..sized },
        size,
        body,
        code,
        message,
        1,
        none,
    );
    let start = empty_output_request();
    law_output_request_is_read(start, size, body, code, message, none);
    let asked = StreamingOutputCallRequestView { sizes: start.sizes.push(size), ..start };
    law_output_request_is_read(asked, size, body, code, message, none);
    assert(output.says().sizes.len() == 1);
    assert(output.says().sizes[0] == size);
}

} // verus!
