//! The message `google.rpc.Status`, which carries the payloads of a status.
//!
//! Its fields are the code (1), the message (2) and the details (3), each detail an `Any`.

use crate::protobuf::any::{
    any_bytes, any_inside, lemma_any_bytes, lemma_any_size, parse_any_inside, serialize_any,
};
use crate::protobuf::status::{payload_views, PayloadView};
use crate::protobuf::wire::{
    delimited_field, field_views, fields, lemma_delimited_field, lemma_varint_field, read_fields,
    varint_bytes, varint_field, write_delimited_field, write_varint_field, Field, FieldValue, FieldView,
    MAX_GROUP_DEPTH, MAX_LENGTH, ValueView,
};
use crate::status::StatusCodeError;
use crate::text::{copied, text_from_utf8};
use vstd::prelude::*;
use vstd::utf8::{decode_utf8, encode_utf8, valid_utf8};

verus! {

/// A `google.rpc.Status`.
#[derive(Debug)]
pub struct RpcStatus {
    /// The code.
    pub code: i32,
    /// The message.
    pub message: String,
    /// The details: the type and the bytes of each.
    pub details: Vec<(Vec<u8>, Vec<u8>)>,
}

/// What an [`RpcStatus`] says.
pub struct RpcStatusView {
    /// The code.
    pub code: int,
    /// The message.
    pub message: Seq<char>,
    /// The details.
    pub details: Seq<PayloadView>,
}

impl View for RpcStatus {
    type V = RpcStatusView;

    open spec fn view(&self) -> RpcStatusView {
        RpcStatusView {
            code: self.code as int,
            message: self.message@,
            details: payload_views(self.details@),
        }
    }
}

/// The 32-bit number that a number of variable length stands for.
pub open spec fn int32_of(v: nat) -> int {
    let w = v % 0x1_0000_0000;
    if w < 0x8000_0000 {
        w as int
    } else {
        w - 0x1_0000_0000
    }
}

/// The status after a field was read, where the field can be. Later codes and messages replace
/// earlier ones; fields of another number or kind are skipped.
pub open spec fn after_field(s: RpcStatusView, f: FieldView) -> Option<RpcStatusView> {
    match f.value {
        ValueView::Varint(v) => if f.number == 1 {
            Some(RpcStatusView { code: int32_of(v), ..s })
        } else {
            Some(s)
        },
        ValueView::Delimited(b) => if f.number == 2 {
            if valid_utf8(b) {
                Some(RpcStatusView { message: decode_utf8(b), ..s })
            } else {
                None
            }
        } else if f.number == 3 {
            match any_inside(b) {
                Some(p) => Some(RpcStatusView { details: s.details.push(p), ..s }),
                None => None,
            }
        } else {
            Some(s)
        },
        _ => Some(s),
    }
}

/// The status without any field.
pub open spec fn empty_status() -> RpcStatusView {
    RpcStatusView { code: 0, message: Seq::empty(), details: Seq::empty() }
}

/// The status that a list of fields stands for.
pub open spec fn status_of_fields(fs: Seq<FieldView>) -> Option<RpcStatusView>
    decreases fs.len(),
{
    if fs.len() == 0 {
        Some(empty_status())
    } else {
        match status_of_fields(fs.drop_last()) {
            Some(s) => after_field(s, fs.last()),
            None => None,
        }
    }
}

/// The status that bytes stand for, where they stand for one.
pub open spec fn decoded_status(b: Seq<u8>) -> Option<RpcStatusView> {
    match fields(b, Seq::empty(), MAX_GROUP_DEPTH as nat) {
        Some(fs) => status_of_fields(fs),
        None => None,
    }
}

/// Reads one field into a status.
fn read_field(status: RpcStatus, field: &Field) -> (r: Option<RpcStatus>)
    ensures
        match after_field(status@, field@) {
            Some(s) => r matches Some(rs) && rs@ == s,
            None => r is None,
        },
{
    let mut status = status;
    match &field.value {
        FieldValue::Varint(v) => {
            if field.number == 1 {
                let w: u64 = *v % 0x1_0000_0000;
                status.code = if w < 0x8000_0000 {
                    w as i32
                } else {
                    (w as i64 - 0x1_0000_0000) as i32
                };
            }
            Some(status)
        },
        FieldValue::Delimited(b) => {
            if field.number == 2 {
                match text_from_utf8(copied(b.as_slice())) {
                    Some(s) => {
                        proof {
                            vstd::utf8::encode_utf8_decode_utf8(s@);
                        }
                        status.message = s;
                        Some(status)
                    },
                    None => None,
                }
            } else if field.number == 3 {
                match parse_any_inside(b.as_slice()) {
                    Some(p) => {
                        let ghost before = payload_views(status.details@);
                        let ghost shown = (p.0@, p.1@);
                        status.details.push(p);
                        assert(payload_views(status.details@) =~= before.push(shown));
                        Some(status)
                    },
                    None => None,
                }
            } else {
                Some(status)
            }
        },
        FieldValue::Fixed64 => Some(status),
        FieldValue::Fixed32 => Some(status),
    }
}

/// A list of fields that cannot be read stays so when more follow.
proof fn lemma_stays_unreadable(fs: Seq<FieldView>, i: int)
    requires
        0 <= i <= fs.len(),
        status_of_fields(fs.take(i)) is None,
    ensures
        status_of_fields(fs) is None,
    decreases fs.len() - i,
{
    if i == fs.len() {
        assert(fs.take(i) =~= fs);
    } else {
        assert(fs.take(i + 1).drop_last() =~= fs.take(i));
        lemma_stays_unreadable(fs, i + 1);
    }
}

/// Reads a status from its bytes.
pub fn decode_status(b: &[u8]) -> (r: Option<RpcStatus>)
    ensures
        match decoded_status(b@) {
            Some(s) => r matches Some(rs) && rs@ == s,
            None => r is None,
        },
{
    let list = match read_fields(b, MAX_GROUP_DEPTH) {
        Some(list) => list,
        None => {
            return None;
        },
    };
    let ghost fs = field_views(list@);
    let mut status = RpcStatus { code: 0, message: String::new(), details: Vec::new() };
    proof {
        assert(status@.message =~= Seq::<char>::empty());
        assert(status@.details =~= Seq::<PayloadView>::empty());
        assert(fs.take(0) =~= Seq::empty());
    }
    let mut i: usize = 0;
    while i < list.len()
        invariant
            i <= list@.len(),
            fs == field_views(list@),
            fields(b@, Seq::empty(), MAX_GROUP_DEPTH as nat) == Some(fs),
            status_of_fields(fs.take(i as int)) == Some(status@),
        decreases list@.len() - i,
    {
        proof {
            assert(fs.take(i + 1).drop_last() =~= fs.take(i as int));
            assert(fs.take(i + 1).last() == list@[i as int]@);
        }
        match read_field(status, &list[i]) {
            Some(s) => {
                status = s;
            },
            None => {
                proof {
                    lemma_stays_unreadable(fs, i + 1);
                }
                return None;
            },
        }
        i += 1;
    }
    assert(fs.take(i as int) =~= fs);
    Some(status)
}

/// The payloads whose types are valid UTF-8.
pub open spec fn kept(payloads: Seq<PayloadView>) -> Seq<PayloadView>
    decreases payloads.len(),
{
    if payloads.len() == 0 {
        Seq::empty()
    } else {
        let before = kept(payloads.drop_last());
        if valid_utf8(payloads.last().0) {
            before.push(payloads.last())
        } else {
            before
        }
    }
}

/// The bytes of the details: one for each payload whose type is valid UTF-8.
pub open spec fn details_of(payloads: Seq<PayloadView>) -> Seq<Seq<u8>> {
    kept(payloads).map_values(|p: PayloadView| any_bytes(p.0, p.1))
}

/// The fields of details, one behind the other.
pub open spec fn detail_fields(details: Seq<Seq<u8>>) -> Seq<u8>
    decreases details.len(),
{
    if details.len() == 0 {
        Seq::empty()
    } else {
        detail_fields(details.drop_last()) + delimited_field(3, details.last())
    }
}

/// The fields of the code and the message. An empty message has none.
pub open spec fn head_fields(code: StatusCodeError, message: Seq<char>) -> Seq<u8> {
    varint_field(1, code.number() as nat) + if message.len() == 0 {
        Seq::empty()
    } else {
        delimited_field(2, encode_utf8(message))
    }
}

/// Whether a status can be serialized: neither its message nor a detail is longer than a length on
/// the wire may say.
pub open spec fn can_be_serialized(message: Seq<char>, payloads: Seq<PayloadView>) -> bool {
    &&& encode_utf8(message).len() <= MAX_LENGTH
    &&& forall|i: int|
        0 <= i < kept(payloads).len() ==> any_bytes(
            (#[trigger] kept(payloads)[i]).0,
            kept(payloads)[i].1,
        ).len() <= MAX_LENGTH
}

/// The bytes of a status with a code, a message and payloads, where it can be serialized. A payload
/// whose type is no valid UTF-8 is left out.
pub open spec fn encoded_status(
    code: StatusCodeError,
    message: Seq<char>,
    payloads: Seq<PayloadView>,
) -> Option<Seq<u8>> {
    if can_be_serialized(message, payloads) {
        Some(head_fields(code, message) + detail_fields(details_of(payloads)))
    } else {
        None
    }
}

/// What is kept of payloads are payloads among them.
pub proof fn lemma_kept_are_payloads(payloads: Seq<PayloadView>)
    ensures
        forall|i: int|
            0 <= i < kept(payloads).len() ==> payloads.contains(#[trigger] kept(payloads)[i]),
    decreases payloads.len(),
{
    if payloads.len() > 0 {
        let init = payloads.drop_last();
        lemma_kept_are_payloads(init);
        assert forall|i: int| 0 <= i < kept(payloads).len() implies payloads.contains(
            #[trigger] kept(payloads)[i],
        ) by {
            if i < kept(init).len() {
                let j = choose|j: int| 0 <= j < init.len() && init[j] == kept(init)[i];
                assert(payloads[j] == kept(payloads)[i]);
            } else {
                assert(payloads[payloads.len() - 1] == kept(payloads)[i]);
            }
        }
    }
}

/// A status can be serialized where its message is no longer than a length on the wire may say, and
/// each payload with its type is so by twelve bytes.
pub proof fn law_small_status_can_be_serialized(message: Seq<char>, payloads: Seq<PayloadView>)
    requires
        encode_utf8(message).len() <= MAX_LENGTH,
        forall|i: int|
            0 <= i < payloads.len() ==> (#[trigger] payloads[i]).0.len() + payloads[i].1.len() + 12
                <= MAX_LENGTH,
    ensures
        can_be_serialized(message, payloads),
{
    lemma_kept_are_payloads(payloads);
    assert forall|i: int| 0 <= i < kept(payloads).len() implies any_bytes(
        (#[trigger] kept(payloads)[i]).0,
        kept(payloads)[i].1,
    ).len() <= MAX_LENGTH by {
        let j = choose|j: int| 0 <= j < payloads.len() && payloads[j] == kept(payloads)[i];
        lemma_any_size(payloads[j].0, payloads[j].1);
    }
}

/// Whether the details of payloads parse back to these payloads.
pub open spec fn payloads_parse_back(payloads: Seq<PayloadView>) -> bool {
    forall|i: int|
        0 <= i < payloads.len() ==> any_inside(
            any_bytes((#[trigger] payloads[i]).0, payloads[i].1),
        ) == Some(payloads[i])
}

/// What is kept of the first payloads comes first in what is kept of all.
proof fn lemma_kept_of_first(payloads: Seq<PayloadView>, i: int)
    requires
        0 <= i <= payloads.len(),
    ensures
        kept(payloads.take(i)).is_prefix_of(kept(payloads)),
    decreases payloads.len() - i,
{
    if i == payloads.len() {
        assert(payloads.take(i) =~= payloads);
    } else {
        assert(payloads.take(i + 1).drop_last() =~= payloads.take(i));
        lemma_kept_of_first(payloads, i + 1);
    }
}

/// Writes a status with a code, a message and payloads.
pub fn encode_rpc_status(
    code: StatusCodeError,
    message: &str,
    payloads: Vec<(Vec<u8>, Vec<u8>)>,
) -> (r: Option<Vec<u8>>)
    ensures
        match encoded_status(code, message@, payload_views(payloads@)) {
            Some(b) => r matches Some(rb) && rb@ == b,
            None => r is None,
        },
        r is Some ==> payloads_parse_back(kept(payload_views(payloads@))),
{
    let ghost all = payload_views(payloads@);
    if message.as_bytes().len() > MAX_LENGTH {
        return None;
    }
    let mut out: Vec<u8> = Vec::new();
    write_varint_field(&mut out, 1, code.value() as u64);
    if !message.is_empty() {
        write_delimited_field(&mut out, 2, message.as_bytes());
    }
    proof {
        assert(out@ =~= head_fields(code, message@));
        assert(all.take(0) =~= Seq::empty());
        assert(details_of(all.take(0)) =~= Seq::empty());
        assert(head_fields(code, message@) + detail_fields(Seq::empty()) =~= out@);
    }
    let mut i: usize = 0;
    while i < payloads.len()
        invariant
            i <= payloads@.len(),
            all == payload_views(payloads@),
            can_be_serialized(message@, all.take(i as int)),
            out@ == head_fields(code, message@) + detail_fields(details_of(all.take(i as int))),
            payloads_parse_back(kept(all.take(i as int))),
        decreases payloads@.len() - i,
    {
        let ghost before = kept(all.take(i as int));
        let ghost sofar = out@;
        proof {
            assert(all.take(i + 1).drop_last() =~= all.take(i as int));
            assert(all.take(i + 1).last() == all[i as int]);
            assert(all[i as int] == (payloads@[i as int].0@, payloads@[i as int].1@));
        }
        if let Some(type_url) = text_from_utf8(copied(payloads[i].0.as_slice())) {
            let ghost after = kept(all.take(i + 1));
            proof {
                vstd::utf8::encode_utf8_decode_utf8(type_url@);
                assert(after == before.push(all[i as int]));
                lemma_kept_of_first(all, i + 1);
                assert(kept(all).take(after.len() as int)[before.len() as int] == all[i as int]);
                if any_bytes(all[i as int].0, all[i as int].1).len() <= MAX_LENGTH {
                    lemma_any_bytes(all[i as int].0, all[i as int].1);
                }
            }
            match serialize_any(type_url.as_str(), payloads[i].1.as_slice()) {
                Some(any) => {
                    if any.len() > MAX_LENGTH {
                        return None;
                    }
                    write_delimited_field(&mut out, 3, any.as_slice());
                    proof {
                        let details = details_of(all.take(i + 1));
                        assert(details.drop_last() =~= details_of(all.take(i as int)));
                        assert(details.last() == any@);
                        assert(out@ =~= head_fields(code, message@) + detail_fields(details));
                    }
                },
                None => {
                    return None;
                },
            }
        }
        i += 1;
    }
    assert(all.take(i as int) =~= all);
    Some(out)
}

/// A list of fields in front of others.
spec fn in_front(list: Seq<FieldView>, rest: Option<Seq<FieldView>>) -> Option<Seq<FieldView>> {
    match rest {
        Some(fs) => Some(list + fs),
        None => None,
    }
}

/// The fields of details, as they are read.
spec fn detail_views(details: Seq<Seq<u8>>) -> Seq<FieldView> {
    details.map_values(|d: Seq<u8>| FieldView { number: 3, value: ValueView::Delimited(d) })
}

/// The fields of details are read back.
proof fn lemma_detail_fields(details: Seq<Seq<u8>>, rest: Seq<u8>)
    requires
        forall|i: int| 0 <= i < details.len() ==> (#[trigger] details[i]).len() <= MAX_LENGTH,
    ensures
        fields(detail_fields(details) + rest, Seq::empty(), MAX_GROUP_DEPTH as nat) == in_front(
            detail_views(details),
            fields(rest, Seq::empty(), MAX_GROUP_DEPTH as nat),
        ),
    decreases details.len(),
{
    if details.len() == 0 {
        assert(detail_fields(details) + rest =~= rest);
        if let Some(fs) = fields(rest, Seq::empty(), MAX_GROUP_DEPTH as nat) {
            assert(detail_views(details) + fs =~= fs);
        }
    } else {
        let init = details.drop_last();
        let last = details.last();
        assert forall|i: int| 0 <= i < init.len() implies (#[trigger] init[i]).len()
            <= MAX_LENGTH by {
            assert(init[i] == details[i]);
        }
        assert(last == details[details.len() - 1]);
        lemma_detail_fields(init, delimited_field(3, last) + rest);
        lemma_delimited_field(3, last, rest, MAX_GROUP_DEPTH as nat);
        assert(detail_fields(details) + rest =~= detail_fields(init) + (delimited_field(3, last)
            + rest));
        if let Some(fs) = fields(rest, Seq::empty(), MAX_GROUP_DEPTH as nat) {
            let f = FieldView { number: 3, value: ValueView::Delimited(last) };
            assert(detail_views(init) + (seq![f] + fs) =~= detail_views(details) + fs);
        }
    }
}

/// Details that parse back are added to a status one by one.
proof fn lemma_status_of_details(
    head: Seq<FieldView>,
    details: Seq<Seq<u8>>,
    payloads: Seq<PayloadView>,
)
    requires
        status_of_fields(head) is Some,
        details.len() == payloads.len(),
        forall|i: int|
            0 <= i < details.len() ==> any_inside(#[trigger] details[i]) == Some(payloads[i]),
    ensures
        status_of_fields(head + detail_views(details)) == Some(
            RpcStatusView {
                details: status_of_fields(head)->Some_0.details + payloads,
                ..status_of_fields(head)->Some_0
            },
        ),
    decreases details.len(),
{
    let s = status_of_fields(head)->Some_0;
    if details.len() == 0 {
        assert(head + detail_views(details) =~= head);
        assert(s.details + payloads =~= s.details);
    } else {
        let init = details.drop_last();
        let pinit = payloads.drop_last();
        assert forall|i: int| 0 <= i < init.len() implies any_inside(#[trigger] init[i]) == Some(
            pinit[i],
        ) by {
            assert(init[i] == details[i]);
        }
        lemma_status_of_details(head, init, pinit);
        let whole = head + detail_views(details);
        assert(whole.drop_last() =~= head + detail_views(init));
        assert(whole.last() == FieldView {
            number: 3,
            value: ValueView::Delimited(details[details.len() - 1]),
        });
        assert((s.details + pinit).push(payloads.last()) =~= s.details + payloads);
    }
}

/// The fields of the code and the message, as they are read.
spec fn head_views(code: StatusCodeError, message: Seq<char>) -> Seq<FieldView> {
    let first = FieldView { number: 1, value: ValueView::Varint(code.number() as nat) };
    if message.len() == 0 {
        seq![first]
    } else {
        seq![
            first,
            FieldView { number: 2, value: ValueView::Delimited(encode_utf8(message)) },
        ]
    }
}

/// The fields of the code and the message are read back.
proof fn lemma_head_fields(code: StatusCodeError, message: Seq<char>, rest: Seq<u8>)
    requires
        encode_utf8(message).len() <= MAX_LENGTH,
    ensures
        fields(head_fields(code, message) + rest, Seq::empty(), MAX_GROUP_DEPTH as nat)
            == in_front(
            head_views(code, message),
            fields(rest, Seq::empty(), MAX_GROUP_DEPTH as nat),
        ),
{
    let max = MAX_GROUP_DEPTH as nat;
    let n = code.number() as nat;
    let first = FieldView { number: 1, value: ValueView::Varint(n) };
    code.lemma_number_round_trip();
    if message.len() == 0 {
        assert(head_fields(code, message) + rest =~= varint_field(1, n) + rest);
        lemma_varint_field(1, n, rest, max);
    } else {
        let text = encode_utf8(message);
        let second = FieldView { number: 2, value: ValueView::Delimited(text) };
        let behind = delimited_field(2, text) + rest;
        assert(head_fields(code, message) + rest =~= varint_field(1, n) + behind);
        lemma_varint_field(1, n, behind, max);
        lemma_delimited_field(2, text, rest, max);
        if let Some(fs) = fields(rest, Seq::empty(), max) {
            assert(seq![first] + (seq![second] + fs) =~= seq![first, second] + fs);
        }
    }
}

/// The fields of the code and the message stand for these.
proof fn lemma_status_of_head(code: StatusCodeError, message: Seq<char>)
    ensures
        status_of_fields(head_views(code, message)) == Some(
            RpcStatusView { code: code.number(), message, details: Seq::empty() },
        ),
{
    let n = code.number() as nat;
    let first = FieldView { number: 1, value: ValueView::Varint(n) };
    let one = seq![first];
    code.lemma_number_round_trip();
    assert(int32_of(n) == code.number());
    assert(one.drop_last() =~= Seq::empty());
    assert(status_of_fields(one.drop_last()) == Some(empty_status()));
    assert(one.last() == first);
    assert(status_of_fields(one) == after_field(empty_status(), first));
    if message.len() == 0 {
        assert(message =~= Seq::empty());
    } else {
        let text = encode_utf8(message);
        let second = FieldView { number: 2, value: ValueView::Delimited(text) };
        let two = seq![first, second];
        vstd::utf8::encode_utf8_valid_utf8(message);
        vstd::utf8::encode_utf8_decode_utf8(message);
        assert(two.drop_last() =~= one);
        assert(two.last() == second);
        assert(status_of_fields(two) == after_field(status_of_fields(one)->Some_0, second));
    }
}

/// What was written is read back: the code's number, the message, and the payloads whose types
/// are valid UTF-8, in order.
pub proof fn law_status_round_trip(
    code: StatusCodeError,
    message: Seq<char>,
    payloads: Seq<PayloadView>,
)
    ensures
        encoded_status(code, message, payloads) matches Some(b) ==> (payloads_parse_back(
            kept(payloads),
        ) ==> decoded_status(b) == Some(
            RpcStatusView { code: code.number(), message, details: kept(payloads) },
        )),
{
    if can_be_serialized(message, payloads) && payloads_parse_back(kept(payloads)) {
        let max = MAX_GROUP_DEPTH as nat;
        let details = details_of(payloads);
        let tail = detail_fields(details);
        let head = head_views(code, message);
        let none = Seq::<u8>::empty();
        assert forall|i: int| 0 <= i < details.len() implies (#[trigger] details[i]).len()
            <= MAX_LENGTH by {
            assert(details[i] == any_bytes(kept(payloads)[i].0, kept(payloads)[i].1));
        }
        lemma_detail_fields(details, none);
        assert(fields(none, Seq::empty(), max) == Some(Seq::<FieldView>::empty()));
        assert(tail + none =~= tail);
        assert(detail_views(details) + Seq::<FieldView>::empty() =~= detail_views(details));
        lemma_head_fields(code, message, tail);
        lemma_status_of_head(code, message);
        assert forall|i: int| 0 <= i < details.len() implies any_inside(#[trigger] details[i])
            == Some(kept(payloads)[i]) by {
            let p = kept(payloads)[i];
            assert(details[i] == any_bytes(p.0, p.1));
        }
        lemma_status_of_details(head, details, kept(payloads));
        assert(Seq::<PayloadView>::empty() + kept(payloads) =~= kept(payloads));
    }
}


/// The layout of a status: the code in the field 1, the message in the field 2, unless it is empty,
/// and each detail in a field 3. In a detail the type is in the field 1 and the value in the field
/// 2.
pub proof fn law_status_layout(
    code: StatusCodeError,
    message: Seq<char>,
    type_url: Seq<u8>,
    value: Seq<u8>,
)
    requires
        encode_utf8(message).len() <= MAX_LENGTH,
        valid_utf8(type_url),
        0 < type_url.len(),
        0 < value.len(),
        any_bytes(type_url, value).len() <= MAX_LENGTH,
    ensures
        ({
            let none = Seq::<PayloadView>::empty();
            let one = seq![(type_url, value)];
            let number = seq![8u8, code.number() as u8];
            let text = if message.len() == 0 {
                Seq::<u8>::empty()
            } else {
                seq![18u8] + varint_bytes(encode_utf8(message).len()) + encode_utf8(message)
            };
            let detail = seq![10u8] + varint_bytes(type_url.len()) + type_url + (seq![18u8]
                + varint_bytes(value.len()) + value);
            &&& encoded_status(code, message, none) == Some(number + text)
            &&& encoded_status(code, message, one) == Some(
                number + text + (seq![26u8] + varint_bytes(detail.len()) + detail),
            )
        }),
{
    let none = Seq::<PayloadView>::empty();
    let one = seq![(type_url, value)];
    assert(kept(none) =~= none);
    assert(one.drop_last() =~= none);
    assert(kept(one) =~= one);
    assert(details_of(none) =~= Seq::<Seq<u8>>::empty());
    assert(detail_fields(details_of(none)) =~= Seq::<u8>::empty());
    assert(details_of(one) =~= seq![any_bytes(type_url, value)]);
    assert(details_of(one).drop_last() =~= Seq::<Seq<u8>>::empty());
    assert(detail_fields(details_of(one).drop_last()) =~= Seq::<u8>::empty());
    let bytes = encode_utf8(message);
    let number = seq![8u8, code.number() as u8];
    assert(1 <= code.number() <= 16);
    assert(varint_field(1, code.number() as nat) =~= number);
    let text = if message.len() == 0 {
        Seq::<u8>::empty()
    } else {
        seq![18u8] + varint_bytes(bytes.len()) + bytes
    };
    assert(head_fields(code, message) =~= number + text);
    let detail = seq![10u8] + varint_bytes(type_url.len()) + type_url + (seq![18u8] + varint_bytes(
        value.len(),
    ) + value);
    assert(any_bytes(type_url, value) =~= detail);
    assert(detail_fields(details_of(one)) =~= seq![26u8] + varint_bytes(detail.len()) + detail);
    assert(number + text + Seq::<u8>::empty() =~= number + text);
    assert(can_be_serialized(message, none));
    assert(can_be_serialized(message, one)) by {
        assert forall|i: int| 0 <= i < kept(one).len() implies any_bytes(
            (#[trigger] kept(one)[i]).0,
            kept(one)[i].1,
        ).len() <= MAX_LENGTH by {
            assert(kept(one)[i] == (type_url, value));
        }
    }
}


/// The fields of a status are taken in order: a later code or message takes the place of an earlier
/// one, details are added behind those that are there, and fields that a status does not have are
/// skipped. A message that is no valid UTF-8 and a detail that is no `Any` make it unreadable.
pub proof fn law_status_fields_are_taken(fs: Seq<FieldView>, f: FieldView)
    ensures
        status_of_fields(fs) is None ==> status_of_fields(fs.push(f)) is None,
        status_of_fields(fs) matches Some(s) ==> {
            let after = status_of_fields(fs.push(f));
            &&& f.number == 1 ==> (f.value matches ValueView::Varint(v) ==> after is Some
                && after->Some_0.code == int32_of(v) && after->Some_0.message == s.message
                && after->Some_0.details == s.details)
            &&& f.number == 2 ==> (f.value matches ValueView::Delimited(b) ==> {
                &&& after is Some <==> valid_utf8(b)
                &&& after matches Some(t) ==> encode_utf8(t.message) == b && t.code == s.code
                    && t.details == s.details
            })
            &&& f.number == 3 ==> (f.value matches ValueView::Delimited(b) ==> {
                &&& after is Some <==> any_inside(b) is Some
                &&& after matches Some(t) ==> t.message == s.message && t.code == s.code
                    && t.details == s.details.push(any_inside(b)->Some_0)
            })
            &&& !(1 <= f.number <= 3) || f.value is Fixed64 || f.value is Fixed32 || (f.number == 1
                && f.value is Delimited) || (f.number != 1 && f.value is Varint) ==> after == Some(s)
        },
{
    assert(fs.push(f).drop_last() =~= fs);
    if let ValueView::Delimited(b) = f.value {
        if valid_utf8(b) {
            vstd::utf8::decode_utf8_encode_utf8(b);
        }
    }
}

/// A status without fields is `OK` without a message or details, and the number of a code is read
/// as a signed number of 32 bits, whatever stands above them.
pub proof fn law_codes_are_read_as_int32(n: int, above: nat)
    requires
        -0x8000_0000 <= n < 0x8000_0000,
    ensures
        int32_of((if n >= 0 {
            n
        } else {
            n + 0x1_0000_0000
        } + 0x1_0000_0000 * above) as nat) == n,
        status_of_fields(Seq::empty()) matches Some(s) && s.code == 0 && s.message.len() == 0
            && s.details.len() == 0,
{
    let low = if n >= 0 {
        n
    } else {
        n + 0x1_0000_0000
    };
    vstd::arithmetic::div_mod::lemma_fundamental_div_mod_converse(
        low + 0x1_0000_0000 * above,
        0x1_0000_0000,
        above as int,
        low,
    );
}

} // verus!
