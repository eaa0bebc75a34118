//! The message `google.protobuf.Any`: some message's bytes with the name of its type.

use crate::protobuf::wire::{
    delimited_field, fields, lemma_delimited_field, lemma_delimited_size, read_fields,
    MAX_GROUP_DEPTH_INSIDE, MAX_LENGTH,
};
use protobuf::{Parse, Serialize};
use protobuf_well_known_types::Any;
use vstd::prelude::*;
use vstd::utf8::encode_utf8;

verus! {

/// The type and the value of the `Any` that bytes stand for, where they stand for one.
pub uninterp spec fn any_decoding(bytes: Seq<u8>) -> Option<(Seq<u8>, Seq<u8>)>;

/// A field with bytes as its value, which is left out where there are none.
pub open spec fn optional_field(number: nat, b: Seq<u8>) -> Seq<u8> {
    if b.len() == 0 {
        Seq::empty()
    } else {
        delimited_field(number, b)
    }
}

/// The fields of an `Any`: its type and its value.
pub open spec fn any_bytes(type_url: Seq<u8>, value: Seq<u8>) -> Seq<u8> {
    optional_field(1, type_url) + optional_field(2, value)
}

/// `Any::serialize` gives the bytes of an `Any` with the given type and value: a field for each of
/// them that is not empty. It fails where one of them is longer than a length on the wire may say.
/// Where the bytes are no longer than that, they parse back to this type and value. That memory
/// can be had is taken for granted.
#[verifier::external_body]
pub(crate) fn serialize_any(type_url: &str, value: &[u8]) -> (r: Option<Vec<u8>>)
    ensures
        r is Some <==> (encode_utf8(type_url@).len() <= MAX_LENGTH && value@.len() <= MAX_LENGTH),
        r matches Some(b) ==> b@ == any_bytes(encode_utf8(type_url@), value@),
        r matches Some(b) ==> (b@.len() <= MAX_LENGTH ==> any_decoding(b@) == Some(
            (encode_utf8(type_url@), value@),
        )),
{
    let mut any = Any::new();
    any.set_type_url(type_url);
    any.set_value(value);
    any.serialize().ok()
}

/// `Any::parse` gives the type and the value of the `Any` that bytes stand for, and fails where
/// they stand for none.
#[verifier::external_body]
pub(crate) fn parse_any(bytes: &[u8]) -> (r: Option<(Vec<u8>, Vec<u8>)>)
    ensures
        r is Some <==> any_decoding(bytes@) is Some,
        r matches Some(p) ==> (p.0@, p.1@) == any_decoding(bytes@)->Some_0,
{
    match Any::parse(bytes) {
        Ok(any) => Some((any.type_url().as_bytes().to_vec(), any.value().to_vec())),
        Err(_) => None,
    }
}

/// The type and the value of the `Any` that stands in another message, where bytes stand for one.
pub open spec fn any_inside(bytes: Seq<u8>) -> Option<(Seq<u8>, Seq<u8>)> {
    if fields(bytes, Seq::empty(), MAX_GROUP_DEPTH_INSIDE as nat) is Some {
        any_decoding(bytes)
    } else {
        None
    }
}

/// Reads the type and the value of the `Any` that stands in another message.
pub(crate) fn parse_any_inside(bytes: &[u8]) -> (r: Option<(Vec<u8>, Vec<u8>)>)
    ensures
        r is Some <==> any_inside(bytes@) is Some,
        r matches Some(p) ==> (p.0@, p.1@) == any_inside(bytes@)->Some_0,
{
    if read_fields(bytes, MAX_GROUP_DEPTH_INSIDE).is_none() {
        return None;
    }
    parse_any(bytes)
}

/// An `Any` is at most twelve bytes longer than its type and its value together.
pub proof fn lemma_any_size(type_url: Seq<u8>, value: Seq<u8>)
    requires
        type_url.len() <= MAX_LENGTH,
        value.len() <= MAX_LENGTH,
    ensures
        any_bytes(type_url, value).len() <= type_url.len() + value.len() + 12,
{
    lemma_delimited_size(1, type_url);
    lemma_delimited_size(2, value);
}

/// The fields of an `Any` can be read where it stands in another message.
pub(crate) proof fn lemma_any_bytes(type_url: Seq<u8>, value: Seq<u8>)
    requires
        any_bytes(type_url, value).len() <= MAX_LENGTH,
    ensures
        type_url.len() <= MAX_LENGTH,
        value.len() <= MAX_LENGTH,
        fields(
            any_bytes(type_url, value),
            Seq::empty(),
            MAX_GROUP_DEPTH_INSIDE as nat,
        ) is Some,
{
    let max = MAX_GROUP_DEPTH_INSIDE as nat;
    let none = Seq::<u8>::empty();
    let second = optional_field(2, value);
    assert(fields(none, Seq::empty(), max) is Some);
    if value.len() > 0 {
        lemma_delimited_field(2, value, none, max);
        assert(second + none =~= second);
    }
    if type_url.len() > 0 {
        lemma_delimited_field(1, type_url, second, max);
    } else {
        assert(any_bytes(type_url, value) =~= second);
    }
}


/// An `Any` in another message is the one that its bytes stand for, unless groups in it are nested
/// deeper than another message leaves room for.
pub proof fn law_any_inside(bytes: Seq<u8>)
    ensures
        fields(bytes, Seq::empty(), 99) is Some ==> any_inside(bytes) == any_decoding(bytes),
        fields(bytes, Seq::empty(), 99) is None ==> any_inside(bytes) is None,
{
}

} // verus!
