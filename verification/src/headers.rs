//! HTTP header maps: the types of the `http` crate that carry headers and trailers.

use http::header::{HeaderName, HeaderValue};
use http::HeaderMap;
use vstd::prelude::*;
use vstd::utf8::encode_utf8;

verus! {

/// The outside type `http::HeaderMap`, a map from header names to lists of values.
#[verifier::external_type_specification]
#[verifier::external_body]
#[verifier::reject_recursive_types(T)]
pub struct ExHeaderMap<T>(http::HeaderMap<T>);

/// The outside type `http::header::HeaderName`, a header name in lower case.
#[verifier::external_type_specification]
#[verifier::external_body]
pub struct ExHeaderName(http::header::HeaderName);

/// The outside type `http::header::HeaderValue`, the bytes of a header value.
#[verifier::external_type_specification]
#[verifier::external_body]
pub struct ExHeaderValue(http::header::HeaderValue);

/// The values that a header map holds under each name, in the order in which they were added.
/// A name without values is not in the map.
pub uninterp spec fn headers(m: HeaderMap<HeaderValue>) -> Map<Seq<char>, Seq<Seq<u8>>>;

/// The text of a header name.
pub uninterp spec fn name_text(n: HeaderName) -> Seq<char>;

/// The bytes of a header value.
pub uninterp spec fn value_bytes(v: HeaderValue) -> Seq<u8>;

/// The number of names that a header map always has room for, however their hashes fall: a table
/// of the greatest size, with room for 32768 names, is asked to grow only once a fifth of it is in
/// use.
pub const HEADER_ROOM: usize = 6554;

/// Whether a character may stand in a header name in lower case.
pub open spec fn is_name_char(c: char) -> bool {
    ||| 'a' <= c <= 'z'
    ||| '0' <= c <= '9'
    ||| c == '-' || c == '_' || c == '.' || c == '!' || c == '#' || c == '$' || c == '%'
    ||| c == '&' || c == '\'' || c == '*' || c == '+' || c == '^' || c == '`' || c == '|'
    ||| c == '~'
}

/// Whether a text is a header name in lower case.
pub open spec fn is_name(s: Seq<char>) -> bool {
    &&& 1 <= s.len() <= 65535
    &&& forall|i: int| 0 <= i < s.len() ==> is_name_char(#[trigger] s[i])
}

/// Whether a text is a header name, in lower or upper case.
pub open spec fn is_name_in_any_case(s: Seq<char>) -> bool {
    &&& 1 <= s.len() <= 65535
    &&& forall|i: int|
        0 <= i < s.len() ==> is_name_char(#[trigger] s[i]) || 'A' <= s[i] <= 'Z'
}

/// Whether `b` is `a` with upper-case letters in lower case.
pub open spec fn is_lower_case_of(b: Seq<char>, a: Seq<char>) -> bool {
    &&& b.len() == a.len()
    &&& forall|i: int|
        0 <= i < a.len() ==> b[i] as int == if 'A' <= #[trigger] a[i] <= 'Z' {
            a[i] as int + 32
        } else {
            a[i] as int
        }
}

/// Whether a byte may stand in a header value.
pub open spec fn is_value_byte(b: u8) -> bool {
    (b >= 32 && b != 127) || b == 9
}

/// Whether bytes are a header value.
pub open spec fn is_value(b: Seq<u8>) -> bool {
    forall|i: int| 0 <= i < b.len() ==> is_value_byte(#[trigger] b[i])
}

/// Whether a byte is visible ASCII, a space or a tab.
pub open spec fn is_visible_byte(b: u8) -> bool {
    (32 <= b < 127) || b == 9
}

/// Whether all bytes are visible ASCII, spaces or tabs.
pub open spec fn is_visible(b: Seq<u8>) -> bool {
    forall|i: int| 0 <= i < b.len() ==> is_visible_byte(#[trigger] b[i])
}

/// What a map without headers holds.
pub open spec fn no_headers() -> Map<Seq<char>, Seq<Seq<u8>>> {
    Map::empty()
}

/// The values under a name, of which there may be none.
pub open spec fn values_of(m: Map<Seq<char>, Seq<Seq<u8>>>, name: Seq<char>) -> Seq<Seq<u8>> {
    if m.dom().contains(name) {
        m[name]
    } else {
        Seq::empty()
    }
}

/// The values that a list of headers gives to a name, in order.
pub open spec fn listed_values(list: Seq<(HeaderName, HeaderValue)>, name: Seq<char>) -> Seq<
    Seq<u8>,
>
    decreases list.len(),
{
    if list.len() == 0 {
        Seq::empty()
    } else {
        let before = listed_values(list.drop_last(), name);
        if name_text(list.last().0) == name {
            before.push(value_bytes(list.last().1))
        } else {
            before
        }
    }
}

/// `HeaderMap::new` gives a map without headers.
pub assume_specification[ HeaderMap::<HeaderValue>::new ]() -> (r: HeaderMap<HeaderValue>)
    ensures
        headers(r) == no_headers(),
;

/// `HeaderMap::clone` gives a map with the same headers, of which there are finitely many.
#[verifier::external_body]
pub(crate) fn header_clone(map: &HeaderMap<HeaderValue>) -> (r: HeaderMap<HeaderValue>)
    ensures
        headers(r) == headers(*map),
        headers(r).dom().finite(),
{
    map.clone()
}

/// `HeaderMap::insert` makes `value` the only value under `name`. It panics where the table
/// cannot grow, which does not come about below [`HEADER_ROOM`] names.
#[verifier::external_body]
pub(crate) fn header_insert(
    map: &mut HeaderMap<HeaderValue>,
    name: HeaderName,
    value: HeaderValue,
)
    requires
        headers(*old(map)).dom().len() < HEADER_ROOM,
    ensures
        headers(*final(map)) == headers(*old(map)).insert(
            name_text(name),
            seq![value_bytes(value)],
        ),
{
    let _ = map.insert(name, value);
}

/// `HeaderMap::append` adds `value` behind the values under `name`. It panics where the table
/// cannot grow, which does not come about below [`HEADER_ROOM`] names.
#[verifier::external_body]
pub(crate) fn header_append(
    map: &mut HeaderMap<HeaderValue>,
    name: HeaderName,
    value: HeaderValue,
)
    requires
        headers(*old(map)).dom().len() < HEADER_ROOM,
    ensures
        headers(*final(map)) == headers(*old(map)).insert(
            name_text(name),
            values_of(headers(*old(map)), name_text(name)).push(value_bytes(value)),
        ),
{
    let _ = map.append(name, value);
}

/// `HeaderMap::get` gives the first value under a name in lower case.
#[verifier::external_body]
pub(crate) fn header_get<'a>(map: &'a HeaderMap<HeaderValue>, name: &str) -> (r: Option<
    &'a HeaderValue,
>)
    requires
        is_name(name@),
    ensures
        r is Some <==> values_of(headers(*map), name@).len() > 0,
        r matches Some(v) ==> value_bytes(*v) == values_of(headers(*map), name@)[0],
{
    map.get(name)
}

/// `HeaderMap::remove` takes out all values under a name in lower case and gives the first.
#[verifier::external_body]
pub(crate) fn header_remove(map: &mut HeaderMap<HeaderValue>, name: &str) -> (r: Option<
    HeaderValue,
>)
    requires
        is_name(name@),
    ensures
        r is Some <==> values_of(headers(*old(map)), name@).len() > 0,
        r matches Some(v) ==> value_bytes(v) == values_of(headers(*old(map)), name@)[0],
        headers(*final(map)) == headers(*old(map)).remove(name@),
{
    map.remove(name)
}

/// `HeaderMap::iter` walks the headers, each name once for each of its values. The order of the
/// names is left open; the values of one name come in the order in which they were added.
#[verifier::external_body]
pub(crate) fn header_list(map: &HeaderMap<HeaderValue>) -> (r: Vec<(HeaderName, HeaderValue)>)
    ensures
        forall|name: Seq<char>| #[trigger]
            listed_values(r@, name) == values_of(headers(*map), name),
{
    map.iter().map(|(name, value)| (name.clone(), value.clone())).collect()
}

/// `HeaderName::from_bytes` reads a header name and puts it in lower case. A name in lower case
/// is taken as it stands.
#[verifier::external_body]
pub(crate) fn header_name(text: &str) -> (r: Option<HeaderName>)
    ensures
        r is Some <==> is_name_in_any_case(text@),
        r is Some ==> is_lower_case_of(name_text(r->Some_0), text@),
        is_name(text@) ==> r is Some && name_text(r->Some_0) == text@,
        r is Some ==> is_name(name_text(r->Some_0)),
{
    HeaderName::from_bytes(text.as_bytes()).ok()
}

/// `HeaderName::as_str` gives the name as a text.
pub assume_specification[ HeaderName::as_str ](name: &HeaderName) -> (r: &str)
    ensures
        r@ == name_text(*name),
;

/// `HeaderName::clone` gives the same name.
pub assume_specification[ <HeaderName as Clone>::clone ](name: &HeaderName) -> (r: HeaderName)
    ensures
        name_text(r) == name_text(*name),
;

/// `HeaderValue::clone` gives a value with the same bytes.
pub assume_specification[ <HeaderValue as Clone>::clone ](value: &HeaderValue) -> (r: HeaderValue)
    ensures
        value_bytes(r) == value_bytes(*value),
;

/// `HeaderValue::from_bytes` makes a header value of bytes that may stand in one.
#[verifier::external_body]
pub(crate) fn header_value(bytes: &[u8]) -> (r: Option<HeaderValue>)
    ensures
        r is Some <==> is_value(bytes@),
        r matches Some(v) ==> value_bytes(v) == bytes@,
{
    HeaderValue::from_bytes(bytes).ok()
}

/// `HeaderValue::as_bytes` gives the bytes of the value.
pub assume_specification[ HeaderValue::as_bytes ](value: &HeaderValue) -> (r: &[u8])
    ensures
        r@ == value_bytes(*value),
;

/// `HeaderValue::to_str` gives the value as a text where its bytes are visible ASCII.
#[verifier::external_body]
pub(crate) fn header_text(value: &HeaderValue) -> (r: Option<&str>)
    ensures
        r is Some <==> is_visible(value_bytes(*value)),
        r matches Some(s) ==> encode_utf8(s@) == value_bytes(*value),
{
    value.to_str().ok()
}

/// Whether every name has a value.
pub open spec fn no_empty_lists(m: Map<Seq<char>, Seq<Seq<u8>>>) -> bool {
    forall|name: Seq<char>| #[trigger] m.dom().contains(name) ==> m[name].len() > 0
}

/// Headers with the same values under each name are the same.
pub(crate) proof fn lemma_same_values(
    a: Map<Seq<char>, Seq<Seq<u8>>>,
    b: Map<Seq<char>, Seq<Seq<u8>>>,
)
    requires
        no_empty_lists(a),
        no_empty_lists(b),
        forall|name: Seq<char>| #[trigger] values_of(a, name) == values_of(b, name),
    ensures
        a == b,
{
    assert forall|name: Seq<char>| a.dom().contains(name) == b.dom().contains(name) by {
        assert(values_of(a, name) == values_of(b, name));
    }
    assert forall|name: Seq<char>| a.dom().contains(name) implies a[name] == b[name] by {
        assert(values_of(a, name) == values_of(b, name));
    }
    assert(a =~= b);
}

/// Headers whose names are among `names` are no more than these.
pub(crate) proof fn lemma_few_names(m: Map<Seq<char>, Seq<Seq<u8>>>, names: Set<Seq<char>>)
    requires
        names.finite(),
        forall|name: Seq<char>| #[trigger] m.dom().contains(name) ==> names.contains(name),
    ensures
        m.dom().finite(),
        m.dom().len() <= names.len(),
{
    assert(m.dom().subset_of(names));
    vstd::set_lib::lemma_len_subset(m.dom(), names);
}

/// A text of visible ASCII may stand in a header.
pub(crate) proof fn lemma_visible_text(s: Seq<char>)
    requires
        forall|i: int| 0 <= i < s.len() ==> ' ' <= #[trigger] s[i] <= '~',
    ensures
        is_value(encode_utf8(s)),
        is_visible(encode_utf8(s)),
{
    assert(vstd::utf8::is_ascii_chars(s));
    vstd::utf8::is_ascii_chars_encode_utf8(s);
    assert forall|i: int| 0 <= i < encode_utf8(s).len() implies is_visible_byte(
        #[trigger] encode_utf8(s)[i],
    ) by {
        assert(encode_utf8(s)[i] == s[i] as u8);
    }
}


/// Visible ASCII is the text that it says.
pub(crate) proof fn lemma_visible_is_text(b: Seq<u8>)
    requires
        is_visible(b),
    ensures
        encode_utf8(vstd::utf8::decode_utf8(b)) == b,
{
    let s = Seq::new(b.len(), |i: int| b[i] as char);
    assert forall|i: int| 0 <= i < s.len() implies (#[trigger] s[i]) as u32 == b[i] && b[i] < 128 by {
        assert(is_visible_byte(b[i]));
    }
    assert(vstd::utf8::is_ascii_chars(s));
    vstd::utf8::is_ascii_chars_encode_utf8(s);
    assert(encode_utf8(s) =~= b);
    vstd::utf8::encode_utf8_decode_utf8(s);
}

} // verus!
