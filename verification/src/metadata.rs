//! Metadata: the custom headers and trailers of a call.

use crate::base64;
use crate::headers::{
    header_append, header_list, header_name, header_text, header_value, headers, is_name, is_value,
    is_name_char, is_visible, listed_values, no_headers, values_of, HEADER_ROOM,
};
use crate::text::{copied, ends_with, same_text};
use http::header::{HeaderName, HeaderValue};
use http::HeaderMap;
use vstd::prelude::*;
use vstd::utf8::{decode_utf8, encode_utf8};

verus! {

/// A value of metadata.
#[derive(Debug)]
pub enum MetadataValue {
    /// A text.
    Ascii(String),
    /// Bytes, which travel in Base64.
    Binary(Vec<u8>),
}

/// What a [`MetadataValue`] holds.
pub enum MetadataValueView {
    /// A text.
    Ascii(Seq<char>),
    /// Bytes.
    Binary(Seq<u8>),
}

impl View for MetadataValue {
    type V = MetadataValueView;

    open spec fn view(&self) -> MetadataValueView {
        match self {
            MetadataValue::Ascii(s) => MetadataValueView::Ascii(s@),
            MetadataValue::Binary(b) => MetadataValueView::Binary(b@),
        }
    }
}

impl Clone for MetadataValue {
    fn clone(&self) -> (r: Self)
        ensures
            r@ == self@,
    {
        match self {
            MetadataValue::Ascii(s) => MetadataValue::Ascii(s.clone()),
            MetadataValue::Binary(b) => MetadataValue::Binary(copied(b.as_slice())),
        }
    }
}

/// One entry of metadata: a key and a value.
pub type EntryView = (Seq<char>, MetadataValueView);

/// Metadata: entries of a key and a value, in order.
#[derive(Debug)]
pub struct MetadataMap {
    entries: Vec<(String, MetadataValue)>,
}

impl View for MetadataMap {
    type V = Seq<EntryView>;

    closed spec fn view(&self) -> Seq<EntryView> {
        self.entries@.map_values(|e: (String, MetadataValue)| (e.0@, e.1@))
    }
}

/// The entries under other keys.
pub open spec fn without_key(entries: Seq<EntryView>, key: Seq<char>) -> Seq<EntryView> {
    entries.filter(|e: EntryView| e.0 != key)
}

/// The entries after `value` has taken the place of all values under `key`.
pub open spec fn with_entry(
    entries: Seq<EntryView>,
    key: Seq<char>,
    value: MetadataValueView,
) -> Seq<EntryView> {
    without_key(entries, key).push((key, value))
}

/// Whether an entry is a text under `key`.
pub open spec fn is_text_of(e: EntryView, key: Seq<char>) -> bool {
    e.0 == key && e.1 is Ascii
}

/// Whether an entry is binary and under `key`.
pub open spec fn is_binary_of(e: EntryView, key: Seq<char>) -> bool {
    e.0 == key && e.1 is Binary
}

/// The first text under `key`.
pub open spec fn first_text(entries: Seq<EntryView>, key: Seq<char>) -> Option<Seq<char>>
    decreases entries.len(),
{
    if entries.len() == 0 {
        None
    } else if is_text_of(entries[0], key) {
        Some(entries[0].1->Ascii_0)
    } else {
        first_text(entries.skip(1), key)
    }
}

/// The first binary value under `key`.
pub open spec fn first_binary(entries: Seq<EntryView>, key: Seq<char>) -> Option<Seq<u8>>
    decreases entries.len(),
{
    if entries.len() == 0 {
        None
    } else if is_binary_of(entries[0], key) {
        Some(entries[0].1->Binary_0)
    } else {
        first_binary(entries.skip(1), key)
    }
}

/// The keys of a list of entries.
pub open spec fn keys(entries: Seq<EntryView>) -> Set<Seq<char>>
    decreases entries.len(),
{
    if entries.len() == 0 {
        Set::empty()
    } else {
        keys(entries.drop_last()).insert(entries.last().0)
    }
}

/// A list of entries has finitely many keys, and each is that of an entry.
proof fn lemma_keys(entries: Seq<EntryView>)
    ensures
        keys(entries).finite(),
        keys(entries).len() <= entries.len(),
        forall|k: Seq<char>| #[trigger]
            keys(entries).contains(k) <==> exists|i: int|
                0 <= i < entries.len() && (#[trigger] entries[i]).0 == k,
    decreases entries.len(),
{
    if entries.len() > 0 {
        let before = entries.drop_last();
        lemma_keys(before);
        assert forall|k: Seq<char>| #[trigger] keys(entries).contains(k) <==> exists|i: int|
            0 <= i < entries.len() && (#[trigger] entries[i]).0 == k by {
            if keys(entries).contains(k) {
                if k == entries.last().0 {
                    assert(entries[entries.len() - 1].0 == k);
                } else {
                    let i = choose|i: int| 0 <= i < before.len() && (#[trigger] before[i]).0 == k;
                    assert(entries[i].0 == k);
                }
            }
            if exists|i: int| 0 <= i < entries.len() && (#[trigger] entries[i]).0 == k {
                let i = choose|i: int| 0 <= i < entries.len() && (#[trigger] entries[i]).0 == k;
                if i < before.len() {
                    assert(before[i].0 == k);
                }
            }
        }
    }
}

/// The bytes by which a value is shown in a header.
pub open spec fn wire_bytes(v: MetadataValueView) -> Seq<u8> {
    match v {
        MetadataValueView::Ascii(s) => encode_utf8(s),
        MetadataValueView::Binary(b) => base64::encoded(b),
    }
}

/// The headers of a list of entries. An entry whose key is no header name in lower case, or whose
/// text cannot stand in a header, is left out.
pub open spec fn as_headers(entries: Seq<EntryView>) -> Map<Seq<char>, Seq<Seq<u8>>>
    decreases entries.len(),
{
    if entries.len() == 0 {
        no_headers()
    } else {
        let before = as_headers(entries.drop_last());
        let (key, value) = entries.last();
        if is_name(key) && is_value(wire_bytes(value)) {
            before.insert(key, values_of(before, key).push(wire_bytes(value)))
        } else {
            before
        }
    }
}

/// Whether the values under a name are binary.
pub open spec fn is_binary_name(name: Seq<char>) -> bool {
    encode_utf8("-bin"@).is_suffix_of(encode_utf8(name))
}

/// The value that the bytes of a header stand for, if any.
pub open spec fn value_from_wire(name: Seq<char>, bytes: Seq<u8>) -> Option<MetadataValueView> {
    if is_binary_name(name) {
        match base64::decoded(bytes) {
            Some(b) => Some(MetadataValueView::Binary(b)),
            None => None,
        }
    } else if is_visible(bytes) {
        Some(MetadataValueView::Ascii(decode_utf8(bytes)))
    } else {
        None
    }
}

/// The values that a list of entries gives to a key, in order.
pub open spec fn values_under(entries: Seq<EntryView>, key: Seq<char>) -> Seq<MetadataValueView>
    decreases entries.len(),
{
    if entries.len() == 0 {
        Seq::empty()
    } else {
        let before = values_under(entries.drop_last(), key);
        if entries.last().0 == key {
            before.push(entries.last().1)
        } else {
            before
        }
    }
}

/// Whether `values` are what the bytes of the headers under `name` stand for, one by one.
pub open spec fn are_read_from(
    name: Seq<char>,
    values: Seq<MetadataValueView>,
    bytes: Seq<Seq<u8>>,
) -> bool {
    &&& values.len() == bytes.len()
    &&& forall|i: int|
        0 <= i < bytes.len() ==> value_from_wire(name, #[trigger] bytes[i]) == Some(values[i])
}

/// No more names than entries.
pub proof fn lemma_as_headers_size(entries: Seq<EntryView>)
    ensures
        as_headers(entries).dom().finite(),
        as_headers(entries).dom().len() <= entries.len(),
    decreases entries.len(),
{
    if entries.len() > 0 {
        lemma_as_headers_size(entries.drop_last());
    }
}

/// Every name among the headers of entries is a key of theirs.
pub proof fn lemma_names_are_keys(entries: Seq<EntryView>)
    ensures
        as_headers(entries).dom().subset_of(keys(entries)),
        as_headers(entries).dom().len() <= keys(entries).len(),
    decreases entries.len(),
{
    if entries.len() > 0 {
        lemma_names_are_keys(entries.drop_last());
    }
    lemma_keys(entries);
    vstd::set_lib::lemma_len_subset(as_headers(entries).dom(), keys(entries));
}

/// The first entries have no more names than all.
proof fn lemma_as_headers_grow(entries: Seq<EntryView>, i: int)
    requires
        0 <= i <= entries.len(),
    ensures
        as_headers(entries.take(i)).dom().len() <= as_headers(entries).dom().len(),
    decreases entries.len(),
{
    if i == entries.len() {
        assert(entries.take(i) =~= entries);
    } else {
        let before = entries.drop_last();
        lemma_as_headers_grow(before, i);
        assert(before.take(i) =~= entries.take(i));
        lemma_as_headers_size(before);
        lemma_as_headers_size(entries);
        vstd::set_lib::lemma_len_subset(as_headers(before).dom(), as_headers(entries).dom());
    }
}

/// Every name has a value.
pub(crate) proof fn lemma_as_headers_values(entries: Seq<EntryView>)
    ensures
        forall|name: Seq<char>| #[trigger]
            as_headers(entries).dom().contains(name) ==> as_headers(entries)[name].len() > 0,
    decreases entries.len(),
{
    if entries.len() > 0 {
        let before = as_headers(entries.drop_last());
        lemma_as_headers_values(entries.drop_last());
        assert forall|name: Seq<char>| #[trigger]
            as_headers(entries).dom().contains(name) implies as_headers(entries)[name].len() > 0 by {
            if before.dom().contains(name) {
                assert(before[name].len() > 0);
            }
        }
    }
}

/// The first text is found behind entries that are none.
proof fn lemma_first_text(entries: Seq<EntryView>, key: Seq<char>, i: int)
    requires
        0 <= i <= entries.len(),
        forall|j: int| 0 <= j < i ==> !is_text_of(#[trigger] entries[j], key),
    ensures
        first_text(entries, key) == first_text(entries.skip(i), key),
    decreases i,
{
    if i == 0 {
        assert(entries.skip(0) =~= entries);
    } else {
        assert(!is_text_of(entries[0], key));
        let rest = entries.skip(1);
        assert forall|j: int| 0 <= j < i - 1 implies !is_text_of(#[trigger] rest[j], key) by {
            assert(rest[j] == entries[j + 1]);
        }
        lemma_first_text(rest, key, i - 1);
        assert(rest.skip(i - 1) =~= entries.skip(i));
    }
}

/// The first binary value is found behind entries that are none.
proof fn lemma_first_binary(entries: Seq<EntryView>, key: Seq<char>, i: int)
    requires
        0 <= i <= entries.len(),
        forall|j: int| 0 <= j < i ==> !is_binary_of(#[trigger] entries[j], key),
    ensures
        first_binary(entries, key) == first_binary(entries.skip(i), key),
    decreases i,
{
    if i == 0 {
        assert(entries.skip(0) =~= entries);
    } else {
        assert(!is_binary_of(entries[0], key));
        let rest = entries.skip(1);
        assert forall|j: int| 0 <= j < i - 1 implies !is_binary_of(#[trigger] rest[j], key) by {
            assert(rest[j] == entries[j + 1]);
        }
        lemma_first_binary(rest, key, i - 1);
        assert(rest.skip(i - 1) =~= entries.skip(i));
    }
}

/// Nothing is under a key whose entries were taken out.
pub proof fn law_nothing_after_removal(entries: Seq<EntryView>, key: Seq<char>)
    ensures
        first_text(without_key(entries, key), key) is None,
        first_binary(without_key(entries, key), key) is None,
{
    let kept = without_key(entries, key);
    broadcast use vstd::seq_lib::group_filter_ensures;

    let p = |e: EntryView| e.0 != key;
    assert forall|j: int| 0 <= j < kept.len() implies (#[trigger] kept[j]).0 != key by {
        assert(p(kept[j]));
    }
    lemma_first_text(kept, key, kept.len() as int);
    lemma_first_binary(kept, key, kept.len() as int);
}

/// What was put under a key is found there, and nothing else.
pub proof fn law_get_after_insert(
    entries: Seq<EntryView>,
    key: Seq<char>,
    value: MetadataValueView,
)
    ensures
        value matches MetadataValueView::Ascii(s) ==> first_text(
            with_entry(entries, key, value),
            key,
        ) == Some(s),
        value matches MetadataValueView::Binary(b) ==> first_binary(
            with_entry(entries, key, value),
            key,
        ) == Some(b),
{
    let kept = without_key(entries, key);
    let all = kept.push((key, value));
    broadcast use vstd::seq_lib::group_filter_ensures;

    let p = |e: EntryView| e.0 != key;
    assert forall|j: int| 0 <= j < kept.len() implies (#[trigger] all[j]).0 != key by {
        assert(all[j] == kept[j]);
        assert(p(kept[j]));
    }
    lemma_first_text(all, key, kept.len() as int);
    lemma_first_binary(all, key, kept.len() as int);
    assert(all.skip(kept.len() as int)[0] == (key, value));
}

/// Whether an entry can travel in headers: under a header name in lower case, binary where the
/// name says so, and visible ASCII where it does not.
pub open spec fn can_travel(e: EntryView) -> bool {
    &&& is_name(e.0)
    &&& match e.1 {
        MetadataValueView::Ascii(s) => !is_binary_name(e.0) && is_visible(encode_utf8(s)),
        MetadataValueView::Binary(_) => is_binary_name(e.0),
    }
}

/// What an entry that can travel is shown as may stand in a header and is read back.
proof fn lemma_can_travel(e: EntryView)
    requires
        can_travel(e),
    ensures
        is_value(wire_bytes(e.1)),
        value_from_wire(e.0, wire_bytes(e.1)) == Some(e.1),
{
    match e.1 {
        MetadataValueView::Ascii(s) => {
            vstd::utf8::encode_utf8_decode_utf8(s);
        },
        MetadataValueView::Binary(b) => {
            base64::law_decoded_of_encoded(b);
        },
    }
}

/// The headers of entries that can travel are read back as they were.
pub(crate) proof fn lemma_headers_are_read(entries: Seq<EntryView>, name: Seq<char>)
    requires
        forall|i: int| 0 <= i < entries.len() ==> can_travel(#[trigger] entries[i]),
    ensures
        are_read_from(name, values_under(entries, name), values_of(as_headers(entries), name)),
    decreases entries.len(),
{
    if entries.len() > 0 {
        let before = entries.drop_last();
        assert forall|i: int| 0 <= i < before.len() implies can_travel(#[trigger] before[i]) by {
            assert(before[i] == entries[i]);
        }
        lemma_headers_are_read(before, name);
        let last = entries[entries.len() - 1];
        assert(can_travel(last));
        lemma_can_travel(last);
        lemma_headers_are_read(before, last.0);
    }
}

/// Metadata survives its way through headers: what is read from the headers of metadata whose
/// entries can travel has, under every key, the same values in the same order.
pub proof fn law_metadata_survives_headers(entries: Seq<EntryView>, read: Seq<EntryView>)
    requires
        forall|i: int| 0 <= i < entries.len() ==> can_travel(#[trigger] entries[i]),
        forall|name: Seq<char>| #[trigger]
            are_read_from(name, values_under(read, name), values_of(as_headers(entries), name)),
    ensures
        forall|key: Seq<char>| #[trigger] values_under(read, key) == values_under(entries, key),
{
    assert forall|key: Seq<char>| #[trigger] values_under(read, key) == values_under(
        entries,
        key,
    ) by {
        lemma_headers_are_read(entries, key);
        let bytes = values_of(as_headers(entries), key);
        assert(are_read_from(key, values_under(read, key), bytes));
        assert forall|i: int| 0 <= i < bytes.len() implies values_under(read, key)[i]
            == values_under(entries, key)[i] by {
            assert(value_from_wire(key, bytes[i]) == Some(values_under(read, key)[i]));
            assert(value_from_wire(key, bytes[i]) == Some(values_under(entries, key)[i]));
        }
        assert(values_under(read, key) =~= values_under(entries, key));
    }
}

impl MetadataMap {
    /// Metadata without entries.
    pub fn new() -> (r: Self)
        ensures
            r@ == Seq::<EntryView>::empty(),
    {
        let r = MetadataMap { entries: Vec::new() };
        assert(r@ =~= Seq::<EntryView>::empty());
        r
    }

    /// The number of entries.
    pub fn len(&self) -> (r: usize)
        ensures
            r == self@.len(),
    {
        self.entries.len()
    }

    /// The number of keys. The headers of the entries have no more names.
    pub fn keys_len(&self) -> (r: usize)
        ensures
            r == keys(self@).len(),
            as_headers(self@).dom().len() <= r,
    {
        let mut count: usize = 0;
        let mut i: usize = 0;
        assert(self@.take(0) =~= Seq::empty());
        while i < self.entries.len()
            invariant
                i <= self.entries@.len(),
                count == keys(self@.take(i as int)).len(),
                count <= i,
            decreases self.entries@.len() - i,
        {
            let ghost before = self@.take(i as int);
            let ghost key = self@[i as int].0;
            proof {
                lemma_keys(before);
                assert(self@.take(i + 1).drop_last() =~= before);
                assert(self@[i as int] == (
                    self.entries@[i as int].0@,
                    self.entries@[i as int].1@,
                ));
            }
            let mut known = false;
            let mut j: usize = 0;
            while j < i
                invariant
                    j <= i < self.entries@.len(),
                    before == self@.take(i as int),
                    key == self.entries@[i as int].0@,
                    known <==> exists|k: int| 0 <= k < j && (#[trigger] before[k]).0 == key,
                decreases i - j,
            {
                assert(before[j as int] == (
                    self.entries@[j as int].0@,
                    self.entries@[j as int].1@,
                ));
                if same_text(self.entries[j].0.as_str(), self.entries[i].0.as_str()) {
                    known = true;
                }
                j += 1;
            }
            if !known {
                count += 1;
            }
            i += 1;
        }
        proof {
            assert(self@.take(i as int) =~= self@);
            lemma_names_are_keys(self@);
        }
        count
    }

    /// Whether there are no entries.
    pub fn is_empty(&self) -> (r: bool)
        ensures
            r == (self@.len() == 0),
    {
        self.entries.len() == 0
    }

    /// The first text under `key`.
    pub fn get(&self, key: &str) -> (r: Option<&str>)
        ensures
            r is Some <==> first_text(self@, key@) is Some,
            r matches Some(s) ==> s@ == first_text(self@, key@)->Some_0,
    {
        let mut i: usize = 0;
        while i < self.entries.len()
            invariant
                i <= self.entries@.len(),
                forall|j: int| 0 <= j < i ==> !is_text_of(#[trigger] self@[j], key@),
            decreases self.entries@.len() - i,
        {
            assert(self@[i as int] == (self.entries@[i as int].0@, self.entries@[i as int].1@));
            if same_text(self.entries[i].0.as_str(), key) {
                if let MetadataValue::Ascii(s) = &self.entries[i].1 {
                    proof {
                        lemma_first_text(self@, key@, i as int);
                        assert(self@.skip(i as int)[0] == self@[i as int]);
                    }
                    return Some(s.as_str());
                }
            }
            i += 1;
        }
        proof {
            lemma_first_text(self@, key@, i as int);
        }
        None
    }

    /// The first binary value under `key`.
    pub fn get_bin(&self, key: &str) -> (r: Option<&[u8]>)
        ensures
            r is Some <==> first_binary(self@, key@) is Some,
            r matches Some(b) ==> b@ == first_binary(self@, key@)->Some_0,
    {
        let mut i: usize = 0;
        while i < self.entries.len()
            invariant
                i <= self.entries@.len(),
                forall|j: int| 0 <= j < i ==> !is_binary_of(#[trigger] self@[j], key@),
            decreases self.entries@.len() - i,
        {
            assert(self@[i as int] == (self.entries@[i as int].0@, self.entries@[i as int].1@));
            if same_text(self.entries[i].0.as_str(), key) {
                if let MetadataValue::Binary(b) = &self.entries[i].1 {
                    proof {
                        lemma_first_binary(self@, key@, i as int);
                        assert(self@.skip(i as int)[0] == self@[i as int]);
                    }
                    return Some(b.as_slice());
                }
            }
            i += 1;
        }
        proof {
            lemma_first_binary(self@, key@, i as int);
        }
        None
    }

    /// Takes out all entries under `key`.
    fn take_out(&mut self, key: &str)
        ensures
            final(self)@ == without_key(old(self)@, key@),
    {
        let ghost all = self@;
        let ghost p = |e: EntryView| e.0 != key@;
        let mut kept: Vec<(String, MetadataValue)> = Vec::new();
        let ghost shown = |v: Seq<(String, MetadataValue)>|
            v.map_values(|e: (String, MetadataValue)| (e.0@, e.1@));
        let mut i: usize = 0;
        proof {
            reveal(Seq::filter);
            assert(all.take(0).filter(p) =~= Seq::empty());
            assert(shown(kept@) =~= Seq::<EntryView>::empty());
        }
        while i < self.entries.len()
            invariant
                i <= self.entries@.len(),
                self@ == all,
                p == (|e: EntryView| e.0 != key@),
                shown == (|v: Seq<(String, MetadataValue)>|
                    v.map_values(|e: (String, MetadataValue)| (e.0@, e.1@))),
                shown(kept@) == all.take(i as int).filter(p),
            decreases self.entries@.len() - i,
        {
            let ghost before = kept@;
            let ghost e = all[i as int];
            assert(e == (self.entries@[i as int].0@, self.entries@[i as int].1@));
            proof {
                reveal(Seq::filter);
                assert(all.take(i + 1).drop_last() =~= all.take(i as int));
            }
            if !same_text(self.entries[i].0.as_str(), key) {
                kept.push((self.entries[i].0.clone(), self.entries[i].1.clone()));
                assert(shown(kept@) =~= shown(before).push(e));
            }
            i += 1;
        }
        assert(all.take(i as int) =~= all);
        self.entries = kept;
    }

    /// Makes `value` the only value under `key`.
    pub fn insert(&mut self, key: &str, value: &str)
        ensures
            final(self)@ == with_entry(old(self)@, key@, MetadataValueView::Ascii(value@)),
    {
        self.take_out(key);
        let ghost before = self@;
        self.entries.push((String::from_str(key), MetadataValue::Ascii(String::from_str(value))));
        assert(self@ =~= before.push((key@, MetadataValueView::Ascii(value@))));
    }

    /// Makes `value` the only value under `key`.
    pub fn insert_bin(&mut self, key: &str, value: &[u8])
        ensures
            final(self)@ == with_entry(old(self)@, key@, MetadataValueView::Binary(value@)),
    {
        self.take_out(key);
        let ghost before = self@;
        self.entries.push((String::from_str(key), MetadataValue::Binary(copied(value))));
        assert(self@ =~= before.push((key@, MetadataValueView::Binary(value@))));
    }

    /// Takes out all entries under `key` and returns the first binary value among them.
    pub fn remove_bin(&mut self, key: &str) -> (r: Option<Vec<u8>>)
        ensures
            final(self)@ == without_key(old(self)@, key@),
            r is Some <==> first_binary(old(self)@, key@) is Some,
            r matches Some(b) ==> b@ == first_binary(old(self)@, key@)->Some_0,
    {
        let found: Option<Vec<u8>> = match self.get_bin(key) {
            Some(b) => Some(copied(b)),
            None => None,
        };
        self.take_out(key);
        found
    }

    /// The entries as HTTP headers.
    pub fn into_headers(self) -> (r: HeaderMap<HeaderValue>)
        requires
            as_headers(self@).dom().len() < HEADER_ROOM,
        ensures
            headers(r) == as_headers(self@),
    {
        let mut map: HeaderMap<HeaderValue> = HeaderMap::new();
        let mut i: usize = 0;
        assert(self@.take(0) =~= Seq::empty());
        while i < self.entries.len()
            invariant
                i <= self.entries@.len(),
                as_headers(self@).dom().len() < HEADER_ROOM,
                headers(map) == as_headers(self@.take(i as int)),
            decreases self.entries@.len() - i,
        {
            let ghost e = self@[i as int];
            proof {
                assert(e == (self.entries@[i as int].0@, self.entries@[i as int].1@));
                assert(self@.take(i + 1).drop_last() =~= self@.take(i as int));
                lemma_as_headers_grow(self@, i as int);
            }
            let value: Option<HeaderValue> = match &self.entries[i].1 {
                MetadataValue::Ascii(s) => header_value(s.as_str().as_bytes()),
                MetadataValue::Binary(b) => header_value(base64::encode(b.as_slice()).as_slice()),
            };
            if is_lower_case_name(self.entries[i].0.as_str()) {
                if let Some(name) = header_name(self.entries[i].0.as_str()) {
                    if let Some(value) = value {
                        header_append(&mut map, name, value);
                    }
                }
            }
            i += 1;
        }
        assert(self@.take(i as int) =~= self@);
        map
    }

    /// The metadata that HTTP headers stand for, or `None` where a value can stand for none: one
    /// under a binary name that is no Base64, or another that is not visible ASCII.
    pub fn from_headers(map: &HeaderMap<HeaderValue>) -> (r: Option<Self>)
        ensures
            r matches Some(m) ==> forall|name: Seq<char>| #[trigger]
                are_read_from(name, values_under(m@, name), values_of(headers(*map), name)),
            r is None ==> exists|name: Seq<char>, i: int|
                0 <= i < values_of(headers(*map), name).len() && value_from_wire(
                    name,
                    #[trigger] values_of(headers(*map), name)[i],
                ) is None,
    {
        let list = header_list(map);
        let mut m = MetadataMap::new();
        let mut i: usize = 0;
        while i < list.len()
            invariant
                i <= list@.len(),
                forall|name: Seq<char>| #[trigger]
                    listed_values(list@, name) == values_of(headers(*map), name),
                forall|name: Seq<char>| #[trigger]
                    are_read_from(
                        name,
                        values_under(m@, name),
                        listed_values(list@.take(i as int), name),
                    ),
            decreases list@.len() - i,
        {
            let ghost before = m@;
            let name: &str = list[i].0.as_str();
            let bytes: &[u8] = list[i].1.as_bytes();
            let ghost sofar = list@.take(i as int);
            proof {
                assert(list@.take(i + 1).drop_last() =~= sofar);
                assert(list@.take(i + 1).last() == list@[i as int]);
            }
            let read: Option<MetadataValue> = if ends_with(name.as_bytes(), "-bin".as_bytes()) {
                match base64::decode(bytes) {
                    Some(b) => Some(MetadataValue::Binary(b)),
                    None => None,
                }
            } else {
                match header_text(&list[i].1) {
                    Some(s) => {
                        proof {
                            vstd::utf8::encode_utf8_decode_utf8(s@);
                        }
                        Some(MetadataValue::Ascii(String::from_str(s)))
                    },
                    None => None,
                }
            };
            match read {
                Some(value) => {
                    let ghost v = value@;
                    m.entries.push((String::from_str(name), value));
                    proof {
                        assert(m@ =~= before.push((name@, v)));
                        assert(m@.drop_last() =~= before);
                        assert forall|n: Seq<char>| #[trigger]
                            are_read_from(
                                n,
                                values_under(m@, n),
                                listed_values(list@.take(i + 1), n),
                            ) by {
                            assert(are_read_from(
                                n,
                                values_under(before, n),
                                listed_values(sofar, n),
                            ));
                        }
                    }
                },
                None => {
                    proof {
                        let at = listed_values(sofar, name@).len() as int;
                        lemma_listed_grows(list@, i + 1, name@);
                        assert(listed_values(list@.take(i + 1), name@)[at] == bytes@);
                        assert(values_of(headers(*map), name@)[at] == bytes@);
                    }
                    return None;
                },
            }
            i += 1;
        }
        proof {
            assert(list@.take(i as int) =~= list@);
            assert forall|name: Seq<char>| #[trigger]
                are_read_from(name, values_under(m@, name), values_of(headers(*map), name)) by {
                assert(are_read_from(name, values_under(m@, name), listed_values(list@, name)));
            }
        }
        Some(m)
    }
}

/// What a part of a list gives to a name stands at the front of what the list gives to it.
pub(crate) proof fn lemma_listed_grows(list: Seq<(HeaderName, HeaderValue)>, i: int, name: Seq<char>)
    requires
        0 <= i <= list.len(),
    ensures
        listed_values(list.take(i), name).is_prefix_of(listed_values(list, name)),
    decreases list.len(),
{
    if i == list.len() {
        assert(list.take(i) =~= list);
    } else {
        lemma_listed_grows(list.drop_last(), i, name);
        assert(list.drop_last().take(i) =~= list.take(i));
    }
}

/// Whether a text is a header name in lower case.
fn is_lower_case_name(text: &str) -> (r: bool)
    ensures
        r == is_name(text@),
{
    match header_name(text) {
        Some(name) => {
            let r = same_text(name.as_str(), text);
            r
        },
        None => false,
    }
}

impl Default for MetadataMap {
    fn default() -> (r: Self)
        ensures
            r@ == Seq::<EntryView>::empty(),
    {
        MetadataMap::new()
    }
}

impl Clone for MetadataMap {
    fn clone(&self) -> (r: Self)
        ensures
            r@ == self@,
    {
        let mut entries: Vec<(String, MetadataValue)> = Vec::new();
        let mut i: usize = 0;
        while i < self.entries.len()
            invariant
                i <= self.entries@.len(),
                entries@.len() == i,
                forall|j: int|
                    0 <= j < i ==> (#[trigger] entries@[j]).0@ == self.entries@[j].0@
                        && entries@[j].1@ == self.entries@[j].1@,
            decreases self.entries@.len() - i,
        {
            entries.push((self.entries[i].0.clone(), self.entries[i].1.clone()));
            i += 1;
        }
        let r = MetadataMap { entries };
        assert(r@ =~= self@);
        r
    }
}

/// The values under a key are what a filter leaves of the entries.
proof fn lemma_values_filtered(entries: Seq<EntryView>, gone: Seq<char>, key: Seq<char>)
    ensures
        values_under(without_key(entries, gone), key) == if key == gone {
            Seq::empty()
        } else {
            values_under(entries, key)
        },
    decreases entries.len(),
{
    reveal(Seq::filter);
    if entries.len() > 0 {
        let before = entries.drop_last();
        lemma_values_filtered(before, gone, key);
        let kept = without_key(before, gone);
        if entries.last().0 != gone {
            assert(without_key(entries, gone) == kept.push(entries.last()));
            assert(kept.push(entries.last()).drop_last() =~= kept);
        } else {
            assert(without_key(entries, gone) == kept);
        }
    }
}

/// Putting a value under a key makes it the only one there, and leaves all other keys as they are.
pub proof fn law_insert_changes_one_key(
    entries: Seq<EntryView>,
    key: Seq<char>,
    value: MetadataValueView,
    other: Seq<char>,
)
    ensures
        values_under(with_entry(entries, key, value), other) == if other == key {
            seq![value]
        } else {
            values_under(entries, other)
        },
{
    let kept = without_key(entries, key);
    lemma_values_filtered(entries, key, other);
    assert(kept.push((key, value)).drop_last() =~= kept);
    assert(Seq::<MetadataValueView>::empty().push(value) =~= seq![value]);
}

/// Taking the entries under a key out leaves all other keys as they are.
pub proof fn law_removal_changes_one_key(
    entries: Seq<EntryView>,
    key: Seq<char>,
    other: Seq<char>,
)
    ensures
        values_under(without_key(entries, key), other) == if other == key {
            Seq::empty()
        } else {
            values_under(entries, other)
        },
{
    lemma_values_filtered(entries, key, other);
}

/// The text that is found under a key is that of the first entry with this key and a text, and one
/// is found wherever there is such an entry.
pub proof fn law_first_text_is_the_first(entries: Seq<EntryView>, key: Seq<char>)
    ensures
        first_text(entries, key) matches Some(s) ==> exists|i: int|
            0 <= i < entries.len() && #[trigger] entries[i] == (key, MetadataValueView::Ascii(s))
                && forall|j: int|
                0 <= j < i ==> !((#[trigger] entries[j]).0 == key && entries[j].1 is Ascii),
        first_text(entries, key) is None ==> forall|j: int|
            0 <= j < entries.len() ==> !((#[trigger] entries[j]).0 == key && entries[j].1 is Ascii),
    decreases entries.len(),
{
    if entries.len() > 0 {
        let rest = entries.skip(1);
        law_first_text_is_the_first(rest, key);
        if is_text_of(entries[0], key) {
            assert(entries[0] == (key, MetadataValueView::Ascii(entries[0].1->Ascii_0)));
        } else {
            if let Some(s) = first_text(entries, key) {
                let i = choose|i: int|
                    0 <= i < rest.len() && #[trigger] rest[i] == (key, MetadataValueView::Ascii(s))
                        && forall|j: int|
                        0 <= j < i ==> !((#[trigger] rest[j]).0 == key && rest[j].1 is Ascii);
                assert(entries[i + 1] == rest[i]);
                assert forall|j: int| 0 <= j < i + 1 implies !((#[trigger] entries[j]).0 == key
                    && entries[j].1 is Ascii) by {
                    if j > 0 {
                        assert(rest[j - 1] == entries[j]);
                    }
                }
            } else {
                assert forall|j: int| 0 <= j < entries.len() implies !((#[trigger] entries[j]).0
                    == key && entries[j].1 is Ascii) by {
                    if j > 0 {
                        assert(rest[j - 1] == entries[j]);
                    }
                }
            }
        }
    }
}

/// The binary value that is found under a key is that of the first entry with this key and such a
/// value, and one is found wherever there is such an entry.
pub proof fn law_first_binary_is_the_first(entries: Seq<EntryView>, key: Seq<char>)
    ensures
        first_binary(entries, key) matches Some(b) ==> exists|i: int|
            0 <= i < entries.len() && #[trigger] entries[i] == (key, MetadataValueView::Binary(b))
                && forall|j: int|
                0 <= j < i ==> !((#[trigger] entries[j]).0 == key && entries[j].1 is Binary),
        first_binary(entries, key) is None ==> forall|j: int|
            0 <= j < entries.len() ==> !((#[trigger] entries[j]).0 == key && entries[j].1
                is Binary),
    decreases entries.len(),
{
    if entries.len() > 0 {
        let rest = entries.skip(1);
        law_first_binary_is_the_first(rest, key);
        if is_binary_of(entries[0], key) {
            assert(entries[0] == (key, MetadataValueView::Binary(entries[0].1->Binary_0)));
        } else {
            if let Some(b) = first_binary(entries, key) {
                let i = choose|i: int|
                    0 <= i < rest.len() && #[trigger] rest[i] == (
                        key,
                        MetadataValueView::Binary(b),
                    ) && forall|j: int|
                        0 <= j < i ==> !((#[trigger] rest[j]).0 == key && rest[j].1 is Binary);
                assert(entries[i + 1] == rest[i]);
                assert forall|j: int| 0 <= j < i + 1 implies !((#[trigger] entries[j]).0 == key
                    && entries[j].1 is Binary) by {
                    if j > 0 {
                        assert(rest[j - 1] == entries[j]);
                    }
                }
            } else {
                assert forall|j: int| 0 <= j < entries.len() implies !((#[trigger] entries[j]).0
                    == key && entries[j].1 is Binary) by {
                    if j > 0 {
                        assert(rest[j - 1] == entries[j]);
                    }
                }
            }
        }
    }
}

/// The headers of entries are, under each name, what the entries with that key are shown as, in
/// order: texts as their bytes, binary values in Base64. Only entries whose key is no header name in
/// lower case, or whose text cannot stand in a header, are left out.
pub proof fn law_entries_are_shown(entries: Seq<EntryView>, name: Seq<char>)
    ensures
        values_of(as_headers(entries), name) == entries.filter(
            |e: EntryView| e.0 == name && is_name(e.0) && is_value(wire_bytes(e.1)),
        ).map_values(|e: EntryView| wire_bytes(e.1)),
        forall|s: Seq<char>| #[trigger] wire_bytes(MetadataValueView::Ascii(s)) == encode_utf8(s),
        forall|b: Seq<u8>|
            base64::decoded(#[trigger] wire_bytes(MetadataValueView::Binary(b))) == Some(b),
    decreases entries.len(),
{
    reveal(Seq::filter);
    let p = |e: EntryView| e.0 == name && is_name(e.0) && is_value(wire_bytes(e.1));
    let shown = |e: EntryView| wire_bytes(e.1);
    assert forall|b: Seq<u8>| base64::decoded(
        #[trigger] wire_bytes(MetadataValueView::Binary(b)),
    ) == Some(b) by {
        base64::law_decoded_of_encoded(b);
    }
    if entries.len() > 0 {
        let before = entries.drop_last();
        law_entries_are_shown(before, name);
        if p(entries.last()) {
            assert(entries.filter(p).map_values(shown) =~= before.filter(p).map_values(shown).push(
                shown(entries.last()),
            ));
        }
    } else {
        assert(entries.filter(p).map_values(shown) =~= Seq::empty());
    }
}

/// A name says that its values are binary exactly where it ends with `-bin`.
pub proof fn law_binary_names_end_with_bin(name: Seq<char>)
    requires
        is_name(name),
    ensures
        is_binary_name(name) <==> name.len() >= 4 && name[name.len() - 4] == '-' && name[name.len()
            - 3] == 'b' && name[name.len() - 2] == 'i' && name[name.len() - 1] == 'n',
{
    reveal_strlit("-bin");
    let tail = "-bin"@;
    assert(vstd::utf8::is_ascii_chars(tail));
    vstd::utf8::is_ascii_chars_encode_utf8(tail);
    assert(vstd::utf8::is_ascii_chars(name)) by {
        assert forall|i: int| 0 <= i < name.len() implies 0 <= #[trigger] name[i] as nat
            <= 127 by {
            assert(is_name_char(name[i]));
        }
    }
    vstd::utf8::is_ascii_chars_encode_utf8(name);
    let b = encode_utf8(name);
    let t = encode_utf8(tail);
    let n = name.len() as int;
    if n >= 4 {
        let end = b.subrange(n - 4, n);
        assert(end[0] == name[n - 4] as u8 && end[1] == name[n - 3] as u8 && end[2] == name[n - 2] as u8
            && end[3] == name[n - 1] as u8);
        assert(t[0] == 45 && t[1] == 98 && t[2] == 105 && t[3] == 110);
        assert(name[n - 4] as u32 == '-' as u32 ==> name[n - 4] == '-');
        if is_binary_name(name) {
            assert(end =~= t);
        } else if name[n - 4] == '-' && name[n - 3] == 'b' && name[n - 2] == 'i' && name[n - 1] == 'n' {
            assert(end =~= t);
        }
    }
}


/// How a header is read: under a name that ends with `-bin` as the bytes that its Base64 stands
/// for, padded or not, and under any other as the text that its bytes are, where these are visible
/// ASCII. Any other header cannot be read.
pub proof fn law_headers_are_read_by_name(name: Seq<char>, bytes: Seq<u8>)
    ensures
        is_binary_name(name) ==> {
            &&& value_from_wire(name, bytes) is Some <==> base64::decoded(bytes) is Some
            &&& value_from_wire(name, bytes) matches Some(v) ==> v == MetadataValueView::Binary(
                base64::decoded(bytes)->Some_0,
            )
        },
        !is_binary_name(name) ==> {
            &&& value_from_wire(name, bytes) is Some <==> is_visible(bytes)
            &&& value_from_wire(name, bytes) matches Some(v) ==> v is Ascii && encode_utf8(
                v->Ascii_0,
            ) == bytes
        },
{
    if is_visible(bytes) {
        crate::headers::lemma_visible_is_text(bytes);
    }
}


/// The keys of a list of entries are those that an entry has, each counted once.
pub proof fn law_keys_are_those_of_entries(entries: Seq<EntryView>, key: Seq<char>)
    ensures
        keys(entries).finite(),
        keys(entries).len() <= entries.len(),
        keys(entries).contains(key) <==> values_under(entries, key).len() > 0,
        values_under(entries, key).len() > 0 <==> exists|i: int|
            0 <= i < entries.len() && (#[trigger] entries[i]).0 == key,
    decreases entries.len(),
{
    lemma_keys(entries);
    if entries.len() > 0 {
        let before = entries.drop_last();
        law_keys_are_those_of_entries(before, key);
        if exists|i: int| 0 <= i < entries.len() && (#[trigger] entries[i]).0 == key {
            let i = choose|i: int| 0 <= i < entries.len() && (#[trigger] entries[i]).0 == key;
            if i < before.len() {
                assert(before[i].0 == key);
            }
        }
        if values_under(entries, key).len() > 0 && entries.last().0 != key {
            let i = choose|i: int| 0 <= i < before.len() && (#[trigger] before[i]).0 == key;
            assert(entries[i].0 == key);
        }
        if entries.last().0 == key {
            assert(entries[entries.len() - 1].0 == key);
        }
    }
}

} // verus!
