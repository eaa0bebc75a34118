//! The metadata of a call as HTTP headers.

use crate::headers::{
    header_clone, header_get, header_text, headers, is_name, is_visible, no_headers, values_of,
};
use crate::text::same_bytes;
use http::header::HeaderValue;
use http::HeaderMap;
use vstd::prelude::*;
use vstd::utf8::encode_utf8;

verus! {

/// The metadata of a call.
#[derive(Debug)]
pub struct Metadata {
    /// The HTTP headers.
    pub inner: HeaderMap<HeaderValue>,
}

/// The pieces between the commas.
pub open spec fn between_commas(b: Seq<u8>) -> Seq<Seq<u8>>
    decreases b.len(),
{
    if b.len() == 0 {
        seq![Seq::empty()]
    } else {
        let before = between_commas(b.drop_last());
        if b.last() == 44 {
            before.push(Seq::empty())
        } else {
            before.drop_last().push(before.last().push(b.last()))
        }
    }
}

/// Bytes without the spaces and tabs in front.
pub open spec fn trimmed_front(b: Seq<u8>) -> Seq<u8>
    decreases b.len(),
{
    if b.len() > 0 && (b[0] == 32 || b[0] == 9) {
        trimmed_front(b.skip(1))
    } else {
        b
    }
}

/// Bytes without the spaces and tabs in front and behind.
pub open spec fn trimmed(b: Seq<u8>) -> Seq<u8>
    decreases b.len(),
{
    if b.len() > 0 && (b.last() == 32 || b.last() == 9) {
        trimmed(b.drop_last())
    } else {
        trimmed_front(b)
    }
}

/// Whether a list of encodings, separated by commas, names an encoding.
pub open spec fn names_encoding(list: Seq<u8>, name: Seq<u8>) -> bool {
    exists|i: int|
        0 <= i < between_commas(list).len() && trimmed(#[trigger] between_commas(list)[i]) == name
}

/// The encoding of the messages, where the metadata names one.
pub open spec fn encoding_of(m: Map<Seq<char>, Seq<Seq<u8>>>) -> Option<Seq<u8>> {
    let values = values_of(m, "grpc-encoding"@);
    if values.len() > 0 && is_visible(values[0]) {
        Some(values[0])
    } else {
        None
    }
}

/// Whether the peer accepts an encoding.
pub open spec fn accepts(m: Map<Seq<char>, Seq<Seq<u8>>>, name: Seq<u8>) -> bool {
    let values = values_of(m, "grpc-accept-encoding"@);
    values.len() > 0 && is_visible(values[0]) && names_encoding(values[0], name)
}

proof fn lemma_encoding_names()
    ensures
        is_name("grpc-encoding"@),
        is_name("grpc-accept-encoding"@),
{
    reveal_strlit("grpc-encoding");
    reveal_strlit("grpc-accept-encoding");
}

/// Bytes without the spaces and tabs in front and behind.
fn trim(b: &[u8]) -> (r: &[u8])
    ensures
        r@ == trimmed(b@),
{
    let mut rest: &[u8] = b;
    while rest.len() > 0 && (rest[rest.len() - 1] == 32 || rest[rest.len() - 1] == 9)
        invariant
            trimmed(rest@) == trimmed(b@),
        decreases rest@.len(),
    {
        let (head, _) = rest.split_at(rest.len() - 1);
        assert(head@ =~= rest@.drop_last());
        rest = head;
    }
    while rest.len() > 0 && (rest[0] == 32 || rest[0] == 9)
        invariant
            trimmed_front(rest@) == trimmed(b@),
        decreases rest@.len(),
    {
        let (_, tail) = rest.split_at(1);
        assert(tail@ =~= rest@.skip(1));
        rest = tail;
    }
    rest
}

/// Whether a list of encodings, separated by commas, names an encoding.
fn list_names(list: &[u8], name: &[u8]) -> (r: bool)
    ensures
        r == names_encoding(list@, name@),
{
    let mut start: usize = 0;
    let mut i: usize = 0;
    let mut found = false;
    assert(list@.take(0) =~= Seq::empty());
    while i < list.len()
        invariant
            start <= i <= list@.len(),
            between_commas(list@.take(i as int)).len() > 0,
            between_commas(list@.take(i as int)).last() == list@.subrange(start as int, i as int),
            found == exists|k: int|
                0 <= k < between_commas(list@.take(i as int)).len() - 1 && trimmed(
                    #[trigger] between_commas(list@.take(i as int))[k],
                ) == name@,
        decreases list@.len() - i,
    {
        let ghost before = between_commas(list@.take(i as int));
        let ghost had = found;
        proof {
            assert(list@.take(i + 1).drop_last() =~= list@.take(i as int));
        }
        let ghost after = between_commas(list@.take(i + 1));
        if list[i] == 44 {
            let (head, _) = list.split_at(i);
            let (_, piece) = head.split_at(start);
            assert(piece@ =~= list@.subrange(start as int, i as int));
            if same_bytes(trim(piece), name) {
                found = true;
            }
            start = i + 1;
            proof {
                assert(list@.subrange(i + 1, i + 1) =~= Seq::empty());
                assert(after == before.push(Seq::empty()));
                if found {
                    if had {
                        let k = choose|k: int|
                            0 <= k < before.len() - 1 && trimmed(#[trigger] before[k]) == name@;
                        assert(after[k] == before[k]);
                    } else {
                        assert(after[before.len() - 1] == before.last());
                    }
                } else {
                    assert forall|k: int| 0 <= k < after.len() - 1 implies trimmed(
                        #[trigger] after[k],
                    ) != name@ by {
                        assert(after[k] == before[k]);
                    }
                }
            }
        } else {
            proof {
                assert(list@.subrange(start as int, i + 1) =~= list@.subrange(
                    start as int,
                    i as int,
                ).push(list@[i as int]));
                assert forall|k: int| 0 <= k < after.len() - 1 implies #[trigger] after[k]
                    == before[k] by {}
                if found {
                    let k = choose|k: int|
                        0 <= k < before.len() - 1 && trimmed(#[trigger] before[k]) == name@;
                    assert(after[k] == before[k]);
                }
            }
        }
        i += 1;
    }
    let (_, piece) = list.split_at(start);
    proof {
        assert(list@.take(i as int) =~= list@);
        assert(piece@ =~= list@.subrange(start as int, list@.len() as int));
    }
    let last = same_bytes(trim(piece), name);
    proof {
        let all = between_commas(list@);
        if last {
            assert(trimmed(all[all.len() - 1]) == name@);
        }
        if !found && !last {
            assert forall|k: int| 0 <= k < all.len() implies trimmed(#[trigger] all[k]) != name@ by {
                if k == all.len() - 1 {
                    assert(all[k] == all.last());
                }
            }
        }
    }
    found || last
}

impl Metadata {
    /// The metadata with the given headers.
    pub fn new(inner: HeaderMap<HeaderValue>) -> (r: Self)
        ensures
            r.inner == inner,
    {
        Metadata { inner }
    }

    /// The encoding of the messages, where the metadata names one.
    pub fn encoding(&self) -> (r: Option<&str>)
        ensures
            match encoding_of(headers(self.inner)) {
                Some(b) => r matches Some(s) && encode_utf8(s@) == b,
                None => r is None,
            },
    {
        proof {
            lemma_encoding_names();
        }
        match header_get(&self.inner, "grpc-encoding") {
            Some(v) => header_text(v),
            None => None,
        }
    }

    /// Whether the peer accepts an encoding.
    pub fn accepts_encoding(&self, name: &str) -> (r: bool)
        ensures
            r == accepts(headers(self.inner), encode_utf8(name@)),
    {
        proof {
            lemma_encoding_names();
        }
        match header_get(&self.inner, "grpc-accept-encoding") {
            Some(v) => match header_text(v) {
                Some(list) => list_names(list.as_bytes(), name.as_bytes()),
                None => false,
            },
            None => false,
        }
    }
}

impl Default for Metadata {
    fn default() -> (r: Self)
        ensures
            headers(r.inner) == no_headers(),
    {
        Metadata { inner: HeaderMap::new() }
    }
}

impl Clone for Metadata {
    fn clone(&self) -> (r: Self)
        ensures
            headers(r.inner) == headers(self.inner),
    {
        Metadata { inner: header_clone(&self.inner) }
    }
}

/// The pieces of two lists with a comma between them are those of both.
pub proof fn law_commas_separate(a: Seq<u8>, b: Seq<u8>)
    ensures
        between_commas(a + seq![44u8] + b) == between_commas(a) + between_commas(b),
        (forall|i: int| 0 <= i < a.len() ==> #[trigger] a[i] != 44) ==> between_commas(a) == seq![
            a,
        ],
        between_commas(a).len() > 0,
    decreases a.len() + b.len(),
{
    let all = a + seq![44u8] + b;
    lemma_whole_piece(a);
    lemma_some_piece(a);
    if b.len() == 0 {
        assert(all.drop_last() =~= a);
        assert(between_commas(a) + between_commas(b) =~= between_commas(a).push(Seq::empty()));
    } else {
        let init = b.drop_last();
        law_commas_separate(a, init);
        lemma_some_piece(init);
        assert(all.drop_last() =~= a + seq![44u8] + init);
        assert(all.last() == b.last());
        let before = between_commas(a) + between_commas(init);
        assert(before.last() == between_commas(init).last());
        assert(before.drop_last() =~= between_commas(a) + between_commas(init).drop_last());
        if b.last() == 44 {
            assert(before.push(Seq::empty()) =~= between_commas(a) + between_commas(b));
        } else {
            assert(before.drop_last().push(before.last().push(b.last())) =~= between_commas(a)
                + between_commas(b));
        }
    }
}

/// There is at least one piece.
proof fn lemma_some_piece(a: Seq<u8>)
    ensures
        between_commas(a).len() > 0,
    decreases a.len(),
{
    if a.len() > 0 {
        lemma_some_piece(a.drop_last());
    }
}

/// Without commas there is one piece.
proof fn lemma_whole_piece(a: Seq<u8>)
    ensures
        (forall|i: int| 0 <= i < a.len() ==> #[trigger] a[i] != 44) ==> between_commas(a) == seq![
            a,
        ],
    decreases a.len(),
{
    if forall|i: int| 0 <= i < a.len() ==> #[trigger] a[i] != 44 {
        if a.len() == 0 {
            assert(a =~= Seq::empty());
        } else {
            let init = a.drop_last();
            assert forall|i: int| 0 <= i < init.len() implies #[trigger] init[i] != 44 by {
                assert(init[i] == a[i]);
            }
            lemma_whole_piece(init);
            assert(a[a.len() - 1] != 44);
            assert(init.push(a.last()) =~= a);
            assert(between_commas(a) =~= seq![a]);
        }
    }
}

/// Trimming takes away spaces and tabs at both ends, all of them and nothing else: bytes that begin
/// and end with something else stay, whatever spaces and tabs stand around them.
pub proof fn law_trimming_takes_blanks(front: Seq<u8>, b: Seq<u8>, behind: Seq<u8>)
    requires
        forall|i: int| 0 <= i < front.len() ==> (#[trigger] front[i] == 32 || front[i] == 9),
        forall|i: int| 0 <= i < behind.len() ==> (#[trigger] behind[i] == 32 || behind[i] == 9),
        b.len() > 0 ==> b[0] != 32 && b[0] != 9 && b.last() != 32 && b.last() != 9,
    ensures
        trimmed(front + b + behind) == b,
    decreases front.len() + behind.len(),
{
    let all = front + b + behind;
    if behind.len() > 0 {
        let init = behind.drop_last();
        assert forall|i: int| 0 <= i < init.len() implies (#[trigger] init[i] == 32 || init[i]
            == 9) by {
            assert(init[i] == behind[i]);
        }
        law_trimming_takes_blanks(front, b, init);
        assert(all.drop_last() =~= front + b + init);
        assert(all.last() == behind[behind.len() - 1]);
    } else if b.len() == 0 && front.len() > 0 {
        let init = front.drop_last();
        assert forall|i: int| 0 <= i < init.len() implies (#[trigger] init[i] == 32 || init[i]
            == 9) by {
            assert(init[i] == front[i]);
        }
        law_trimming_takes_blanks(init, b, behind);
        assert(all.drop_last() =~= init + b + behind);
        assert(all.last() == front[front.len() - 1]);
    } else if b.len() > 0 {
        assert(all =~= front + b);
        assert(all.last() == b.last());
        lemma_trimmed_front(front, b);
    } else {
        assert(all =~= b);
        assert(b =~= Seq::empty());
    }
}

/// Blanks in front are taken away.
proof fn lemma_trimmed_front(front: Seq<u8>, b: Seq<u8>)
    requires
        forall|i: int| 0 <= i < front.len() ==> (#[trigger] front[i] == 32 || front[i] == 9),
        b.len() > 0 && b[0] != 32 && b[0] != 9,
    ensures
        trimmed_front(front + b) == b,
    decreases front.len(),
{
    if front.len() == 0 {
        assert(front + b =~= b);
    } else {
        let tail = front.skip(1);
        assert forall|i: int| 0 <= i < tail.len() implies (#[trigger] tail[i] == 32 || tail[i]
            == 9) by {
            assert(tail[i] == front[i + 1]);
        }
        lemma_trimmed_front(tail, b);
        assert((front + b).skip(1) =~= tail + b);
        assert(front[0] == 32 || front[0] == 9);
    }
}

/// An encoding is accepted where the first `grpc-accept-encoding` lists it: by itself or between
/// commas, with spaces and tabs around it or not. What else is listed does not matter.
pub proof fn law_listed_encodings_are_accepted(
    m: Map<Seq<char>, Seq<Seq<u8>>>,
    before: Option<Seq<u8>>,
    front: Seq<u8>,
    name: Seq<u8>,
    behind: Seq<u8>,
    after: Option<Seq<u8>>,
)
    requires
        values_of(m, "grpc-accept-encoding"@).len() > 0,
        is_visible(values_of(m, "grpc-accept-encoding"@)[0]),
        values_of(m, "grpc-accept-encoding"@)[0] == (match before {
            Some(b) => b + seq![44u8],
            None => Seq::empty(),
        }) + (front + name + behind) + (match after {
            Some(a) => seq![44u8] + a,
            None => Seq::empty(),
        }),
        forall|i: int| 0 <= i < front.len() ==> (#[trigger] front[i] == 32 || front[i] == 9),
        forall|i: int| 0 <= i < behind.len() ==> (#[trigger] behind[i] == 32 || behind[i] == 9),
        name.len() > 0 ==> name[0] != 32 && name[0] != 9 && name.last() != 32 && name.last() != 9,
        forall|i: int| 0 <= i < name.len() ==> #[trigger] name[i] != 44,
    ensures
        accepts(m, name),
{
    let list = values_of(m, "grpc-accept-encoding"@)[0];
    let piece = front + name + behind;
    assert forall|i: int| 0 <= i < piece.len() implies #[trigger] piece[i] != 44 by {
        if i < front.len() {
            assert(piece[i] == front[i]);
        } else if i < front.len() + name.len() {
            assert(piece[i] == name[i - front.len()]);
        } else {
            assert(piece[i] == behind[i - front.len() - name.len()]);
        }
    }
    law_trimming_takes_blanks(front, name, behind);
    let tail = match after {
        Some(a) => piece + seq![44u8] + a,
        None => piece,
    };
    match after {
        Some(a) => {
            law_commas_separate(piece, a);
        },
        None => {
            law_commas_separate(piece, Seq::empty());
        },
    }
    let pieces = between_commas(tail);
    assert(pieces[0] == piece);
    match before {
        Some(b) => {
            law_commas_separate(b, tail);
            assert(list =~= b + seq![44u8] + tail);
            let k = between_commas(b).len() as int;
            assert((between_commas(b) + pieces)[k] == piece);
            assert(trimmed(between_commas(list)[k]) == name);
        },
        None => {
            assert(list =~= tail);
            assert(trimmed(between_commas(list)[0]) == name);
        },
    }
}

/// Without `grpc-accept-encoding` nothing is accepted, and only what the first value lists is: a
/// name that is accepted stands in it.
pub proof fn law_only_listed_encodings_are_accepted(
    m: Map<Seq<char>, Seq<Seq<u8>>>,
    name: Seq<u8>,
)
    requires
        accepts(m, name),
    ensures
        values_of(m, "grpc-accept-encoding"@).len() > 0,
        exists|i: int, j: int|
            0 <= i <= j <= values_of(m, "grpc-accept-encoding"@)[0].len() && #[trigger] values_of(
                m,
                "grpc-accept-encoding"@,
            )[0].subrange(i, j) == name,
{
    let list = values_of(m, "grpc-accept-encoding"@)[0];
    let k = choose|k: int|
        0 <= k < between_commas(list).len() && trimmed(#[trigger] between_commas(list)[k]) == name;
    let (i, j) = lemma_piece_within(list, k);
    let piece = between_commas(list)[k];
    let (x, y) = lemma_trimmed_within(piece);
    assert(list.subrange(i, j).subrange(x, y) =~= list.subrange(i + x, i + y));
    assert(list.subrange(i + x, i + y) == name);
}

/// Where a piece stands.
proof fn lemma_piece_within(list: Seq<u8>, k: int) -> (r: (int, int))
    requires
        0 <= k < between_commas(list).len(),
    ensures
        0 <= r.0 <= r.1 <= list.len(),
        list.subrange(r.0, r.1) == between_commas(list)[k],
        k == between_commas(list).len() - 1 ==> r.1 == list.len(),
    decreases list.len(),
{
    lemma_some_piece(list);
    if list.len() == 0 {
        assert(list.subrange(0, 0) =~= Seq::empty());
        (0, 0)
    } else {
        let init = list.drop_last();
        let before = between_commas(init);
        lemma_some_piece(init);
        let n = list.len() as int;
        if list.last() == 44 {
            if k == before.len() {
                assert(list.subrange(n, n) =~= Seq::empty());
                (n, n)
            } else {
                let (i, j) = lemma_piece_within(init, k);
                assert(list.subrange(i, j) =~= init.subrange(i, j));
                (i, j)
            }
        } else {
            let (i, j) = lemma_piece_within(init, k);
            if k == before.len() - 1 {
                assert(list.subrange(i, n) =~= init.subrange(i, j).push(list.last()));
                (i, n)
            } else {
                assert(list.subrange(i, j) =~= init.subrange(i, j));
                (i, j)
            }
        }
    }
}

/// What is left of bytes that are trimmed stands in them.
proof fn lemma_trimmed_within(b: Seq<u8>) -> (r: (int, int))
    ensures
        0 <= r.0 <= r.1 <= b.len(),
        b.subrange(r.0, r.1) == trimmed(b),
    decreases b.len(),
{
    if b.len() > 0 && (b.last() == 32 || b.last() == 9) {
        let (i, j) = lemma_trimmed_within(b.drop_last());
        assert(b.subrange(i, j) =~= b.drop_last().subrange(i, j));
        (i, j)
    } else {
        let i = lemma_front_within(b);
        (i, b.len() as int)
    }
}

/// What is left of bytes that are trimmed in front stands in them.
proof fn lemma_front_within(b: Seq<u8>) -> (r: int)
    ensures
        0 <= r <= b.len(),
        b.subrange(r, b.len() as int) == trimmed_front(b),
    decreases b.len(),
{
    if b.len() > 0 && (b[0] == 32 || b[0] == 9) {
        let i = lemma_front_within(b.skip(1));
        assert(b.subrange(i + 1, b.len() as int) =~= b.skip(1).subrange(i, b.len() - 1));
        i + 1
    } else {
        assert(b.subrange(0, b.len() as int) =~= b);
        0
    }
}

/// The encoding of messages is the first `grpc-encoding`, and no other header has a say in it.
pub proof fn law_encoding_is_the_first_named(
    a: Map<Seq<char>, Seq<Seq<u8>>>,
    b: Map<Seq<char>, Seq<Seq<u8>>>,
)
    requires
        values_of(a, "grpc-encoding"@).take(1) == values_of(b, "grpc-encoding"@).take(1),
        values_of(a, "grpc-encoding"@).len() > 0,
        values_of(b, "grpc-encoding"@).len() > 0,
    ensures
        encoding_of(a) == encoding_of(b),
        is_visible(values_of(a, "grpc-encoding"@)[0]) ==> encoding_of(a) == Some(
            values_of(a, "grpc-encoding"@)[0],
        ),
        !is_visible(values_of(a, "grpc-encoding"@)[0]) ==> encoding_of(a) is None,
        forall|m: Map<Seq<char>, Seq<Seq<u8>>>|
            values_of(m, "grpc-encoding"@).len() == 0 ==> #[trigger] encoding_of(m) is None,
{
    assert(values_of(a, "grpc-encoding"@).take(1)[0] == values_of(a, "grpc-encoding"@)[0]);
    assert(values_of(b, "grpc-encoding"@).take(1)[0] == values_of(b, "grpc-encoding"@)[0]);
}

} // verus!
