//! The protobuf wire format: a message is a list of fields, each a number and a value.

use crate::text::copied;
use vstd::prelude::*;

verus! {

/// The value of a field on the wire.
#[derive(Debug)]
pub enum FieldValue {
    /// A number of variable length.
    Varint(u64),
    /// Eight bytes.
    Fixed64,
    /// Bytes, with their number in front.
    Delimited(Vec<u8>),
    /// Four bytes.
    Fixed32,
}

/// A field on the wire.
#[derive(Debug)]
pub struct Field {
    /// The field's number.
    pub number: u32,
    /// Its value.
    pub value: FieldValue,
}

/// What a [`FieldValue`] is.
pub enum ValueView {
    /// A number of variable length.
    Varint(nat),
    /// Eight bytes.
    Fixed64,
    /// Bytes, with their number in front.
    Delimited(Seq<u8>),
    /// Four bytes.
    Fixed32,
}

/// What a [`Field`] is.
pub struct FieldView {
    /// The field's number.
    pub number: nat,
    /// Its value.
    pub value: ValueView,
}

impl View for Field {
    type V = FieldView;

    open spec fn view(&self) -> FieldView {
        FieldView {
            number: self.number as nat,
            value: match self.value {
                FieldValue::Varint(v) => ValueView::Varint(v as nat),
                FieldValue::Fixed64 => ValueView::Fixed64,
                FieldValue::Delimited(b) => ValueView::Delimited(b@),
                FieldValue::Fixed32 => ValueView::Fixed32,
            },
        }
    }
}

/// What a list of fields is.
pub open spec fn field_views(fields: Seq<Field>) -> Seq<FieldView> {
    fields.map_values(|f: Field| f@)
}

/// The number at the front that takes at most `k` bytes, and how many bytes it takes: seven bits
/// in each byte, the lowest first, and the highest bit set in all bytes but the last.
pub open spec fn varint(b: Seq<u8>, k: nat) -> Option<(nat, nat)>
    decreases k,
{
    if k == 0 || b.len() == 0 {
        None
    } else if b[0] < 128 {
        Some((b[0] as nat, 1))
    } else {
        match varint(b.skip(1), (k - 1) as nat) {
            Some((v, n)) => Some(((b[0] - 128 + 128 * v) as nat, n + 1)),
            None => None,
        }
    }
}

/// The bytes of a number of variable length.
pub open spec fn varint_bytes(n: nat) -> Seq<u8>
    decreases n,
{
    if n < 128 {
        seq![n as u8]
    } else {
        seq![(n % 128 + 128) as u8] + varint_bytes(n / 128)
    }
}

/// A field in front of others, unless it stands in a group, of which nothing is kept.
pub open spec fn with_field(
    field: FieldView,
    open: Seq<nat>,
    rest: Option<Seq<FieldView>>,
) -> Option<Seq<FieldView>> {
    match rest {
        Some(fs) => if open.len() == 0 {
            Some(seq![field] + fs)
        } else {
            Some(fs)
        },
        None => None,
    }
}

/// The greatest length that may stand in front of bytes.
pub const MAX_LENGTH: usize = 0x7fff_ffff;

/// How deep groups may be nested in a message.
pub const MAX_GROUP_DEPTH: usize = 100;

/// How deep groups may be nested in a message that is itself a field of another.
pub const MAX_GROUP_DEPTH_INSIDE: usize = 99;

/// What a tag and what belongs to it stand for.
pub enum TokenView {
    /// A field.
    Value(FieldView),
    /// The beginning of a group.
    Start(nat),
    /// The end of a group.
    End(nat),
}

/// What a tag with the given number and kind, in front of `rest`, stands for, and how many bytes
/// of `rest` belong to it.
pub open spec fn token_after_tag(number: nat, kind: nat, rest: Seq<u8>) -> Option<
    (TokenView, nat),
> {
    if kind == 0 {
        match varint(rest, 10) {
            Some((v, m)) => Some(
                (
                    TokenView::Value(
                        FieldView {
                            number,
                            value: ValueView::Varint(v % 0x1_0000_0000_0000_0000),
                        },
                    ),
                    m,
                ),
            ),
            None => None,
        }
    } else if kind == 1 {
        if rest.len() < 8 {
            None
        } else {
            Some((TokenView::Value(FieldView { number, value: ValueView::Fixed64 }), 8))
        }
    } else if kind == 2 {
        match varint(rest, 5) {
            Some((len, m)) => if len > MAX_LENGTH || m + len > rest.len() {
                None
            } else {
                Some(
                    (
                        TokenView::Value(
                            FieldView {
                                number,
                                value: ValueView::Delimited(
                                    rest.subrange(m as int, (m + len) as int),
                                ),
                            },
                        ),
                        m + len,
                    ),
                )
            },
            None => None,
        }
    } else if kind == 3 {
        Some((TokenView::Start(number), 0))
    } else if kind == 4 {
        Some((TokenView::End(number), 0))
    } else if kind == 5 {
        if rest.len() < 4 {
            None
        } else {
            Some((TokenView::Value(FieldView { number, value: ValueView::Fixed32 }), 4))
        }
    } else {
        None
    }
}

/// What stands at the front of a message, and how many bytes it takes.
pub open spec fn token(b: Seq<u8>) -> Option<(TokenView, nat)> {
    match varint(b, 5) {
        Some((tag, n)) => if tag > u32::MAX {
            None
        } else {
            match token_after_tag(tag / 8, tag % 8, b.skip(n as int)) {
                Some((t, m)) => Some((t, n + m)),
                None => None,
            }
        },
        None => None,
    }
}

/// The number that a token carries.
pub open spec fn token_number(t: TokenView) -> nat {
    match t {
        TokenView::Value(f) => f.number,
        TokenView::Start(n) => n,
        TokenView::End(n) => n,
    }
}

/// The fields of a message, where its bytes are one and groups are nested at most `max` deep.
/// `open` are the numbers of the groups that have begun; fields in groups are skipped.
pub open spec fn fields(b: Seq<u8>, open: Seq<nat>, max: nat) -> Option<Seq<FieldView>>
    decreases b.len(),
{
    if b.len() == 0 {
        if open.len() == 0 {
            Some(Seq::empty())
        } else {
            None
        }
    } else {
        match token(b) {
            None => None,
            Some((t, n)) => if n == 0 || n > b.len() {
                None
            } else if open.len() == 0 && token_number(t) == 0 {
                None
            } else {
                let rest = b.skip(n as int);
                match t {
                    TokenView::Value(f) => with_field(f, open, fields(rest, open, max)),
                    TokenView::Start(number) => if open.len() >= max {
                        None
                    } else {
                        fields(rest, open.push(number), max)
                    },
                    TokenView::End(number) => if open.len() > 0 && open.last() == number {
                        fields(rest, open.drop_last(), max)
                    } else {
                        None
                    },
                }
            },
        }
    }
}

/// The bytes of a field with a number as its value.
pub open spec fn varint_field(number: nat, v: nat) -> Seq<u8> {
    varint_bytes(number * 8) + varint_bytes(v)
}

/// The bytes of a field with bytes as its value.
pub open spec fn delimited_field(number: nat, b: Seq<u8>) -> Seq<u8> {
    varint_bytes(number * 8 + 2) + varint_bytes(b.len()) + b
}

/// How many bytes a number takes, and how large it can be.
pub proof fn lemma_varint_size(b: Seq<u8>, k: nat)
    ensures
        varint(b, k) matches Some((v, n)) ==> 1 <= n <= k && n <= b.len(),
        k <= 10 ==> (varint(b, k) matches Some((v, n)) ==> v < 0x40_0000_0000_0000_0000),
    decreases k,
{
    if k > 0 && b.len() > 0 && b[0] >= 128 {
        lemma_varint_size(b.skip(1), (k - 1) as nat);
    }
    lemma_varint_bound(b, k);
}

/// The greatest number that fits in `k` bytes.
pub open spec fn limit(k: nat) -> nat
    decreases k,
{
    if k == 0 {
        1
    } else {
        128 * limit((k - 1) as nat)
    }
}

proof fn lemma_varint_bound(b: Seq<u8>, k: nat)
    ensures
        varint(b, k) matches Some((v, n)) ==> v < limit(k),
        k <= 10 ==> limit(k) <= 0x40_0000_0000_0000_0000,
    decreases k,
{
    reveal_with_fuel(limit, 12);
    if k > 0 && b.len() > 0 {
        lemma_varint_bound(b.skip(1), (k - 1) as nat);
        lemma_limit_positive((k - 1) as nat);
    }
}

proof fn lemma_limit_positive(k: nat)
    ensures
        limit(k) >= 1,
    decreases k,
{
    if k > 0 {
        lemma_limit_positive((k - 1) as nat);
    }
}

/// A number is read back from its bytes, whatever follows them.
pub proof fn lemma_varint_round_trip(n: nat, rest: Seq<u8>, k: nat)
    requires
        n < limit(k),
        k > 0,
    ensures
        varint(varint_bytes(n) + rest, k) == Some((n, varint_bytes(n).len())),
    decreases k,
{
    let b = varint_bytes(n) + rest;
    if n < 128 {
        assert(b[0] == n as u8);
    } else {
        let tail = varint_bytes(n / 128);
        if k == 1 {
            assert(limit(1) == 128) by {
                reveal_with_fuel(limit, 3);
            }
        }
        assert(n / 128 < limit((k - 1) as nat));
        lemma_varint_round_trip(n / 128, rest, (k - 1) as nat);
        assert(b[0] == (n % 128 + 128) as u8);
        assert(b.skip(1) =~= tail + rest);
        assert(n == n % 128 + 128 * (n / 128));
    }
}

/// A field with a number as its value is read back, and then what follows it.
pub proof fn lemma_varint_field(number: nat, v: nat, rest: Seq<u8>, max: nat)
    requires
        1 <= number < 16,
        v < 0x1_0000_0000_0000_0000,
    ensures
        fields(varint_field(number, v) + rest, Seq::empty(), max) == with_field(
            FieldView { number, value: ValueView::Varint(v) },
            Seq::empty(),
            fields(rest, Seq::empty(), max),
        ),
{
    let tag = number * 8;
    let b = varint_field(number, v) + rest;
    let after_tag = varint_bytes(v) + rest;
    assert(limit(5) > 128 && limit(10) >= 0x40_0000_0000_0000_0000) by {
        reveal_with_fuel(limit, 12);
    }
    assert(b =~= varint_bytes(tag) + after_tag);
    lemma_varint_round_trip(tag, after_tag, 5);
    lemma_varint_round_trip(v, rest, 10);
    assert(tag / 8 == number && tag % 8 == 0);
    let n = varint_bytes(tag).len();
    let m = varint_bytes(v).len();
    assert(b.skip(n as int) =~= after_tag);
    let f = FieldView { number, value: ValueView::Varint(v) };
    assert(token(b) == Some((TokenView::Value(f), n + m)));
    lemma_varint_size(b, 5);
    assert(b.skip((n + m) as int) =~= rest);
}

/// A field with bytes as its value is at most six bytes longer than these.
pub proof fn lemma_delimited_size(number: nat, v: Seq<u8>)
    requires
        1 <= number < 15,
        v.len() <= MAX_LENGTH,
    ensures
        v.len() < delimited_field(number, v).len() <= v.len() + 6,
{
    let none = Seq::<u8>::empty();
    let length = varint_bytes(v.len());
    assert(limit(5) > MAX_LENGTH && limit(1) == 128) by {
        reveal_with_fuel(limit, 12);
    }
    lemma_varint_round_trip(number * 8 + 2, none, 1);
    lemma_varint_size(varint_bytes(number * 8 + 2) + none, 1);
    lemma_varint_round_trip(v.len(), none, 5);
    lemma_varint_size(length + none, 5);
}

/// A field with bytes as its value is read back, and then what follows it.
pub proof fn lemma_delimited_field(number: nat, v: Seq<u8>, rest: Seq<u8>, max: nat)
    requires
        1 <= number < 15,
        v.len() <= MAX_LENGTH,
    ensures
        fields(delimited_field(number, v) + rest, Seq::empty(), max) == with_field(
            FieldView { number, value: ValueView::Delimited(v) },
            Seq::empty(),
            fields(rest, Seq::empty(), max),
        ),
{
    let tag = number * 8 + 2;
    let b = delimited_field(number, v) + rest;
    let after_len = v + rest;
    let after_tag = varint_bytes(v.len()) + after_len;
    assert(limit(5) > MAX_LENGTH) by {
        reveal_with_fuel(limit, 12);
    }
    assert(b =~= varint_bytes(tag) + after_tag);
    lemma_varint_round_trip(tag, after_tag, 5);
    lemma_varint_round_trip(v.len(), after_len, 5);
    assert(tag / 8 == number && tag % 8 == 2);
    let n = varint_bytes(tag).len();
    let m = varint_bytes(v.len()).len();
    assert(b.skip(n as int) =~= after_tag);
    assert(after_tag.subrange(m as int, (m + v.len()) as int) =~= v);
    let f = FieldView { number, value: ValueView::Delimited(v) };
    assert(token(b) == Some((TokenView::Value(f), n + (m + v.len()))));
    lemma_varint_size(b, 5);
    assert(b.skip((n + (m + v.len())) as int) =~= rest);
}

/// Reads a number that takes at most `max` bytes.
fn read_varint(b: &[u8], start: usize, max: usize) -> (r: Option<(u128, usize)>)
    requires
        start <= b@.len(),
        max <= 10,
    ensures
        match varint(b@.skip(start as int), max as nat) {
            Some((v, n)) => r matches Some((rv, rn)) && rv == v && rn == n && start + n <= b@.len()
                && n >= 1,
            None => r is None,
        },
    decreases max,
{
    let ghost here = b@.skip(start as int);
    if max == 0 || start == b.len() {
        return None;
    }
    let first: u8 = b[start];
    assert(here[0] == first);
    if first < 128 {
        return Some((first as u128, 1));
    }
    assert(here.skip(1) =~= b@.skip(start + 1));
    proof {
        lemma_varint_size(here.skip(1), (max - 1) as nat);
    }
    match read_varint(b, start + 1, max - 1) {
        Some((v, n)) => Some(((first as u128 - 128) + 128 * v, n + 1)),
        None => None,
    }
}

/// A part of a list of bytes.
fn part(b: &[u8], from: usize, to: usize) -> (r: Vec<u8>)
    requires
        from <= to <= b@.len(),
    ensures
        r@ == b@.subrange(from as int, to as int),
{
    let (head, _) = b.split_at(to);
    let (_, piece) = head.split_at(from);
    assert(piece@ =~= b@.subrange(from as int, to as int));
    copied(piece)
}

/// The numbers of groups, as the model has them.
spec fn group_numbers(open: Seq<u32>) -> Seq<nat> {
    open.map_values(|n: u32| n as nat)
}

/// What was read so far agrees with the whole.
spec fn agrees(
    all: Seq<u8>,
    out: Seq<FieldView>,
    rest: Seq<u8>,
    open: Seq<nat>,
    max: nat,
) -> bool {
    match fields(rest, open, max) {
        Some(fs) => fields(all, Seq::empty(), max) == Some(out + fs),
        None => fields(all, Seq::empty(), max) is None,
    }
}

/// What a tag and what belongs to it stand for.
enum Token {
    /// A field.
    Value(Field),
    /// The beginning of a group.
    Start(u32),
    /// The end of a group.
    End(u32),
}

/// What a [`Token`] is.
spec fn token_view(t: Token) -> TokenView {
    match t {
        Token::Value(f) => TokenView::Value(f@),
        Token::Start(n) => TokenView::Start(n as nat),
        Token::End(n) => TokenView::End(n as nat),
    }
}

/// Reads what belongs to a tag.
fn read_after_tag(b: &[u8], start: usize, number: u32, kind: u32) -> (r: Option<(Token, usize)>)
    requires
        start <= b@.len(),
    ensures
        match token_after_tag(number as nat, kind as nat, b@.skip(start as int)) {
            Some((t, m)) => r matches Some((rt, rm)) && token_view(rt) == t && rm == m && start + m
                <= b@.len(),
            None => r is None,
        },
{
    let ghost rest = b@.skip(start as int);
    if kind == 0 {
        match read_varint(b, start, 10) {
            Some((v, m)) => {
                let value: u64 = (v % 0x1_0000_0000_0000_0000) as u64;
                Some((Token::Value(Field { number, value: FieldValue::Varint(value) }), m))
            },
            None => None,
        }
    } else if kind == 1 {
        if b.len() - start < 8 {
            None
        } else {
            Some((Token::Value(Field { number, value: FieldValue::Fixed64 }), 8))
        }
    } else if kind == 2 {
        match read_varint(b, start, 5) {
            Some((len, m)) => {
                if len > 0x7fff_ffff {
                    return None;
                }
                let len: usize = len as usize;
                if b.len() - start - m < len {
                    return None;
                }
                let value = part(b, start + m, start + m + len);
                assert(value@ =~= rest.subrange(m as int, m + len));
                Some((Token::Value(Field { number, value: FieldValue::Delimited(value) }), m + len))
            },
            None => None,
        }
    } else if kind == 3 {
        Some((Token::Start(number), 0))
    } else if kind == 4 {
        Some((Token::End(number), 0))
    } else if kind == 5 {
        if b.len() - start < 4 {
            None
        } else {
            Some((Token::Value(Field { number, value: FieldValue::Fixed32 }), 4))
        }
    } else {
        None
    }
}

/// Reads what stands at an index of a message.
fn read_token(b: &[u8], pos: usize) -> (r: Option<(Token, usize)>)
    requires
        pos <= b@.len(),
    ensures
        match token(b@.skip(pos as int)) {
            Some((t, n)) => r matches Some((rt, rn)) && token_view(rt) == t && rn == n && pos + n
                <= b@.len() && n >= 1,
            None => r is None,
        },
{
    let total: usize = b.len();
    match read_varint(b, pos, 5) {
        Some((tag, n)) => {
            if tag > 0xffff_ffff {
                return None;
            }
            let tag: u32 = tag as u32;
            assert(pos + n <= total);
            assert(b@.skip(pos as int).skip(n as int) =~= b@.skip(pos + n));
            match read_after_tag(b, pos + n, tag / 8, tag % 8) {
                Some((t, m)) => Some((t, n + m)),
                None => None,
            }
        },
        None => None,
    }
}

/// Reads the fields of a message in which groups are nested at most `max` deep. Fields in groups
/// are skipped. Bytes that are no such message give nothing.
pub fn read_fields(b: &[u8], max: usize) -> (r: Option<Vec<Field>>)
    ensures
        match fields(b@, Seq::empty(), max as nat) {
            Some(fs) => r matches Some(v) && field_views(v@) == fs,
            None => r is None,
        },
{
    let mut out: Vec<Field> = Vec::new();
    let mut open: Vec<u32> = Vec::new();
    let mut pos: usize = 0;
    proof {
        assert(b@.skip(0) =~= b@);
        assert(group_numbers(open@) =~= Seq::empty());
        assert(field_views(out@) =~= Seq::empty());
        if let Some(fs) = fields(b@, Seq::empty(), max as nat) {
            assert(Seq::<FieldView>::empty() + fs =~= fs);
        }
    }
    while pos < b.len()
        invariant
            pos <= b@.len(),
            agrees(b@, field_views(out@), b@.skip(pos as int), group_numbers(open@), max as nat),
        decreases b@.len() - pos,
    {
        let ghost here = b@.skip(pos as int);
        let ghost groups = group_numbers(open@);
        let ghost before = field_views(out@);
        match read_token(b, pos) {
            Some((t, n)) => {
                let ghost rest = here.skip(n as int);
                assert(rest =~= b@.skip(pos + n));
                match t {
                    Token::Value(field) => {
                        if open.len() == 0 && field.number == 0 {
                            return None;
                        }
                        let ghost view = field@;
                        proof {
                            lemma_kept(b@, before, view, groups, rest, here, max as nat);
                        }
                        if open.len() == 0 {
                            out.push(field);
                            assert(field_views(out@) =~= before.push(view));
                        }
                    },
                    Token::Start(number) => {
                        if open.len() == 0 && number == 0 {
                            return None;
                        }
                        if open.len() >= max {
                            return None;
                        }
                        open.push(number);
                        assert(group_numbers(open@) =~= groups.push(number as nat));
                    },
                    Token::End(number) => {
                        if open.len() == 0 || open[open.len() - 1] != number {
                            return None;
                        }
                        let _ = open.pop();
                        assert(group_numbers(open@) =~= groups.drop_last());
                    },
                }
                pos = pos + n;
            },
            None => {
                return None;
            },
        }
    }
    assert(b@.skip(pos as int) =~= Seq::empty());
    if open.len() > 0 {
        None
    } else {
        assert(group_numbers(open@) =~= Seq::empty());
        assert(field_views(out@) + Seq::<FieldView>::empty() =~= field_views(out@));
        Some(out)
    }
}

/// After a field was read, what was read so far still agrees with the whole.
proof fn lemma_kept(
    all: Seq<u8>,
    out: Seq<FieldView>,
    field: FieldView,
    open: Seq<nat>,
    rest: Seq<u8>,
    here: Seq<u8>,
    max: nat,
)
    requires
        agrees(all, out, here, open, max),
        fields(here, open, max) == with_field(field, open, fields(rest, open, max)),
    ensures
        open.len() == 0 ==> agrees(all, out.push(field), rest, open, max),
        open.len() > 0 ==> agrees(all, out, rest, open, max),
{
    if let Some(fs) = fields(rest, open, max) {
        assert(out + (seq![field] + fs) =~= out.push(field) + fs);
    }
}

/// Adds the bytes of a number to a list.
pub fn write_varint(out: &mut Vec<u8>, n: u64)
    ensures
        final(out)@ == old(out)@ + varint_bytes(n as nat),
    decreases n,
{
    let ghost before = out@;
    if n < 128 {
        out.push(n as u8);
        assert(out@ =~= before + varint_bytes(n as nat));
    } else {
        out.push((n % 128 + 128) as u8);
        write_varint(out, n / 128);
        assert(out@ =~= before + varint_bytes(n as nat));
    }
}

/// Adds a field with a number as its value to a list.
pub fn write_varint_field(out: &mut Vec<u8>, number: u32, v: u64)
    requires
        number < 0x2000_0000,
    ensures
        final(out)@ == old(out)@ + varint_field(number as nat, v as nat),
{
    let ghost before = out@;
    write_varint(out, number as u64 * 8);
    write_varint(out, v);
    assert(out@ =~= before + varint_field(number as nat, v as nat));
}

/// Adds a field with bytes as its value to a list.
pub fn write_delimited_field(out: &mut Vec<u8>, number: u32, v: &[u8])
    requires
        number < 0x2000_0000,
    ensures
        final(out)@ == old(out)@ + delimited_field(number as nat, v@),
{
    let ghost before = out@;
    write_varint(out, number as u64 * 8 + 2);
    write_varint(out, v.len() as u64);
    let mut tail = copied(v);
    out.append(&mut tail);
    assert(out@ =~= before + delimited_field(number as nat, v@));
}


/// The bytes of a number of variable length: seven bits in each, the lowest first, with the highest
/// bit set in all but the last.
pub proof fn law_varint_layout(n: nat)
    ensures
        n < 128 ==> varint_bytes(n) == seq![n as u8],
        n >= 128 ==> varint_bytes(n)[0] == n % 128 + 128 && varint_bytes(n).skip(1) == varint_bytes(
            n / 128,
        ),
{
    if n >= 128 {
        assert(varint_bytes(n).skip(1) =~= varint_bytes(n / 128));
    }
}

/// The bytes of a field whose number is below sixteen: a tag of one byte, which is eight times the
/// number, and two more for bytes; then the value, with its length in front where it is bytes.
pub proof fn law_field_layout(number: nat, v: nat, b: Seq<u8>)
    requires
        1 <= number < 16,
    ensures
        varint_field(number, v)[0] == number * 8,
        varint_field(number, v).skip(1) == varint_bytes(v),
        delimited_field(number, b)[0] == number * 8 + 2,
        delimited_field(number, b).skip(1) == varint_bytes(b.len()) + b,
{
    assert(varint_field(number, v).skip(1) =~= varint_bytes(v));
    assert(delimited_field(number, b).skip(1) =~= varint_bytes(b.len()) + b);
}


/// Fields are read one by one: a number or bytes with the number of their field, and what follows
/// as if it stood alone. What follows decides whether the whole can be read.
pub proof fn law_fields_are_read(number: nat, v: nat, b: Seq<u8>, rest: Seq<u8>, max: nat)
    requires
        1 <= number < 15,
        v < 0x1_0000_0000_0000_0000,
        b.len() <= MAX_LENGTH,
    ensures
        ({
            let none = Seq::<nat>::empty();
            let left = fields(rest, none, max);
            let first = fields(varint_field(number, v) + rest, none, max);
            let second = fields(delimited_field(number, b) + rest, none, max);
            &&& first is Some <==> left is Some
            &&& second is Some <==> left is Some
            &&& left matches Some(fs) ==> {
                &&& first->Some_0[0].number == number
                &&& first->Some_0[0].value == ValueView::Varint(v)
                &&& first->Some_0.skip(1) == fs
                &&& second->Some_0[0].number == number
                &&& second->Some_0[0].value == ValueView::Delimited(b)
                &&& second->Some_0.skip(1) == fs
            }
        }),
{
    lemma_varint_field(number, v, rest, max);
    lemma_delimited_field(number, b, rest, max);
    let none = Seq::<nat>::empty();
    if let Some(fs) = fields(rest, none, max) {
        let first = fields(varint_field(number, v) + rest, none, max)->Some_0;
        let second = fields(delimited_field(number, b) + rest, none, max)->Some_0;
        assert(first.skip(1) =~= fs);
        assert(second.skip(1) =~= fs);
    }
}

/// Fields of fixed size take eight bytes or four, whatever these are, and what follows is read as
/// if it stood alone; one that is cut off makes the whole unreadable.
pub proof fn law_fixed_fields_are_skipped(number: nat, b: Seq<u8>, rest: Seq<u8>, max: nat)
    requires
        1 <= number < 15,
    ensures
        ({
            let none = Seq::<nat>::empty();
            let left = fields(rest, none, max);
            let long = fields(seq![(number * 8 + 1) as u8] + b + rest, none, max);
            let short = fields(seq![(number * 8 + 5) as u8] + b + rest, none, max);
            &&& b.len() == 8 ==> (long is Some <==> left is Some)
            &&& b.len() == 8 ==> (left matches Some(fs) ==> long->Some_0.skip(1) == fs
                && long->Some_0[0].value == ValueView::Fixed64)
            &&& b.len() == 4 ==> (short is Some <==> left is Some)
            &&& b.len() == 4 ==> (left matches Some(fs) ==> short->Some_0.skip(1) == fs
                && short->Some_0[0].value == ValueView::Fixed32)
            &&& b.len() < 8 && rest.len() == 0 ==> long is None
            &&& b.len() < 4 && rest.len() == 0 ==> short is None
        }),
{
    let none = Seq::<nat>::empty();
    let left = fields(rest, none, max);
    let (t1, t5) = ((number * 8 + 1) as u8, (number * 8 + 5) as u8);
    let x = seq![t1] + b + rest;
    let y = seq![t5] + b + rest;
    assert(x.skip(1) =~= b + rest);
    assert(y.skip(1) =~= b + rest);
    assert(varint(x, 5) == Some((t1 as nat, 1nat)));
    assert(varint(y, 5) == Some((t5 as nat, 1nat)));
    assert((number * 8 + 1) / 8 == number && (number * 8 + 1) % 8 == 1);
    assert((number * 8 + 5) / 8 == number && (number * 8 + 5) % 8 == 5);
    assert(t1 as nat / 8 == number && t1 as nat % 8 == 1);
    assert(t5 as nat / 8 == number && t5 as nat % 8 == 5);
    if b.len() == 8 {
        assert(x.skip(9) =~= rest);
        if let Some(fs) = left {
            let f = FieldView { number, value: ValueView::Fixed64 };
            assert((seq![f] + fs).skip(1) =~= fs);
        }
    }
    if b.len() == 4 {
        assert(y.skip(5) =~= rest);
        if let Some(fs) = left {
            let f = FieldView { number, value: ValueView::Fixed32 };
            assert((seq![f] + fs).skip(1) =~= fs);
        }
    }
}


/// A group is skipped where it is closed by its own number; one that is closed by another, or not
/// at all, or that was never opened, makes the whole unreadable, and so does one that is nested too
/// deep.
pub proof fn law_groups_are_closed(number: nat, other: nat, rest: Seq<u8>, max: nat)
    requires
        1 <= number < 15,
        1 <= other < 15,
        other != number,
        max > 0,
    ensures
        ({
            let none = Seq::<nat>::empty();
            let start = (number * 8 + 3) as u8;
            let end = (number * 8 + 4) as u8;
            let wrong = (other * 8 + 4) as u8;
            &&& fields(seq![start, end] + rest, none, max) == fields(rest, none, max)
            &&& fields(seq![start, wrong] + rest, none, max) is None
            &&& fields(seq![end] + rest, none, max) is None
            &&& fields(seq![start], none, max) is None
            &&& fields(seq![start, end] + rest, none, 0) is None
        }),
{
    let none = Seq::<nat>::empty();
    let start = (number * 8 + 3) as u8;
    let end = (number * 8 + 4) as u8;
    let wrong = (other * 8 + 4) as u8;
    assert(start as nat / 8 == number && start as nat % 8 == 3);
    assert(end as nat / 8 == number && end as nat % 8 == 4);
    assert(wrong as nat / 8 == other && wrong as nat % 8 == 4);
    let open = none.push(number);
    assert(open.drop_last() =~= none);
    let a = seq![start, end] + rest;
    let a1 = seq![end] + rest;
    assert(a.skip(1) =~= a1);
    assert(a1.skip(1) =~= rest);
    assert(token(a) == Some((TokenView::Start(number), 1nat)));
    assert(token(a1) == Some((TokenView::End(number), 1nat)));
    assert(fields(a1, open, max) == fields(rest, none, max));
    let b = seq![start, wrong] + rest;
    let b1 = seq![wrong] + rest;
    assert(b.skip(1) =~= b1);
    assert(token(b) == Some((TokenView::Start(number), 1nat)));
    assert(token(b1) == Some((TokenView::End(other), 1nat)));
    assert(fields(b1, open, max) is None);
    let c = seq![start];
    assert(token(c) == Some((TokenView::Start(number), 1nat)));
    assert(c.skip(1) =~= Seq::<u8>::empty());
    assert(fields(c.skip(1), open, max) is None);
}

} // verus!
