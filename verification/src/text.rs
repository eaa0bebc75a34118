//! Texts: comparing, joining, and reading and writing decimal numbers.

use vstd::prelude::*;
use vstd::utf8::{encode_utf8, valid_utf8};

verus! {

/// `String::from_utf8` turns bytes into a text. It succeeds on exactly the valid UTF-8
/// sequences, and the text's UTF-8 bytes are then the bytes that were given.
#[verifier::external_body]
pub(crate) fn text_from_utf8(bytes: Vec<u8>) -> (r: Option<String>)
    ensures
        r is Some <==> valid_utf8(bytes@),
        r matches Some(s) ==> encode_utf8(s@) == bytes@,
{
    String::from_utf8(bytes).ok()
}

/// A text in quotes, with escapes in the place of characters that cannot stand there, as the
/// `Debug` form of `str` has it.
pub uninterp spec fn quoted(text: Seq<char>) -> Seq<char>;

/// `format!` with `{:?}` gives the `Debug` form of a text.
#[verifier::external_body]
pub(crate) fn quoted_text(text: &str) -> (r: String)
    ensures
        r@ == quoted(text@),
{
    format!("{:?}", text)
}

/// Texts with the same UTF-8 bytes are the same.
pub proof fn lemma_same_bytes_same_text(a: Seq<char>, b: Seq<char>)
    requires
        encode_utf8(a) == encode_utf8(b),
    ensures
        a == b,
{
    vstd::utf8::encode_utf8_decode_utf8(a);
    vstd::utf8::encode_utf8_decode_utf8(b);
}

/// Whether two sequences of bytes are equal.
pub(crate) fn same_bytes(a: &[u8], b: &[u8]) -> (r: bool)
    ensures
        r == (a@ == b@),
{
    if a.len() != b.len() {
        return false;
    }
    let mut i: usize = 0;
    while i < a.len()
        invariant
            i <= a@.len() == b@.len(),
            forall|j: int| 0 <= j < i ==> a@[j] == b@[j],
        decreases a@.len() - i,
    {
        if a[i] != b[i] {
            return false;
        }
        i += 1;
    }
    assert(a@ =~= b@);
    true
}

/// Whether two texts are equal.
pub(crate) fn same_text(a: &str, b: &str) -> (r: bool)
    ensures
        r == (a@ == b@),
{
    let r = same_bytes(a.as_bytes(), b.as_bytes());
    proof {
        if r {
            lemma_same_bytes_same_text(a@, b@);
        }
    }
    r
}

/// Two texts, one behind the other.
pub(crate) fn joined_text(a: &str, b: &str) -> (r: String)
    ensures
        r@ == a@ + b@,
{
    let mut r = String::from_str(a);
    r.append(b);
    r
}

/// A copy of a list of bytes.
pub(crate) fn copied(v: &[u8]) -> (r: Vec<u8>)
    ensures
        r@ == v@,
{
    let mut r: Vec<u8> = Vec::new();
    let mut i: usize = 0;
    while i < v.len()
        invariant
            i <= v@.len(),
            r@ == v@.take(i as int),
        decreases v@.len() - i,
    {
        r.push(v[i]);
        i += 1;
        assert(r@ =~= v@.take(i as int));
    }
    assert(v@.take(i as int) =~= v@);
    r
}

/// Whether `bytes` starts with `prefix`.
pub(crate) fn starts_with(bytes: &[u8], prefix: &[u8]) -> (r: bool)
    ensures
        r == prefix@.is_prefix_of(bytes@),
{
    if bytes.len() < prefix.len() {
        return false;
    }
    let (head, _) = bytes.split_at(prefix.len());
    let r = same_bytes(head, prefix);
    assert(head@ =~= bytes@.subrange(0, prefix@.len() as int));
    r
}

/// Whether `bytes` ends with `suffix`.
pub(crate) fn ends_with(bytes: &[u8], suffix: &[u8]) -> (r: bool)
    ensures
        r == suffix@.is_suffix_of(bytes@),
{
    if bytes.len() < suffix.len() {
        return false;
    }
    let (_, tail) = bytes.split_at(bytes.len() - suffix.len());
    let r = same_bytes(tail, suffix);
    assert(tail@ =~= bytes@.subrange(
        (bytes@.len() - suffix@.len()) as int,
        bytes@.len() as int,
    ));
    r
}

/// The decimal digit of a number below ten.
pub open spec fn digit(d: nat) -> char {
    seq!['0', '1', '2', '3', '4', '5', '6', '7', '8', '9'][d as int]
}

/// The decimal digits of a number.
pub open spec fn decimal(n: nat) -> Seq<char>
    decreases n,
{
    if n < 10 {
        seq![digit(n)]
    } else {
        decimal(n / 10).push(digit(n % 10))
    }
}

/// The text of a number below ten.
fn digit_text(d: u32) -> (r: &'static str)
    requires
        d < 10,
    ensures
        r@ == seq![digit(d as nat)],
{
    proof {
        reveal_strlit("0");
        reveal_strlit("1");
        reveal_strlit("2");
        reveal_strlit("3");
        reveal_strlit("4");
        reveal_strlit("5");
        reveal_strlit("6");
        reveal_strlit("7");
        reveal_strlit("8");
        reveal_strlit("9");
    }
    let r = match d {
        0 => "0",
        1 => "1",
        2 => "2",
        3 => "3",
        4 => "4",
        5 => "5",
        6 => "6",
        7 => "7",
        8 => "8",
        _ => "9",
    };
    assert(r@ =~= seq![digit(d as nat)]);
    r
}

/// The decimal text of a number.
pub(crate) fn decimal_text(n: u32) -> (r: String)
    ensures
        r@ == decimal(n as nat),
    decreases n,
{
    if n < 10 {
        String::from_str(digit_text(n))
    } else {
        let mut r = decimal_text(n / 10);
        r.append(digit_text(n % 10));
        assert(r@ =~= decimal(n as nat));
        r
    }
}

/// Whether every byte is an ASCII digit.
pub open spec fn all_digits(b: Seq<u8>) -> bool {
    forall|i: int| 0 <= i < b.len() ==> 48 <= #[trigger] b[i] <= 57
}

/// The number that ASCII digits stand for.
pub open spec fn digits_value(b: Seq<u8>) -> nat
    decreases b.len(),
{
    if b.len() == 0 {
        0
    } else {
        digits_value(b.drop_last()) * 10 + (b.last() - 48) as nat
    }
}

/// The number that a text stands for, where it is one: at least one digit, with a `+` in front
/// or not.
pub open spec fn unsigned_value(b: Seq<u8>) -> Option<nat> {
    let d = if b.len() > 0 && b[0] == 43 {
        b.skip(1)
    } else {
        b
    };
    if d.len() > 0 && all_digits(d) {
        Some(digits_value(d))
    } else {
        None
    }
}

/// The number that a text stands for, where it is one: at least one digit, with a sign in front
/// or not.
pub open spec fn signed_value(b: Seq<u8>) -> Option<int> {
    if b.len() > 0 && b[0] == 45 {
        let d = b.skip(1);
        if d.len() > 0 && all_digits(d) {
            Some(-(digits_value(d) as int))
        } else {
            None
        }
    } else {
        match unsigned_value(b) {
            Some(n) => Some(n as int),
            None => None,
        }
    }
}

/// More digits in front of a number do not make it smaller.
proof fn lemma_digits_value_grows(b: Seq<u8>, i: int)
    requires
        0 <= i <= b.len(),
        all_digits(b),
    ensures
        digits_value(b.take(i)) <= digits_value(b),
    decreases b.len(),
{
    if i == b.len() {
        assert(b.take(i) =~= b);
    } else {
        let init = b.drop_last();
        assert(init.take(i) =~= b.take(i));
        assert(all_digits(init)) by {
            assert forall|j: int| 0 <= j < init.len() implies 48 <= #[trigger] init[j] <= 57 by {
                assert(init[j] == b[j]);
            }
        }
        lemma_digits_value_grows(init, i);
    }
}

/// The number that ASCII digits stand for, if all bytes are digits, there is at least one, and
/// the number is at most `max`.
fn parse_digits(b: &[u8], max: u64) -> (r: Option<u64>)
    ensures
        r is Some <==> b@.len() > 0 && all_digits(b@) && digits_value(b@) <= max,
        r matches Some(n) ==> n == digits_value(b@),
{
    if b.len() == 0 {
        return None;
    }
    let mut n: u64 = 0;
    let mut i: usize = 0;
    while i < b.len()
        invariant
            i <= b@.len(),
            all_digits(b@.take(i as int)),
            n == digits_value(b@.take(i as int)),
            n <= max,
        decreases b@.len() - i,
    {
        let c: u8 = b[i];
        if c < 48 || c > 57 {
            assert(!all_digits(b@));
            return None;
        }
        let d: u64 = (c - 48) as u64;
        proof {
            assert(b@.take(i + 1).drop_last() =~= b@.take(i as int));
            assert(all_digits(b@.take(i + 1))) by {
                assert forall|j: int| 0 <= j < i + 1 implies 48 <= #[trigger] b@.take(i + 1)[j]
                    <= 57 by {
                    if j < i {
                        assert(b@.take(i + 1)[j] == b@.take(i as int)[j]);
                    }
                }
            }
        }
        if n > max / 10 || d > max || n * 10 > max - d {
            proof {
                if all_digits(b@) {
                    lemma_digits_value_grows(b@, i + 1);
                }
            }
            return None;
        }
        n = n * 10 + d;
        i += 1;
    }
    assert(b@.take(i as int) =~= b@);
    Some(n)
}

/// The unsigned number that a text stands for, if it fits.
pub(crate) fn parse_u64(b: &[u8]) -> (r: Option<u64>)
    ensures
        r is Some <==> (unsigned_value(b@) is Some && unsigned_value(b@)->Some_0 <= u64::MAX),
        r matches Some(n) ==> n == unsigned_value(b@)->Some_0,
{
    if b.len() > 0 && b[0] == 43 {
        let (_, d) = b.split_at(1);
        assert(d@ =~= b@.skip(1));
        parse_digits(d, u64::MAX)
    } else {
        parse_digits(b, u64::MAX)
    }
}

/// The signed number that a text stands for, if it fits.
pub(crate) fn parse_i32(b: &[u8]) -> (r: Option<i32>)
    ensures
        r is Some <==> (signed_value(b@) is Some && i32::MIN <= signed_value(b@)->Some_0
            <= i32::MAX),
        r matches Some(n) ==> n == signed_value(b@)->Some_0,
{
    if b.len() > 0 && b[0] == 45 {
        let (_, d) = b.split_at(1);
        assert(d@ =~= b@.skip(1));
        match parse_digits(d, 2147483648) {
            Some(n) => Some((-(n as i64)) as i32),
            None => None,
        }
    } else if b.len() > 0 && b[0] == 43 {
        let (_, d) = b.split_at(1);
        assert(d@ =~= b@.skip(1));
        match parse_digits(d, 2147483647) {
            Some(n) => Some(n as i32),
            None => None,
        }
    } else {
        match parse_digits(b, 2147483647) {
            Some(n) => Some(n as i32),
            None => None,
        }
    }
}

/// The decimal text of a number consists of digits, does not begin with a needless zero, and is
/// read as that number, with a `+` in front or not.
pub proof fn law_decimal_reads_back(n: nat)
    ensures
        unsigned_value(encode_utf8(decimal(n))) == Some(n),
        unsigned_value(seq![43u8] + encode_utf8(decimal(n))) == Some(n),
        signed_value(encode_utf8(decimal(n))) == Some(n as int),
        signed_value(seq![45u8] + encode_utf8(decimal(n))) == Some(-(n as int)),
        all_digits(encode_utf8(decimal(n))),
        encode_utf8(decimal(n)).len() > 0,
        encode_utf8(decimal(n))[0] == 48 ==> n == 0,
{
    lemma_decimal(n);
    let b = encode_utf8(decimal(n));
    assert((seq![43u8] + b).skip(1) =~= b);
    assert((seq![45u8] + b).skip(1) =~= b);
}

/// The decimal text of a number, byte by byte.
proof fn lemma_decimal(n: nat)
    ensures
        vstd::utf8::is_ascii_chars(decimal(n)),
        encode_utf8(decimal(n)).len() == decimal(n).len(),
        decimal(n).len() > 0,
        all_digits(encode_utf8(decimal(n))),
        digits_value(encode_utf8(decimal(n))) == n,
        encode_utf8(decimal(n))[0] == 48 ==> n == 0,
    decreases n,
{
    let s = decimal(n);
    if n >= 10 {
        lemma_decimal(n / 10);
        let init = decimal(n / 10);
        assert(vstd::utf8::is_ascii_chars(s));
        vstd::utf8::is_ascii_chars_encode_utf8(s);
        vstd::utf8::is_ascii_chars_encode_utf8(init);
        let b = encode_utf8(s);
        assert(b.drop_last() =~= encode_utf8(init));
        assert(b.last() == 48 + n % 10);
        assert forall|i: int| 0 <= i < b.len() implies 48 <= #[trigger] b[i] <= 57 by {
            if i < b.len() - 1 {
                assert(b[i] == encode_utf8(init)[i]);
            }
        }
        assert(b[0] == encode_utf8(init)[0]);
    } else {
        assert(vstd::utf8::is_ascii_chars(s));
        vstd::utf8::is_ascii_chars_encode_utf8(s);
        let b = encode_utf8(s);
        assert(b =~= seq![(48 + n) as u8]);
        assert(b.drop_last() =~= Seq::empty());
        assert(digits_value(b.drop_last()) == 0);
    }
}

/// Only digits are a number, and each of them counts ten times as much as the one behind it.
pub proof fn law_digits_are_positional(b: Seq<u8>, i: int)
    requires
        all_digits(b),
        0 <= i < b.len(),
    ensures
        digits_value(b) == digits_value(b.take(i)) * vstd::arithmetic::power::pow(
            10,
            (b.len() - i) as nat,
        ) + digits_value(b.skip(i)),
    decreases b.len(),
{
    let init = b.drop_last();
    vstd::arithmetic::power::lemma_pow1(10);
    if i == b.len() - 1 {
        assert(b.take(i) =~= init);
        assert(b.skip(i).drop_last() =~= Seq::empty());
        assert(digits_value(b.skip(i).drop_last()) == 0);
        assert(b.skip(i).last() == b.last());
        assert(digits_value(b.skip(i)) == (b.last() - 48) as nat);
    } else {
        assert(all_digits(init)) by {
            assert forall|j: int| 0 <= j < init.len() implies 48 <= #[trigger] init[j] <= 57 by {
                assert(init[j] == b[j]);
            }
        }
        law_digits_are_positional(init, i);
        assert(init.take(i) =~= b.take(i));
        assert(init.skip(i) =~= b.skip(i).drop_last());
        let k = (init.len() - i) as nat;
        let p = vstd::arithmetic::power::pow(10, k);
        vstd::arithmetic::power::lemma_pow_adds(10, k, 1);
        let h = digits_value(b.take(i)) as int;
        assert((h * p) * 10 == h * (p * 10)) by (nonlinear_arith);
    }
}

/// The bytes of two texts, one behind the other, are those of both.
pub proof fn lemma_encode_joined(a: Seq<char>, b: Seq<char>)
    ensures
        encode_utf8(a + b) == encode_utf8(a) + encode_utf8(b),
    decreases a.len(),
{
    if a.len() == 0 {
        assert(a + b =~= b);
        assert(encode_utf8(a) + encode_utf8(b) =~= encode_utf8(b));
    } else {
        let rest = a.drop_first();
        lemma_encode_joined(rest, b);
        assert((a + b).drop_first() =~= rest + b);
        assert(encode_utf8(a + b) =~= encode_utf8(a) + encode_utf8(b));
    }
}

} // verus!
