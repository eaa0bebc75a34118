//! Base64, the form in which binary metadata travels in headers.

use vstd::prelude::*;

verus! {

/// The digit with a given value.
pub open spec fn digit_of(v: int) -> u8 {
    if v < 26 {
        (65 + v) as u8
    } else if v < 52 {
        (97 + v - 26) as u8
    } else if v < 62 {
        (48 + v - 52) as u8
    } else if v == 62 {
        43u8
    } else {
        47u8
    }
}

/// The value of a digit.
pub open spec fn value_of(c: u8) -> Option<int> {
    if 65 <= c <= 90 {
        Some(c - 65)
    } else if 97 <= c <= 122 {
        Some(c - 97 + 26)
    } else if 48 <= c <= 57 {
        Some(c - 48 + 52)
    } else if c == 43 {
        Some(62)
    } else if c == 47 {
        Some(63)
    } else {
        None
    }
}

/// The digits of a sequence of bytes, without padding.
pub open spec fn encoded(b: Seq<u8>) -> Seq<u8>
    decreases b.len(),
{
    if b.len() == 0 {
        Seq::empty()
    } else if b.len() == 1 {
        seq![digit_of(b[0] as int / 4), digit_of((b[0] as int % 4) * 16)]
    } else if b.len() == 2 {
        seq![
            digit_of(b[0] as int / 4),
            digit_of((b[0] as int % 4) * 16 + b[1] as int / 16),
            digit_of((b[1] as int % 16) * 4),
        ]
    } else {
        seq![
            digit_of(b[0] as int / 4),
            digit_of((b[0] as int % 4) * 16 + b[1] as int / 16),
            digit_of((b[1] as int % 16) * 4 + b[2] as int / 64),
            digit_of(b[2] as int % 64),
        ] + encoded(b.skip(3))
    }
}

/// The bytes that digits without padding stand for, if they are digits and their number is
/// right. Bits that fill up the last digit are ignored.
pub open spec fn decoded_digits(s: Seq<u8>) -> Option<Seq<u8>>
    decreases s.len(),
{
    if s.len() == 0 {
        Some(Seq::empty())
    } else if s.len() == 1 {
        None
    } else if value_of(s[0]) is None || value_of(s[1]) is None {
        None
    } else {
        let a = value_of(s[0])->Some_0;
        let b = value_of(s[1])->Some_0;
        let first = (a * 4 + b / 16) as u8;
        if s.len() == 2 {
            Some(seq![first])
        } else if value_of(s[2]) is None {
            None
        } else {
            let c = value_of(s[2])->Some_0;
            let second = ((b % 16) * 16 + c / 4) as u8;
            if s.len() == 3 {
                Some(seq![first, second])
            } else if value_of(s[3]) is None {
                None
            } else {
                let d = value_of(s[3])->Some_0;
                let third = ((c % 4) * 64 + d) as u8;
                match decoded_digits(s.skip(4)) {
                    Some(rest) => Some(seq![first, second, third] + rest),
                    None => None,
                }
            }
        }
    }
}

/// Digits without the padding behind them, of which there are at most two signs.
pub open spec fn without_padding(s: Seq<u8>) -> Seq<u8> {
    if s.len() > 0 && s.last() == 61 {
        let t = s.drop_last();
        if t.len() > 0 && t.last() == 61 {
            t.drop_last()
        } else {
            t
        }
    } else {
        s
    }
}

/// The bytes that digits stand for, padded or not.
pub open spec fn decoded(s: Seq<u8>) -> Option<Seq<u8>> {
    decoded_digits(without_padding(s))
}

/// A value below 64 is read back from its digit, which is visible ASCII.
proof fn lemma_digit(v: int)
    requires
        0 <= v < 64,
    ensures
        value_of(digit_of(v)) == Some(v),
        32 <= digit_of(v) < 127,
        digit_of(v) != 61,
{
}

/// Decoding undoes encoding, whatever the bytes, and the digits may stand in a header.
pub proof fn law_decoded_of_encoded(b: Seq<u8>)
    ensures
        decoded(encoded(b)) == Some(b),
        forall|i: int| 0 <= i < encoded(b).len() ==> 32 <= #[trigger] encoded(b)[i] < 127,
{
    lemma_round_trip(b);
    let s = encoded(b);
    if s.len() > 0 {
        assert(s.last() == s[s.len() - 1]);
    }
}

proof fn lemma_round_trip(b: Seq<u8>)
    ensures
        decoded_digits(encoded(b)) == Some(b),
        forall|i: int|
            0 <= i < encoded(b).len() ==> 32 <= #[trigger] encoded(b)[i] < 127 && encoded(b)[i]
                != 61,
    decreases b.len(),
{
    if b.len() == 0 {
        assert(b =~= Seq::empty());
    } else {
        let x = b[0] as int;
        lemma_digit(x / 4);
        assert((x / 4) * 4 + x % 4 == x);
        if b.len() == 1 {
            lemma_digit((x % 4) * 16);
            assert(b =~= seq![b[0]]);
        } else {
            let y = b[1] as int;
            let v1 = (x % 4) * 16 + y / 16;
            lemma_digit(v1);
            assert(v1 / 16 == x % 4);
            assert(v1 % 16 == y / 16);
            assert((y / 16) * 16 + y % 16 == y);
            if b.len() == 2 {
                lemma_digit((y % 16) * 4);
                assert(b =~= seq![b[0], b[1]]);
            } else {
                let z = b[2] as int;
                let v2 = (y % 16) * 4 + z / 64;
                lemma_digit(v2);
                lemma_digit(z % 64);
                assert(v2 / 4 == y % 16);
                assert(v2 % 4 == z / 64);
                assert((z / 64) * 64 + z % 64 == z);
                let rest = b.skip(3);
                lemma_round_trip(rest);
                let head = seq![
                    digit_of(x / 4),
                    digit_of(v1),
                    digit_of(v2),
                    digit_of(z % 64),
                ];
                assert(encoded(b) == head + encoded(rest));
                assert(encoded(b).skip(4) =~= encoded(rest));
                assert(b =~= seq![b[0], b[1], b[2]] + rest);
                assert forall|i: int| 0 <= i < encoded(b).len() implies 32 <= #[trigger] encoded(
                    b,
                )[i] < 127 && encoded(b)[i] != 61 by {
                    if i >= 4 {
                        assert(encoded(b)[i] == encoded(rest)[i - 4]);
                    }
                }
            }
        }
    }
}

/// The digit with a given value.
fn digit_byte(v: u8) -> (r: u8)
    requires
        v < 64,
    ensures
        r == digit_of(v as int),
{
    if v < 26 {
        65 + v
    } else if v < 52 {
        97 + (v - 26)
    } else if v < 62 {
        48 + (v - 52)
    } else if v == 62 {
        43
    } else {
        47
    }
}

/// The value of a digit.
fn digit_value(c: u8) -> (r: Option<u8>)
    ensures
        r is Some <==> value_of(c) is Some,
        r matches Some(v) ==> v == value_of(c)->Some_0 && v < 64,
{
    if 65 <= c && c <= 90 {
        Some(c - 65)
    } else if 97 <= c && c <= 122 {
        Some(c - 97 + 26)
    } else if 48 <= c && c <= 57 {
        Some(c - 48 + 52)
    } else if c == 43 {
        Some(62)
    } else if c == 47 {
        Some(63)
    } else {
        None
    }
}

/// The digits of a sequence of bytes, without padding.
pub fn encode(b: &[u8]) -> (r: Vec<u8>)
    ensures
        r@ == encoded(b@),
{
    let mut out: Vec<u8> = Vec::new();
    let mut i: usize = 0;
    proof {
        assert(b@.skip(0) =~= b@);
        assert(out@ + encoded(b@) =~= encoded(b@));
    }
    while b.len() - i >= 3
        invariant
            i <= b@.len(),
            out@ + encoded(b@.skip(i as int)) == encoded(b@),
        decreases b@.len() - i,
    {
        let ghost before = out@;
        let ghost rest = b@.skip(i as int);
        let x: u8 = b[i];
        let y: u8 = b[i + 1];
        let z: u8 = b[i + 2];
        assert(rest[0] == x && rest[1] == y && rest[2] == z);
        out.push(digit_byte(x / 4));
        out.push(digit_byte((x % 4) * 16 + y / 16));
        out.push(digit_byte((y % 16) * 4 + z / 64));
        out.push(digit_byte(z % 64));
        i += 3;
        proof {
            assert(rest.skip(3) =~= b@.skip(i as int));
            assert(out@ + encoded(b@.skip(i as int)) =~= before + encoded(rest));
        }
    }
    let ghost rest = b@.skip(i as int);
    let ghost before = out@;
    if b.len() - i == 1 {
        let x: u8 = b[i];
        assert(rest[0] == x);
        out.push(digit_byte(x / 4));
        out.push(digit_byte((x % 4) * 16));
        assert(out@ =~= before + encoded(rest));
    } else if b.len() - i == 2 {
        let x: u8 = b[i];
        let y: u8 = b[i + 1];
        assert(rest[0] == x && rest[1] == y);
        out.push(digit_byte(x / 4));
        out.push(digit_byte((x % 4) * 16 + y / 16));
        out.push(digit_byte((y % 16) * 4));
        assert(out@ =~= before + encoded(rest));
    } else {
        assert(out@ =~= before + encoded(rest));
    }
    out
}

/// The bytes that digits stand for, padded or not.
pub fn decode(s: &[u8]) -> (r: Option<Vec<u8>>)
    ensures
        r is Some <==> decoded(s@) is Some,
        r matches Some(v) ==> v@ == decoded(s@)->Some_0,
{
    let mut n: usize = s.len();
    if n > 0 && s[n - 1] == 61 {
        n = n - 1;
        assert(s@.drop_last() =~= s@.take(n as int));
        if n > 0 && s[n - 1] == 61 {
            n = n - 1;
            assert(s@.drop_last().drop_last() =~= s@.take(n as int));
        }
    } else {
        assert(s@.take(n as int) =~= s@);
    }
    let ghost t = s@.take(n as int);
    assert(t == without_padding(s@));
    let mut out: Vec<u8> = Vec::new();
    let mut i: usize = 0;
    proof {
        assert(t.skip(0) =~= t);
        if let Some(v) = decoded_digits(t) {
            assert(out@ + v =~= v);
        }
    }
    while n - i >= 2
        invariant
            i <= n <= s@.len(),
            t == s@.take(n as int),
            t == without_padding(s@),
            decoded_digits(t) is Some <==> decoded_digits(t.skip(i as int)) is Some,
            decoded_digits(t) is Some ==> decoded_digits(t)->Some_0 == out@ + decoded_digits(
                t.skip(i as int),
            )->Some_0,
        decreases n - i,
    {
        let ghost rest = t.skip(i as int);
        let ghost before = out@;
        assert(rest[0] == s@[i as int] && rest[1] == s@[i + 1]);
        let a: u8 = match digit_value(s[i]) {
            Some(v) => v,
            None => return None,
        };
        let b: u8 = match digit_value(s[i + 1]) {
            Some(v) => v,
            None => return None,
        };
        out.push(a * 4 + b / 16);
        if n - i == 2 {
            i = n;
            assert(t.skip(i as int) =~= Seq::empty());
            assert(out@ + Seq::<u8>::empty() =~= before + decoded_digits(rest)->Some_0);
        } else {
            assert(rest[2] == s@[i + 2]);
            let c: u8 = match digit_value(s[i + 2]) {
                Some(v) => v,
                None => return None,
            };
            out.push((b % 16) * 16 + c / 4);
            if n - i == 3 {
                i = n;
                assert(t.skip(i as int) =~= Seq::empty());
                assert(out@ + Seq::<u8>::empty() =~= before + decoded_digits(rest)->Some_0);
            } else {
                assert(rest[3] == s@[i + 3]);
                let d: u8 = match digit_value(s[i + 3]) {
                    Some(v) => v,
                    None => return None,
                };
                out.push((c % 4) * 64 + d);
                i += 4;
                proof {
                    assert(rest.skip(4) =~= t.skip(i as int));
                    if let Some(v) = decoded_digits(t.skip(i as int)) {
                        assert(out@ + v =~= before + decoded_digits(rest)->Some_0);
                    }
                }
            }
        }
    }
    if i < n {
        return None;
    }
    assert(t.skip(i as int) =~= Seq::empty());
    assert(out@ + Seq::<u8>::empty() =~= out@);
    Some(out)
}


/// The digits are those of the standard alphabet: letters, numbers, `+` and `/`, in this order; and
/// every byte that is none of them is no digit.
pub proof fn law_alphabet(v: int, c: u8)
    ensures
        0 <= v < 26 ==> digit_of(v) == 'A' as int + v,
        26 <= v < 52 ==> digit_of(v) == 'a' as int + (v - 26),
        52 <= v < 62 ==> digit_of(v) == '0' as int + (v - 52),
        digit_of(62) == '+' as int,
        digit_of(63) == '/' as int,
        value_of(c) matches Some(n) ==> 0 <= n < 64 && digit_of(n) == c,
        value_of(c) is None ==> forall|n: int| 0 <= n < 64 ==> digit_of(n) != c,
{
}

/// Three bytes are four digits of six bits each, of which the first counts most.
pub proof fn law_three_bytes_are_four_digits(b: Seq<u8>)
    requires
        b.len() >= 3,
    ensures
        ({
            let s = encoded(b);
            let (d0, d1) = (value_of(s[0])->Some_0, value_of(s[1])->Some_0);
            let (d2, d3) = (value_of(s[2])->Some_0, value_of(s[3])->Some_0);
            &&& s.len() >= 4
            &&& ((d0 * 64 + d1) * 64 + d2) * 64 + d3 == (b[0] * 256 + b[1]) * 256 + b[2]
            &&& s.skip(4) == encoded(b.skip(3))
        }),
{
    let (x, y, z) = (b[0] as int, b[1] as int, b[2] as int);
    lemma_digit(x / 4);
    lemma_digit((x % 4) * 16 + y / 16);
    lemma_digit((y % 16) * 4 + z / 64);
    lemma_digit(z % 64);
    assert(encoded(b).skip(4) =~= encoded(b.skip(3)));
}

/// Padding is not needed, and up to two signs of it make no difference; none is ever written.
pub proof fn law_padding_makes_no_difference(b: Seq<u8>)
    ensures
        decoded(encoded(b)) == Some(b),
        decoded(encoded(b).push(61)) == Some(b),
        decoded(encoded(b).push(61).push(61)) == Some(b),
        forall|i: int| 0 <= i < encoded(b).len() ==> #[trigger] encoded(b)[i] != 61,
{
    lemma_round_trip(b);
    let s = encoded(b);
    assert(s.push(61).drop_last() =~= s);
    assert(s.push(61).push(61).drop_last() =~= s.push(61));
    if s.len() > 0 {
        assert(s.last() == s[s.len() - 1]);
    }
}

/// A byte that is no digit makes the whole unreadable, wherever it stands, and so does one digit
/// too many or too few.
pub proof fn law_only_digits_are_read(s: Seq<u8>, i: int)
    requires
        0 <= i < s.len(),
        value_of(s[i]) is None || s.len() % 4 == 1,
    ensures
        decoded_digits(s) is None,
    decreases s.len(),
{
    if s.len() >= 5 {
        let rest = s.skip(4);
        if i >= 4 {
            assert(rest[i - 4] == s[i]);
            law_only_digits_are_read(rest, i - 4);
        } else if s.len() % 4 == 1 {
            law_only_digits_are_read(rest, 0);
        }
    }
}

} // verus!
