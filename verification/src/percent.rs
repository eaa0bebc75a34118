//! Percent-encoding, the form in which the message of a status travels.

use percent_encoding::{percent_encode, NON_ALPHANUMERIC};
use vstd::prelude::*;
use vstd::utf8::encode_utf8;

verus! {

/// Whether a byte is an ASCII letter or digit.
pub open spec fn is_alphanumeric(b: u8) -> bool {
    ||| 48 <= b <= 57
    ||| 65 <= b <= 90
    ||| 97 <= b <= 122
}

/// The hexadecimal digit of a number below sixteen, in upper case.
pub open spec fn hex_digit(n: int) -> u8 {
    if n < 10 {
        (48 + n) as u8
    } else {
        (55 + n) as u8
    }
}

/// A byte as it is encoded: a letter or digit stands for itself, any other byte is written as `%`
/// and two hexadecimal digits.
pub open spec fn escaped_byte(b: u8) -> Seq<u8> {
    if is_alphanumeric(b) {
        seq![b]
    } else {
        seq![37u8, hex_digit(b as int / 16), hex_digit(b as int % 16)]
    }
}

/// Bytes as they are encoded.
pub open spec fn escaped(b: Seq<u8>) -> Seq<u8>
    decreases b.len(),
{
    if b.len() == 0 {
        Seq::empty()
    } else {
        escaped_byte(b[0]) + escaped(b.skip(1))
    }
}

/// `percent_encode` with `NON_ALPHANUMERIC`, made into a text, writes each byte that is no ASCII
/// letter or digit as `%` and two hexadecimal digits in upper case, and leaves the others.
#[verifier::external_body]
pub(crate) fn percent_encoded(bytes: &[u8]) -> (r: String)
    ensures
        encode_utf8(r@) == escaped(bytes@),
{
    percent_encode(bytes, NON_ALPHANUMERIC).to_string()
}

/// Whatever the bytes, their encoding is visible ASCII, so that it may stand in a header.
pub proof fn law_escaped_is_visible(b: Seq<u8>)
    ensures
        forall|i: int| 0 <= i < escaped(b).len() ==> 32 < #[trigger] escaped(b)[i] < 127,
    decreases b.len(),
{
    if b.len() > 0 {
        let rest = b.skip(1);
        law_escaped_is_visible(rest);
        let head = escaped_byte(b[0]);
        assert forall|i: int| 0 <= i < escaped(b).len() implies 32 < #[trigger] escaped(b)[i]
            < 127 by {
            if i >= head.len() {
                assert(escaped(b)[i] == escaped(rest)[i - head.len()]);
            } else {
                assert(escaped(b)[i] == head[i]);
            }
        }
    }
}

/// The byte that two hexadecimal digits stand for.
pub open spec fn unescaped_byte(hi: u8, lo: u8) -> u8 {
    let h = if hi < 58 {
        hi - 48
    } else {
        hi - 55
    };
    let l = if lo < 58 {
        lo - 48
    } else {
        lo - 55
    };
    (h * 16 + l) as u8
}

/// The bytes that an encoding stands for.
pub open spec fn unescaped(s: Seq<u8>) -> Seq<u8>
    decreases s.len(),
{
    if s.len() == 0 {
        Seq::empty()
    } else if s[0] == 37 && s.len() >= 3 {
        seq![unescaped_byte(s[1], s[2])] + unescaped(s.skip(3))
    } else {
        seq![s[0]] + unescaped(s.skip(1))
    }
}

/// No byte is lost: what was encoded can be read back.
pub proof fn law_unescaped_of_escaped(b: Seq<u8>)
    ensures
        unescaped(escaped(b)) == b,
    decreases b.len(),
{
    if b.len() == 0 {
        assert(b =~= Seq::empty());
    } else {
        let rest = b.skip(1);
        law_unescaped_of_escaped(rest);
        let head = escaped_byte(b[0]);
        let all = escaped(b);
        assert(all.skip(head.len() as int) =~= escaped(rest));
        assert(all[0] == head[0]);
        if !is_alphanumeric(b[0]) {
            let n = b[0] as int;
            assert(all[1] == head[1] && all[2] == head[2]);
            assert((n / 16) * 16 + n % 16 == n);
        }
        assert(seq![b[0]] + rest =~= b);
    }
}

} // verus!
