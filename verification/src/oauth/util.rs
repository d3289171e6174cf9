//! Strict percent-encoding over the unreserved set {letters, digits, `-`,
//! `.`, `_`, `~`}, its inverse, and decimal formatting of integers.  All
//! string material is modelled as byte sequences; character strings appear
//! only at the crate's edges.

use vstd::prelude::*;
use vstd::string::*;
use vstd::utf8::encode_utf8;
use vstd::utf8::is_ascii_chars;

use crate::oauth::shims::lossy_string;
use crate::oauth::shims::utf8_lossy_of;

verus! {

/// An ASCII letter or digit.
pub open spec fn is_alnum(b: u8) -> bool {
    (0x41 <= b <= 0x5a) || (0x61 <= b <= 0x7a) || (0x30 <= b <= 0x39)
}

/// A byte the strict percent-encoding leaves as it is: letters, digits,
/// `-`, `.`, `_` and `~`.  Every other byte, `*` included, is escaped.
pub open spec fn is_unreserved(b: u8) -> bool {
    is_alnum(b) || b == 0x2d || b == 0x2e || b == 0x5f || b == 0x7e
}

/// The ASCII code of the uppercase hexadecimal digit for `n < 16`.
pub open spec fn hex_digit(n: u8) -> u8
    recommends
        n < 16,
{
    if n < 10 {
        (0x30 + n) as u8
    } else {
        (0x37 + n) as u8
    }
}

/// Percent-encoding of one byte: itself if unreserved, else `%` and two
/// uppercase hexadecimal digits.
pub open spec fn enc_byte(b: u8) -> Seq<u8> {
    if is_unreserved(b) {
        seq![b]
    } else {
        seq![0x25u8, hex_digit((b / 16) as u8), hex_digit((b % 16) as u8)]
    }
}

/// Strict percent-encoding of a byte string.
pub open spec fn enc(s: Seq<u8>) -> Seq<u8>
    decreases s.len(),
{
    if s.len() == 0 {
        Seq::empty()
    } else {
        enc_byte(s[0]) + enc(s.drop_first())
    }
}

/// A hexadecimal digit, either case.
pub open spec fn is_hex(b: u8) -> bool {
    (0x30 <= b <= 0x39) || (0x41 <= b <= 0x46) || (0x61 <= b <= 0x66)
}

/// The value of a hexadecimal digit.
pub open spec fn hex_val(b: u8) -> u8
    recommends
        is_hex(b),
{
    if 0x30 <= b && b <= 0x39 {
        (b - 0x30) as u8
    } else if 0x41 <= b && b <= 0x46 {
        (b - 0x37) as u8
    } else {
        (b - 0x57) as u8
    }
}

/// Percent-decoding of a byte string: `%` followed by two hexadecimal
/// digits becomes one byte; anything else passes through unchanged.
pub open spec fn pct_decoded(s: Seq<u8>) -> Seq<u8>
    decreases s.len(),
{
    if s.len() == 0 {
        Seq::empty()
    } else if s[0] == 0x25 && s.len() >= 3 && is_hex(s[1]) && is_hex(s[2]) {
        seq![(16 * hex_val(s[1]) + hex_val(s[2])) as u8] + pct_decoded(s.skip(3))
    } else {
        seq![s[0]] + pct_decoded(s.skip(1))
    }
}

/// The characters of an ASCII byte string.
pub open spec fn ascii_chars(s: Seq<u8>) -> Seq<char> {
    s.map_values(|b: u8| b as char)
}

/// Encoding distributes over concatenation.
pub proof fn lemma_enc_append(a: Seq<u8>, b: Seq<u8>)
    ensures
        enc(a + b) == enc(a) + enc(b),
    decreases a.len(),
{
    if a.len() == 0 {
        assert(a + b =~= b);
        assert(enc(a) + enc(b) =~= enc(b));
    } else {
        assert((a + b).drop_first() =~= a.drop_first() + b);
        assert((a + b)[0] == a[0]);
        lemma_enc_append(a.drop_first(), b);
        assert(enc(a + b) =~= enc(a) + enc(b));
    }
}

/// Everything the encoder emits is ASCII.
pub proof fn lemma_enc_ascii(s: Seq<u8>)
    ensures
        forall|i: int| 0 <= i < enc(s).len() ==> enc(s)[i] < 0x80,
    decreases s.len(),
{
    if s.len() == 0 {
    } else {
        lemma_enc_ascii(s.drop_first());
        assert forall|i: int| 0 <= i < enc(s).len() implies enc(s)[i] < 0x80 by {
            assert(enc(s) == enc_byte(s[0]) + enc(s.drop_first()));
            assert(forall|j: int| 0 <= j < enc_byte(s[0]).len() ==> enc_byte(s[0])[j] < 0x80);
            if i >= enc_byte(s[0]).len() {
                assert(enc(s)[i] == enc(s.drop_first())[i - enc_byte(s[0]).len()]);
            }
        }
    }
}

/// The hexadecimal digits written by the encoder decode to the value they
/// were written from.
proof fn lemma_hex_digit_val(n: u8)
    requires
        n < 16,
    ensures
        is_hex(hex_digit(n)),
        hex_val(hex_digit(n)) == n,
{
}

/// Law: strict percent-encoding round-trips losslessly; decoding the
/// encoding of any byte string yields the original bytes.
pub proof fn lemma_encode_roundtrip(s: Seq<u8>)
    ensures
        pct_decoded(enc(s)) == s,
    decreases s.len(),
{
    if s.len() == 0 {
        assert(pct_decoded(enc(s)) =~= s);
    } else {
        let b = s[0];
        lemma_encode_roundtrip(s.drop_first());
        if is_unreserved(b) {
            assert(enc(s)[0] == b);
            assert(enc(s).skip(1) =~= enc(s.drop_first()));
            assert(pct_decoded(enc(s)) =~= seq![b] + pct_decoded(enc(s.drop_first())));
        } else {
            lemma_hex_digit_val((b / 16) as u8);
            lemma_hex_digit_val((b % 16) as u8);
            assert(enc(s)[0] == 0x25);
            assert(enc(s)[1] == hex_digit((b / 16) as u8));
            assert(enc(s)[2] == hex_digit((b % 16) as u8));
            assert(16 * (b / 16) + (b % 16) == b);
            assert(enc(s).skip(3) =~= enc(s.drop_first()));
            assert(pct_decoded(enc(s)) =~= seq![b] + pct_decoded(enc(s.drop_first())));
        }
        assert(seq![b] + s.drop_first() =~= s);
    }
}

/// Whether the strict encoding leaves this byte as it is.
fn unreserved(b: u8) -> (r: bool)
    ensures
        r == is_unreserved(b),
{
    (0x41 <= b && b <= 0x5a) || (0x61 <= b && b <= 0x7a) || (0x30 <= b && b <= 0x39) || b == 0x2d
        || b == 0x2e || b == 0x5f || b == 0x7e
}

/// The uppercase hexadecimal digit for `n < 16`.
fn to_hex_digit(n: u8) -> (r: u8)
    requires
        n < 16,
    ensures
        r == hex_digit(n),
{
    if n < 10 {
        0x30 + n
    } else {
        0x37 + n
    }
}

/// Whether `b` is a hexadecimal digit.
fn hex_p(b: u8) -> (r: bool)
    ensures
        r == is_hex(b),
{
    (0x30 <= b && b <= 0x39) || (0x41 <= b && b <= 0x46) || (0x61 <= b && b <= 0x66)
}

/// The value of a hexadecimal digit.
fn from_hex(b: u8) -> (r: u8)
    requires
        is_hex(b),
    ensures
        r == hex_val(b),
{
    if 0x30 <= b && b <= 0x39 {
        b - 0x30
    } else if 0x41 <= b && b <= 0x46 {
        b - 0x37
    } else {
        b - 0x57
    }
}

/// Strict percent-encoding of a byte string.
pub(crate) fn encode_bytes(s: &Vec<u8>) -> (r: Vec<u8>)
    ensures
        r@ == enc(s@),
{
    let mut r: Vec<u8> = Vec::new();
    let mut i: usize = 0;
    while i < s.len()
        invariant
            i <= s@.len(),
            r@ == enc(s@.take(i as int)),
        decreases s@.len() - i,
    {
        let b = s[i];
        if unreserved(b) {
            r.push(b);
        } else {
            r.push(0x25);
            r.push(to_hex_digit(b / 16));
            r.push(to_hex_digit(b % 16));
        }
        proof {
            lemma_enc_append(s@.take(i as int), seq![b]);
            assert(seq![b].drop_first() =~= Seq::<u8>::empty());
            assert(seq![b][0] == b);
            assert(enc(Seq::<u8>::empty()) =~= Seq::<u8>::empty());
            assert(enc(seq![b]) =~= enc_byte(b));
            assert(s@.take(i as int) + seq![b] =~= s@.take(i + 1 as int));
            assert(r@ =~= enc(s@.take(i as int)) + enc_byte(b));
        }
        i += 1;
    }
    proof {
        assert(s@.take(s@.len() as int) =~= s@);
    }
    r
}

/// Percent-decoding of a byte string.
pub(crate) fn decode_bytes(s: &Vec<u8>) -> (r: Vec<u8>)
    ensures
        r@ == pct_decoded(s@),
{
    let mut r: Vec<u8> = Vec::new();
    let mut i: usize = 0;
    proof {
        assert(s@.skip(0) =~= s@);
        assert(Seq::<u8>::empty() + pct_decoded(s@) =~= pct_decoded(s@));
    }
    while i < s.len()
        invariant
            i <= s@.len(),
            pct_decoded(s@) == r@ + pct_decoded(s@.skip(i as int)),
        decreases s@.len() - i,
    {
        let ghost tail = s@.skip(i as int);
        proof {
            assert(tail.len() == s@.len() - i);
            assert(forall|j: int| 0 <= j < tail.len() ==> tail[j] == s@[i + j]);
        }
        let b = s[i];
        if b == 0x25 && s.len() - i > 2 && hex_p(s[i + 1]) && hex_p(s[i + 2]) {
            let v = 16 * from_hex(s[i + 1]) + from_hex(s[i + 2]);
            r.push(v);
            proof {
                assert(tail[0] == 0x25 && tail.len() >= 3 && is_hex(tail[1]) && is_hex(tail[2]));
                assert(tail.skip(3) =~= s@.skip(i + 3 as int));
                assert(pct_decoded(tail) =~= seq![v] + pct_decoded(s@.skip(i + 3 as int)));
                assert(r@ + pct_decoded(s@.skip(i + 3 as int)) =~= pct_decoded(s@));
            }
            i += 3;
        } else {
            r.push(b);
            proof {
                assert(tail[0] == b);
                if tail.len() >= 3 {
                    assert(tail[1] == s@[i + 1] && tail[2] == s@[i + 2]);
                }
                assert(!(tail[0] == 0x25 && tail.len() >= 3 && is_hex(tail[1]) && is_hex(
                    tail[2],
                )));
                assert(tail.skip(1) =~= s@.skip(i + 1 as int));
                assert(pct_decoded(tail) =~= seq![b] + pct_decoded(s@.skip(i + 1 as int)));
                assert(r@ + pct_decoded(s@.skip(i + 1 as int)) =~= pct_decoded(s@));
            }
            i += 1;
        }
    }
    proof {
        assert(s@.skip(s@.len() as int) =~= Seq::<u8>::empty());
        assert(r@ + pct_decoded(s@.skip(s@.len() as int)) =~= r@);
    }
    r
}

/// Percent-encodes a string's UTF-8 bytes with the strict unreserved set.
pub fn encode(s: &str) -> (r: String)
    ensures
        r@ == ascii_chars(enc(s.spec_bytes())),
{
    let bytes = s.as_bytes_vec();
    let e = encode_bytes(&bytes);
    proof {
        lemma_enc_ascii(bytes@);
    }
    let r = lossy_string(&e);
    proof {
        assert(r@ =~= ascii_chars(enc(s.spec_bytes())));
    }
    r
}

/// Percent-decodes a string; the decoded bytes are read back as UTF-8,
/// lossily.
pub fn decode(s: &str) -> (r: String)
    ensures
        r@ == utf8_lossy_of(pct_decoded(s.spec_bytes())),
        (forall|i: int|
            0 <= i < pct_decoded(s.spec_bytes()).len() ==> pct_decoded(s.spec_bytes())[i]
                < 0x80) ==> r@ == ascii_chars(pct_decoded(s.spec_bytes())),
{
    let bytes = s.as_bytes_vec();
    let d = decode_bytes(&bytes);
    let r = lossy_string(&d);
    proof {
        if forall|i: int|
            0 <= i < pct_decoded(s.spec_bytes()).len() ==> pct_decoded(s.spec_bytes())[i]
                < 0x80 {
            assert(r@ =~= ascii_chars(pct_decoded(s.spec_bytes())));
        }
    }
    r
}

/// Law, in executable form: for an ASCII string, decoding the encoding
/// gives the string back, losslessly.
pub fn encode_roundtrip(s: &str) -> (r: String)
    ensures
        is_ascii(s) ==> r@ == s@,
{
    let e = encode(s);
    let r = decode(e.as_str());
    proof {
        let bs = s.spec_bytes();
        lemma_enc_ascii(bs);
        let echars = ascii_chars(enc(bs));
        assert(is_ascii_chars(echars)) by {
            assert forall|i: int| 0 <= i < echars.len() implies '\0' <= #[trigger] echars[i]
                <= '\u{7f}' by {
                assert(echars[i] == enc(bs)[i] as char);
            }
        }
        vstd::utf8::is_ascii_chars_encode_utf8(echars);
        assert(encode_utf8(echars) =~= enc(bs)) by {
            assert forall|i: int| 0 <= i < echars.len() implies encode_utf8(echars)[i] == enc(
                bs,
            )[i] by {
                assert(encode_utf8(echars)[i] == echars[i] as u8);
                assert(echars[i] == enc(bs)[i] as char);
            }
        }
        lemma_encode_roundtrip(bs);
        if is_ascii(s) {
            vstd::utf8::is_ascii_chars_encode_utf8(s@);
            assert(forall|i: int| 0 <= i < bs.len() ==> bs[i] < 0x80) by {
                vstd::utf8::is_ascii_chars_nat_bound(s@);
            }
            assert(r@ =~= s@) by {
                assert(r@ == ascii_chars(bs));
                assert forall|i: int| 0 <= i < bs.len() implies ascii_chars(bs)[i] == s@[i] by {
                    assert(bs[i] == s@[i] as u8);
                }
            }
        }
    }
    r
}

/// The decimal digits of a non-negative integer, most significant first.
pub open spec fn dec_digits(n: int) -> Seq<u8>
    recommends
        n >= 0,
    decreases n,
{
    if n < 10 {
        seq![(0x30 + n) as u8]
    } else {
        dec_digits(n / 10) + seq![(0x30 + n % 10) as u8]
    }
}

/// The decimal rendering of a signed integer: a `-` sign when negative,
/// then the digits.
pub open spec fn i64_dec(n: int) -> Seq<u8> {
    if n < 0 {
        seq![0x2du8] + dec_digits(-n)
    } else {
        dec_digits(n)
    }
}

/// The decimal digits of `n`.
fn u64_digits(n: u64) -> (r: Vec<u8>)
    ensures
        r@ == dec_digits(n as int),
    decreases n,
{
    if n < 10 {
        let mut r: Vec<u8> = Vec::new();
        r.push(0x30 + n as u8);
        proof {
            assert(r@ =~= dec_digits(n as int));
        }
        r
    } else {
        let mut r = u64_digits(n / 10);
        r.push(0x30 + (n % 10) as u8);
        proof {
            assert(r@ =~= dec_digits(n as int));
        }
        r
    }
}

/// The bytes of a string.
pub(crate) fn str_bytes(s: &str) -> (r: Vec<u8>)
    ensures
        r@ == s.spec_bytes(),
{
    s.as_bytes_vec()
}

/// Appends all of `src` to `dst`.
pub(crate) fn push_all(dst: &mut Vec<u8>, src: &Vec<u8>)
    ensures
        final(dst)@ == old(dst)@ + src@,
{
    let mut i: usize = 0;
    while i < src.len()
        invariant
            i <= src@.len(),
            dst@ == old(dst)@ + src@.take(i as int),
        decreases src@.len() - i,
    {
        dst.push(src[i]);
        proof {
            assert(old(dst)@ + src@.take(i as int) + seq![src@[i as int]] =~= old(dst)@
                + src@.take(i + 1 as int));
        }
        i += 1;
    }
    proof {
        assert(old(dst)@ + src@.take(src@.len() as int) =~= old(dst)@ + src@);
    }
}

/// The decimal rendering of a signed 64-bit integer.
pub(crate) fn i64_digits(n: i64) -> (r: Vec<u8>)
    ensures
        r@ == i64_dec(n as int),
{
    if n >= 0 {
        u64_digits(n as u64)
    } else {
        let m: u64 = if n == i64::MIN {
            0x8000000000000000u64
        } else {
            (-n) as u64
        };
        let mut r: Vec<u8> = Vec::new();
        r.push(0x2d);
        let d = u64_digits(m);
        push_all(&mut r, &d);
        proof {
            assert(r@ =~= i64_dec(n as int));
        }
        r
    }
}

} // verus!
