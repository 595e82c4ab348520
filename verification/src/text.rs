//! Verified text utilities: decimal and hexadecimal rendering of byte-string
//! numerals, and parsing of the textual forms the configuration and the query
//! layer use (decimal numbers, comma-separated lists, hex addresses).

use vstd::prelude::*;

verus! {

use vstd::utf8::{valid_utf8, decode_utf8, is_ascii_chars};
use vstd::std_specs::iter::IteratorSpec;

/// The characters of a byte sequence read as ASCII, one character per byte.
pub open spec fn ascii_chars(b: Seq<u8>) -> Seq<char> {
    b.map_values(|x: u8| x as char)
}

/// The big-endian value of a byte string.
pub open spec fn be_val(b: Seq<u8>) -> nat
    decreases b.len(),
{
    if b.len() == 0 {
        0
    } else {
        be_val(b.drop_last()) * 256 + b.last() as nat
    }
}

/// The ASCII digits of `n` written in decimal, most significant first,
/// without leading zeros (`0` itself is the single digit `0`).
pub open spec fn dec_digits(n: nat) -> Seq<u8>
    decreases n,
{
    if n < 10 {
        seq![(n + 48) as u8]
    } else {
        dec_digits(n / 10).push(((n % 10) + 48) as u8)
    }
}

/// `n` written in decimal, as characters.
pub open spec fn dec_chars(n: nat) -> Seq<char> {
    ascii_chars(dec_digits(n))
}

/// The lowercase hexadecimal digit for a value below 16.
pub open spec fn hex_digit(d: u8) -> u8 {
    if d < 10 {
        (d + 48) as u8
    } else {
        (d + 87) as u8
    }
}

/// The ASCII hex digits of a byte string, two per byte.
pub open spec fn hex_digits(b: Seq<u8>) -> Seq<u8>
    decreases b.len(),
{
    if b.len() == 0 {
        Seq::<u8>::empty()
    } else {
        hex_digits(b.drop_last()) + seq![
            hex_digit((b.last() / 16) as u8),
            hex_digit((b.last() % 16) as u8),
        ]
    }
}

/// A byte string written as `0x` followed by its lowercase hex digits.
pub open spec fn hex_0x_chars(b: Seq<u8>) -> Seq<char> {
    ascii_chars(seq![48u8, 120u8] + hex_digits(b))
}

/// Relies on `String::from_utf8`: it succeeds exactly on valid UTF-8 input
/// and returns the string of the decoded characters.
#[verifier::external_body]
pub fn utf8_to_string(bytes: Vec<u8>) -> (r: Option<String>)
    ensures
        r is Some <==> valid_utf8(bytes@),
        r is Some ==> r->Some_0@ == decode_utf8(bytes@),
{
    match String::from_utf8(bytes) {
        Ok(s) => Some(s),
        Err(_) => None,
    }
}

/// Builds the string whose characters are the given ASCII bytes.
pub fn ascii_to_string(bytes: Vec<u8>) -> (r: String)
    requires
        forall|i: int| 0 <= i < bytes@.len() ==> bytes@[i] < 128,
    ensures
        r@ == ascii_chars(bytes@),
{
    proof {
        lemma_ascii_chars_roundtrip(bytes@);
    }
    match utf8_to_string(bytes) {
        Some(s) => s,
        None => String::new(),
    }
}

/// A byte string of ASCII bytes is valid UTF-8 and decodes to those bytes
/// read as characters.
pub proof fn lemma_ascii_chars_roundtrip(b: Seq<u8>)
    requires
        forall|i: int| 0 <= i < b.len() ==> b[i] < 128,
    ensures
        valid_utf8(b),
        decode_utf8(b) == ascii_chars(b),
{
    let c = ascii_chars(b);
    assert forall|i: int| 0 <= i < c.len() implies '\0' <= #[trigger] c[i] <= '\u{7f}' by {
        assert(c[i] == b[i] as char);
        assert(b[i] < 128);
    }
    assert(is_ascii_chars(c));
    vstd::utf8::is_ascii_chars_encode_utf8(c);
    assert(vstd::utf8::encode_utf8(c) =~= b) by {
        assert forall|i: int| 0 <= i < c.len() implies #[trigger] vstd::utf8::encode_utf8(c)[i]
            == b[i] by {
            assert(c[i] as u8 == vstd::utf8::encode_utf8(c)[i]);
            assert(c[i] == b[i] as char);
        }
    }
    vstd::utf8::encode_utf8_valid_utf8(c);
    vstd::utf8::encode_utf8_decode_utf8(c);
}

/// `be_val` of a one-byte extension.
pub proof fn lemma_be_val_push(b: Seq<u8>, x: u8)
    ensures
        be_val(b.push(x)) == be_val(b) * 256 + x,
{
    assert(b.push(x).drop_last() =~= b);
    assert(b.push(x).last() == x);
}

/// `be_val` is zero exactly when every byte is zero.
pub proof fn lemma_be_val_zero(b: Seq<u8>)
    ensures
        be_val(b) == 0 <==> (forall|i: int| 0 <= i < b.len() ==> b[i] == 0),
    decreases b.len(),
{
    if b.len() > 0 {
        lemma_be_val_zero(b.drop_last());
        if be_val(b) == 0 {
            assert(be_val(b.drop_last()) * 256 + b.last() as nat == 0);
            assert(be_val(b.drop_last()) == 0 && b.last() == 0);
            assert(forall|i: int|
                0 <= i < b.len() - 1 ==> b[i] == b.drop_last()[i] && b.drop_last()[i] == 0);
        } else {
            if forall|i: int| 0 <= i < b.len() ==> b[i] == 0 {
                assert(forall|i: int| 0 <= i < b.drop_last().len() ==> b.drop_last()[i] == 0);
                assert(b.last() == 0);
                assert(be_val(b) == 0);
            }
        }
    }
}

/// A prefix never has a larger value than the whole.
pub proof fn lemma_be_val_prefix_le(b: Seq<u8>, i: int)
    requires
        0 <= i <= b.len(),
    ensures
        be_val(b.subrange(0, i)) <= be_val(b),
    decreases b.len() - i,
{
    if i < b.len() {
        let p = b.subrange(0, i);
        let q = b.subrange(0, i + 1);
        assert(q.drop_last() =~= p);
        assert(be_val(q) == be_val(p) * 256 + q.last() as nat);
        assert(be_val(p) <= be_val(p) * 256) by (nonlinear_arith);
        lemma_be_val_prefix_le(b, i + 1);
    } else {
        assert(b.subrange(0, i) =~= b);
    }
}

/// True when every byte of the string is zero.
pub fn be_is_zero(v: &Vec<u8>) -> (r: bool)
    ensures
        r <==> be_val(v@) == 0,
{
    proof {
        lemma_be_val_zero(v@);
    }
    let mut i: usize = 0;
    while i < v.len()
        invariant
            0 <= i <= v.len(),
            forall|j: int| 0 <= j < i ==> v@[j] == 0,
        decreases v.len() - i,
    {
        if v[i] != 0 {
            proof {
                lemma_be_val_zero(v@);
                let w = i as int;
                if be_val(v@) == 0 {
                    assert(forall|j: int| 0 <= j < v@.len() ==> v@[j] == 0);
                    assert(v@[w] == 0);
                }
            }
            return false;
        }
        i += 1;
    }
    true
}

/// Divides a big-endian byte string by ten, returning the quotient in the
/// same width together with the remainder.
pub fn be_divmod10(v: &Vec<u8>) -> (res: (Vec<u8>, u8))
    ensures
        res.0@.len() == v@.len(),
        be_val(res.0@) * 10 + res.1 as nat == be_val(v@),
        res.1 < 10,
{
    let mut q: Vec<u8> = Vec::new();
    let mut r: u8 = 0;
    let mut i: usize = 0;
    proof {
        assert(v@.subrange(0, 0) =~= Seq::<u8>::empty());
    }
    while i < v.len()
        invariant
            0 <= i <= v.len(),
            q@.len() == i,
            r < 10,
            be_val(q@) * 10 + r as nat == be_val(v@.subrange(0, i as int)),
        decreases v.len() - i,
    {
        let cur: u32 = (r as u32) * 256 + v[i] as u32;
        let d: u8 = (cur / 10) as u8;
        let r2: u8 = (cur % 10) as u8;
        proof {
            let qv = be_val(q@);
            let pre = v@.subrange(0, i as int);
            let post = v@.subrange(0, i as int + 1);
            assert(post.drop_last() =~= pre);
            assert(post.last() == v@[i as int]);
            assert(be_val(post) == be_val(pre) * 256 + v@[i as int] as nat);
            lemma_be_val_push(q@, d);
            assert((qv * 10 + r as nat) * 256 == (qv * 256) * 10 + (r as nat) * 256)
                by (nonlinear_arith);
            assert(cur as nat == (r as nat) * 256 + v@[i as int] as nat);
            assert((cur / 10) as nat * 10 + (cur % 10) as nat == cur as nat);
            assert((qv * 256 + d as nat) * 10 == (qv * 256) * 10 + (d as nat) * 10)
                by (nonlinear_arith);
        }
        q.push(d);
        r = r2;
        i += 1;
    }
    proof {
        assert(v@.subrange(0, v@.len() as int) =~= v@);
    }
    (q, r)
}

/// Renders the big-endian value of a byte string in decimal.
pub fn be_to_dec_string(v: &Vec<u8>) -> (r: String)
    ensures
        r@ == dec_chars(be_val(v@)),
{
    let ghost n0 = be_val(v@);
    let mut rev: Vec<u8> = Vec::new();
    if be_is_zero(v) {
        rev.push(48);
        proof {
            assert(dec_digits(0) =~= seq![48u8]);
            assert(rev@ =~= dec_digits(n0));
        }
        return ascii_to_string(rev);
    }
    let mut cur: Vec<u8> = v.clone();
    while !be_is_zero(&cur)
        invariant
            cur@.len() == v@.len(),
            n0 == be_val(v@),
            n0 > 0,
            forall|j: int| 0 <= j < rev@.len() ==> 48 <= #[trigger] rev@[j] < 58,
            if be_val(cur@) > 0 {
                dec_digits(n0) =~= dec_digits(be_val(cur@)) + rev@.reverse()
            } else {
                dec_digits(n0) =~= rev@.reverse()
            },
        decreases be_val(cur@),
    {
        let ghost m = be_val(cur@);
        let (q, d) = be_divmod10(&cur);
        proof {
            let qv = be_val(q@);
            assert(qv * 10 + d as nat == m);
            assert(m % 10 == d as nat && m / 10 == qv) by (nonlinear_arith)
                requires
                    qv * 10 + d as nat == m,
                    d < 10,
            ;
            assert(qv < m) by (nonlinear_arith)
                requires
                    qv * 10 + d as nat == m,
                    d < 10,
                    m > 0,
            ;
            let digit = ((m % 10) + 48) as u8;
            assert(digit == (d + 48) as u8);
            assert(rev@.push(digit).reverse() =~= seq![digit] + rev@.reverse());
            if qv > 0 {
                assert(dec_digits(m) =~= dec_digits(qv).push(digit));
                assert(dec_digits(qv).push(digit) + rev@.reverse() =~= dec_digits(qv) + (seq![
                    digit,
                ] + rev@.reverse()));
            } else {
                assert(m < 10);
                assert(dec_digits(m) =~= seq![digit]);
            }
        }
        rev.push(d + 48);
        cur = q;
    }
    let mut out: Vec<u8> = Vec::new();
    let mut i: usize = rev.len();
    while i > 0
        invariant
            0 <= i <= rev.len(),
            forall|j: int| 0 <= j < rev@.len() ==> 48 <= #[trigger] rev@[j] < 58,
            out@ =~= rev@.subrange(i as int, rev@.len() as int).reverse(),
        decreases i,
    {
        i -= 1;
        proof {
            let tail = rev@.subrange(i as int, rev@.len() as int);
            assert(tail.reverse() =~= out@.push(rev@[i as int]));
        }
        out.push(rev[i]);
    }
    proof {
        assert(rev@.subrange(0, rev@.len() as int) =~= rev@);
        assert(out@ =~= dec_digits(n0));
        lemma_dec_digits_ascii(n0);
    }
    ascii_to_string(out)
}

/// Decimal digits are ASCII digit bytes.
pub proof fn lemma_dec_digits_ascii(n: nat)
    ensures
        forall|i: int| 0 <= i < dec_digits(n).len() ==> 48 <= #[trigger] dec_digits(n)[i] < 58,
    decreases n,
{
    if n >= 10 {
        lemma_dec_digits_ascii(n / 10);
        let dd = dec_digits(n);
        let pre = dec_digits(n / 10);
        assert forall|i: int| 0 <= i < dd.len() implies 48 <= #[trigger] dd[i] < 58 by {
            if i < pre.len() {
                assert(dd[i] == pre[i]);
            } else {
                assert(dd[i] == ((n % 10) + 48) as u8);
            }
        }
    }
}

/// Renders a machine integer in decimal.
pub fn u64_to_dec_string(n: u64) -> (r: String)
    ensures
        r@ == dec_chars(n as nat),
{
    let mut rev: Vec<u8> = Vec::new();
    if n == 0 {
        rev.push(48);
        proof {
            assert(dec_digits(0) =~= seq![48u8]);
            assert(rev@ =~= dec_digits(0));
        }
        return ascii_to_string(rev);
    }
    let mut m: u64 = n;
    while m > 0
        invariant
            n > 0,
            forall|j: int| 0 <= j < rev@.len() ==> 48 <= #[trigger] rev@[j] < 58,
            if m > 0 {
                dec_digits(n as nat) =~= dec_digits(m as nat) + rev@.reverse()
            } else {
                dec_digits(n as nat) =~= rev@.reverse()
            },
        decreases m,
    {
        let d: u8 = (m % 10) as u8;
        proof {
            let digit = ((m as nat % 10) + 48) as u8;
            assert(digit == (d + 48) as u8);
            assert(rev@.push(digit).reverse() =~= seq![digit] + rev@.reverse());
            if m >= 10 {
                assert(dec_digits(m as nat) =~= dec_digits(m as nat / 10).push(digit));
                assert(dec_digits(m as nat / 10).push(digit) + rev@.reverse() =~= dec_digits(
                    m as nat / 10,
                ) + (seq![digit] + rev@.reverse()));
            } else {
                assert(dec_digits(m as nat) =~= seq![digit]);
            }
        }
        rev.push(d + 48);
        m = m / 10;
    }
    let mut out: Vec<u8> = Vec::new();
    let mut i: usize = rev.len();
    while i > 0
        invariant
            0 <= i <= rev.len(),
            forall|j: int| 0 <= j < rev@.len() ==> 48 <= #[trigger] rev@[j] < 58,
            out@ =~= rev@.subrange(i as int, rev@.len() as int).reverse(),
        decreases i,
    {
        i -= 1;
        proof {
            let tail = rev@.subrange(i as int, rev@.len() as int);
            assert(tail.reverse() =~= out@.push(rev@[i as int]));
        }
        out.push(rev[i]);
    }
    proof {
        assert(rev@.subrange(0, rev@.len() as int) =~= rev@);
        assert(out@ =~= dec_digits(n as nat));
        lemma_dec_digits_ascii(n as nat);
    }
    ascii_to_string(out)
}

/// Renders a byte string as `0x` followed by its lowercase hex digits.
pub fn hex_string_0x(v: &Vec<u8>) -> (r: String)
    ensures
        r@ == hex_0x_chars(v@),
{
    let mut out: Vec<u8> = Vec::new();
    out.push(48);
    out.push(120);
    let mut i: usize = 0;
    proof {
        assert(hex_digits(v@.subrange(0, 0)) =~= Seq::<u8>::empty());
        assert(out@ =~= seq![48u8, 120u8] + hex_digits(v@.subrange(0, 0)));
    }
    while i < v.len()
        invariant
            0 <= i <= v.len(),
            out@ =~= seq![48u8, 120u8] + hex_digits(v@.subrange(0, i as int)),
        decreases v.len() - i,
    {
        let b = v[i];
        proof {
            let pre = v@.subrange(0, i as int);
            let post = v@.subrange(0, i as int + 1);
            assert(post.drop_last() =~= pre);
            assert(post.last() == b);
            assert(hex_digits(post) =~= hex_digits(pre) + seq![
                hex_digit((b / 16) as u8),
                hex_digit((b % 16) as u8),
            ]);
        }
        let hi = b / 16;
        let lo = b % 16;
        out.push(if hi < 10 {
            hi + 48
        } else {
            hi + 87
        });
        out.push(if lo < 10 {
            lo + 48
        } else {
            lo + 87
        });
        i += 1;
    }
    proof {
        assert(v@.subrange(0, v@.len() as int) =~= v@);
        lemma_hex_digits_ascii(v@);
        assert(forall|j: int| 0 <= j < out@.len() ==> out@[j] < 128);
    }
    ascii_to_string(out)
}

/// Hex digits are ASCII bytes.
pub proof fn lemma_hex_digits_ascii(b: Seq<u8>)
    ensures
        forall|i: int| 0 <= i < hex_digits(b).len() ==> #[trigger] hex_digits(b)[i] < 128,
    decreases b.len(),
{
    if b.len() > 0 {
        lemma_hex_digits_ascii(b.drop_last());
        let hd = hex_digits(b);
        let pre = hex_digits(b.drop_last());
        assert forall|i: int| 0 <= i < hd.len() implies #[trigger] hd[i] < 128 by {
            if i < pre.len() {
                assert(hd[i] == pre[i]);
            } else {
                assert(b.last() / 16 < 16 && b.last() % 16 < 16);
            }
        }
    }
}

/// The characters of a string, as a vector.
pub fn str_chars(s: &str) -> (r: Vec<char>)
    ensures
        r@ == s@,
{
    broadcast use vstd::string::group_string_axioms;

    let mut out: Vec<char> = Vec::new();
    let mut it = s.chars();
    let ghost all = s@;
    loop
        invariant
            out@ + it.remaining() =~= all,
            IteratorSpec::obeys_prophetic_iter_laws(&it),
            IteratorSpec::decrease(&it) is Some,
        ensures
            out@ =~= all,
        decreases IteratorSpec::decrease(&it)->0,
    {
        match it.next() {
            Some(c) => {
                out.push(c);
            },
            None => {
                break ;
            },
        }
    }
    out
}

/// A decimal digit character.
pub open spec fn is_dec_digit_char(c: char) -> bool {
    '0' <= c && c <= '9'
}

/// Every character of the sequence is a decimal digit.
pub open spec fn all_dec_digits(s: Seq<char>) -> bool {
    forall|i: int| 0 <= i < s.len() ==> is_dec_digit_char(s[i])
}

/// The value of a sequence of decimal digit characters.
pub open spec fn dec_val_chars(s: Seq<char>) -> int
    decreases s.len(),
{
    if s.len() == 0 {
        0
    } else {
        dec_val_chars(s.drop_last()) * 10 + (s.last() as int - 48)
    }
}

/// The number an unsigned decimal numeral denotes: defined exactly when the
/// text is nonempty, all digits, and the value fits in 64 bits.
pub open spec fn parse_u64_chars(s: Seq<char>) -> Option<u64> {
    if s.len() > 0 && all_dec_digits(s) && dec_val_chars(s) <= u64::MAX as int {
        Some(dec_val_chars(s) as u64)
    } else {
        None
    }
}

/// The value of an all-digit text is non-negative, and prefixes never exceed
/// the whole.
pub proof fn lemma_dec_val_bounds(s: Seq<char>)
    requires
        all_dec_digits(s),
    ensures
        0 <= dec_val_chars(s),
        forall|i: int| 0 <= i <= s.len() ==> 0 <= dec_val_chars(#[trigger] s.subrange(0, i))
            <= dec_val_chars(s),
    decreases s.len(),
{
    if s.len() == 0 {
        assert(s.subrange(0, 0) =~= s);
    } else {
        let p = s.drop_last();
        assert(all_dec_digits(p));
        lemma_dec_val_bounds(p);
        assert(is_dec_digit_char(s.last()));
        assert(dec_val_chars(p) * 10 >= dec_val_chars(p)) by (nonlinear_arith)
            requires
                dec_val_chars(p) >= 0,
        ;
        assert forall|i: int| 0 <= i <= s.len() implies 0 <= dec_val_chars(
            #[trigger] s.subrange(0, i),
        ) <= dec_val_chars(s) by {
            if i < s.len() {
                assert(s.subrange(0, i) =~= p.subrange(0, i));
            } else {
                assert(s.subrange(0, i) =~= s);
            }
            assert(p.subrange(0, p.len() as int) =~= p);
        }
    }
}

/// Parses an unsigned decimal numeral.
pub fn parse_u64_vec(s: &Vec<char>) -> (r: Option<u64>)
    ensures
        r == parse_u64_chars(s@),
{
    if s.len() == 0 {
        return None;
    }
    let mut acc: u64 = 0;
    let mut i: usize = 0;
    proof {
        assert(s@.subrange(0, 0) =~= Seq::<char>::empty());
    }
    while i < s.len()
        invariant
            0 <= i <= s@.len(),
            all_dec_digits(s@.subrange(0, i as int)),
            acc as int == dec_val_chars(s@.subrange(0, i as int)),
        decreases s@.len() - i,
    {
        let c = s[i];
        if c < '0' || c > '9' {
            proof {
                assert(!is_dec_digit_char(s@[i as int]));
            }
            return None;
        }
        let d: u64 = (c as u32 - 48) as u64;
        proof {
            let pre = s@.subrange(0, i as int);
            let post = s@.subrange(0, i as int + 1);
            assert(post.drop_last() =~= pre);
            assert(post.last() == s@[i as int]);
            assert(d as int == s@[i as int] as int - 48);
        }
        if acc > (u64::MAX - d) / 10 {
            proof {
                let post = s@.subrange(0, i as int + 1);
                lemma_mul10_gt(acc as int, d as int, u64::MAX as int);
                assert(dec_val_chars(post) > u64::MAX as int);
                if all_dec_digits(s@) && dec_val_chars(s@) <= u64::MAX as int {
                    lemma_dec_val_bounds(s@);
                    assert(dec_val_chars(s@.subrange(0, i as int + 1)) <= dec_val_chars(s@));
                }
            }
            return None;
        }
        proof {
            lemma_mul10_le(acc as int, d as int, u64::MAX as int);
        }
        acc = acc * 10 + d;
        i += 1;
    }
    proof {
        assert(s@.subrange(0, s@.len() as int) =~= s@);
    }
    Some(acc)
}

/// If `a > (m - d) / 10` with `0 <= d <= m`, then `a * 10 + d > m`.
proof fn lemma_mul10_gt(a: int, d: int, m: int)
    requires
        0 <= d <= m,
        a > (m - d) / 10,
    ensures
        a * 10 + d > m,
{
    let q = (m - d) / 10;
    assert(q * 10 <= m - d < (q + 1) * 10) by (nonlinear_arith)
        requires
            q == (m - d) / 10,
            m - d >= 0,
    ;
    assert(a * 10 >= (q + 1) * 10) by (nonlinear_arith)
        requires
            a >= q + 1,
    ;
}

/// If `a <= (m - d) / 10` with `0 <= d <= m`, then `a * 10 + d <= m`.
proof fn lemma_mul10_le(a: int, d: int, m: int)
    requires
        0 <= a,
        0 <= d <= m,
        a <= (m - d) / 10,
    ensures
        a * 10 + d <= m,
{
    let q = (m - d) / 10;
    assert(q * 10 <= m - d) by (nonlinear_arith)
        requires
            q == (m - d) / 10,
            m - d >= 0,
    ;
    assert(a * 10 <= q * 10) by (nonlinear_arith)
        requires
            a <= q,
    ;
}

/// An ASCII whitespace character.
pub open spec fn is_space_char(c: char) -> bool {
    c == ' ' || c == '\t' || c == '\n' || c == '\r'
}

/// The sequence with leading ASCII whitespace removed.
pub open spec fn trim_start_chars(s: Seq<char>) -> Seq<char>
    decreases s.len(),
{
    if s.len() > 0 && is_space_char(s[0]) {
        trim_start_chars(s.drop_first())
    } else {
        s
    }
}

/// The sequence with trailing ASCII whitespace removed.
pub open spec fn trim_end_chars(s: Seq<char>) -> Seq<char>
    decreases s.len(),
{
    if s.len() > 0 && is_space_char(s.last()) {
        trim_end_chars(s.drop_last())
    } else {
        s
    }
}

/// The sequence with ASCII whitespace removed from both ends.
pub open spec fn trim_chars(s: Seq<char>) -> Seq<char> {
    trim_end_chars(trim_start_chars(s))
}

/// Removes ASCII whitespace from both ends.
pub fn trim_vec(s: &Vec<char>) -> (r: Vec<char>)
    ensures
        r@ == trim_chars(s@),
{
    proof {
        assert(s@.subrange(0, s@.len() as int) =~= s@);
    }
    let mut lo: usize = 0;
    while lo < s.len() && is_space_exec(s[lo])
        invariant
            0 <= lo <= s@.len(),
            forall|j: int| 0 <= j < lo ==> is_space_char(s@[j]),
            trim_start_chars(s@) == trim_start_chars(s@.subrange(lo as int, s@.len() as int)),
        decreases s@.len() - lo,
    {
        proof {
            let cur = s@.subrange(lo as int, s@.len() as int);
            assert(cur[0] == s@[lo as int]);
            assert(cur.drop_first() =~= s@.subrange(lo as int + 1, s@.len() as int));
        }
        lo += 1;
    }
    proof {
        let cur = s@.subrange(lo as int, s@.len() as int);
        if cur.len() > 0 {
            assert(cur[0] == s@[lo as int]);
        }
        assert(trim_start_chars(s@) == cur);
    }
    let mut hi: usize = s.len();
    while hi > lo && is_space_exec(s[hi - 1])
        invariant
            lo <= hi <= s@.len(),
            trim_start_chars(s@) == s@.subrange(lo as int, s@.len() as int),
            trim_end_chars(s@.subrange(lo as int, s@.len() as int)) == trim_end_chars(
                s@.subrange(lo as int, hi as int),
            ),
        decreases hi,
    {
        proof {
            let cur = s@.subrange(lo as int, hi as int);
            assert(cur.last() == s@[hi as int - 1]);
            assert(cur.drop_last() =~= s@.subrange(lo as int, hi as int - 1));
        }
        hi -= 1;
    }
    proof {
        let cur = s@.subrange(lo as int, hi as int);
        if cur.len() > 0 {
            assert(cur.last() == s@[hi as int - 1]);
        }
        assert(trim_chars(s@) == cur);
    }
    let mut out: Vec<char> = Vec::new();
    let mut i: usize = lo;
    while i < hi
        invariant
            lo <= i <= hi <= s@.len(),
            out@ =~= s@.subrange(lo as int, i as int),
        decreases hi - i,
    {
        proof {
            assert(s@.subrange(lo as int, i as int + 1) =~= s@.subrange(lo as int, i as int).push(
                s@[i as int],
            ));
        }
        out.push(s[i]);
        i += 1;
    }
    proof {
        assert(out@ =~= trim_chars(s@));
    }
    out
}

/// Whether the character is ASCII whitespace.
pub fn is_space_exec(c: char) -> (r: bool)
    ensures
        r == is_space_char(c),
{
    c == ' ' || c == '\t' || c == '\n' || c == '\r'
}

/// The pieces of a character sequence split at commas. An empty input is one
/// empty piece; a trailing comma opens a final empty piece.
pub open spec fn split_commas(s: Seq<char>) -> Seq<Seq<char>>
    decreases s.len(),
{
    if s.len() == 0 {
        seq![Seq::<char>::empty()]
    } else if s.last() == ',' {
        split_commas(s.drop_last()).push(Seq::<char>::empty())
    } else {
        let sp = split_commas(s.drop_last());
        sp.update(sp.len() - 1, sp.last().push(s.last()))
    }
}

/// Splitting yields at least one piece.
pub proof fn lemma_split_commas_len(s: Seq<char>)
    ensures
        split_commas(s).len() >= 1,
    decreases s.len(),
{
    if s.len() > 0 {
        lemma_split_commas_len(s.drop_last());
    }
}

/// The chain identifiers found in the split pieces: each piece is trimmed
/// and parsed as a decimal number, and pieces that do not parse are dropped.
pub open spec fn parse_id_pieces(ps: Seq<Seq<char>>) -> Seq<u64>
    decreases ps.len(),
{
    if ps.len() == 0 {
        Seq::<u64>::empty()
    } else {
        let rest = parse_id_pieces(ps.drop_last());
        match parse_u64_chars(trim_chars(ps.last())) {
            Some(v) => rest.push(v),
            None => rest,
        }
    }
}

/// The chain identifiers denoted by a comma-separated list.
pub open spec fn chain_ids_of_chars(s: Seq<char>) -> Seq<u64> {
    parse_id_pieces(split_commas(s))
}

/// Parses a comma-separated list of decimal chain identifiers, dropping
/// pieces that do not parse.
pub fn parse_chain_id_list(s: &str) -> (r: Vec<u64>)
    ensures
        r@ == chain_ids_of_chars(s@),
{
    let chars = str_chars(s);
    let mut out: Vec<u64> = Vec::new();
    let mut piece: Vec<char> = Vec::new();
    let ghost mut done: Seq<Seq<char>> = Seq::<Seq<char>>::empty();
    let mut i: usize = 0;
    proof {
        assert(chars@.subrange(0, 0) =~= Seq::<char>::empty());
        assert(split_commas(Seq::<char>::empty()) =~= done.push(piece@));
    }
    while i < chars.len()
        invariant
            0 <= i <= chars@.len(),
            chars@ == s@,
            split_commas(chars@.subrange(0, i as int)) =~= done.push(piece@),
            out@ =~= parse_id_pieces(done),
        decreases chars@.len() - i,
    {
        let c = chars[i];
        proof {
            let pre = chars@.subrange(0, i as int);
            let post = chars@.subrange(0, i as int + 1);
            assert(post.drop_last() =~= pre);
            assert(post.last() == chars@[i as int]);
            lemma_split_commas_len(pre);
        }
        if c == ',' {
            let t = trim_vec(&piece);
            let parsed = parse_u64_vec(&t);
            proof {
                let fin = done.push(piece@);
                assert(parse_id_pieces(fin.drop_last()) == parse_id_pieces(done)) by {
                    assert(fin.drop_last() =~= done);
                }
                assert(fin.last() == piece@);
                assert(split_commas(chars@.subrange(0, i as int + 1)) =~= fin.push(
                    Seq::<char>::empty(),
                ));
            }
            match parsed {
                Some(v) => {
                    out.push(v);
                },
                None => {},
            }
            proof {
                done = done.push(piece@);
            }
            piece = Vec::new();
        } else {
            proof {
                let pre = chars@.subrange(0, i as int);
                let sp = split_commas(pre);
                assert(sp =~= done.push(piece@));
                assert(sp.last() == piece@);
                assert(sp.update(sp.len() - 1, sp.last().push(chars@[i as int])) =~= done.push(
                    piece@.push(chars@[i as int]),
                ));
            }
            piece.push(c);
        }
        i += 1;
    }
    let t = trim_vec(&piece);
    let parsed = parse_u64_vec(&t);
    proof {
        assert(chars@.subrange(0, chars@.len() as int) =~= chars@);
        let fin = done.push(piece@);
        assert(parse_id_pieces(fin.drop_last()) == parse_id_pieces(done)) by {
            assert(fin.drop_last() =~= done);
        }
        assert(fin.last() == piece@);
        assert(chain_ids_of_chars(s@) == parse_id_pieces(fin));
    }
    match parsed {
        Some(v) => {
            out.push(v);
        },
        None => {},
    }
    out
}

/// The bytes of a subrange, as a fresh vector.
pub fn sub_bytes(v: &Vec<u8>, from: usize, to: usize) -> (r: Vec<u8>)
    requires
        from <= to <= v@.len(),
    ensures
        r@ == v@.subrange(from as int, to as int),
{
    let mut out: Vec<u8> = Vec::new();
    let mut i: usize = from;
    while i < to
        invariant
            from <= i <= to <= v@.len(),
            out@ =~= v@.subrange(from as int, i as int),
        decreases to - i,
    {
        proof {
            assert(v@.subrange(from as int, i as int + 1) =~= v@.subrange(from as int, i as int)
                .push(v@[i as int]));
        }
        out.push(v[i]);
        i += 1;
    }
    proof {
        assert(out@ =~= v@.subrange(from as int, to as int));
    }
    out
}

/// The big-endian value of a byte string, where it fits a machine word.
pub fn be_val_u64(v: &Vec<u8>) -> (r: Option<u64>)
    ensures
        r is Some <==> be_val(v@) <= u64::MAX,
        r is Some ==> r->Some_0 as nat == be_val(v@),
{
    let mut acc: u64 = 0;
    let mut i: usize = 0;
    proof {
        assert(v@.subrange(0, 0) =~= Seq::<u8>::empty());
    }
    while i < v.len()
        invariant
            0 <= i <= v@.len(),
            acc as nat == be_val(v@.subrange(0, i as int)),
        decreases v@.len() - i,
    {
        proof {
            let pre = v@.subrange(0, i as int);
            let post = v@.subrange(0, i as int + 1);
            assert(post.drop_last() =~= pre);
            assert(post.last() == v@[i as int]);
        }
        if acc >= 0x100_0000_0000_0000 {
            proof {
                let post = v@.subrange(0, i as int + 1);
                assert(be_val(post) == acc as nat * 256 + v@[i as int] as nat);
                assert(acc as nat * 256 >= 0x100_0000_0000_0000 * 256) by (nonlinear_arith)
                    requires
                        acc >= 0x100_0000_0000_0000,
                ;
                lemma_be_val_prefix_le(v@, i as int + 1);
            }
            return None;
        }
        acc = acc * 256 + v[i] as u64;
        i += 1;
    }
    proof {
        assert(v@.subrange(0, v@.len() as int) =~= v@);
    }
    Some(acc)
}

/// Two byte vectors holding the same bytes.
pub fn bytes_eq(a: &Vec<u8>, b: &Vec<u8>) -> (r: bool)
    ensures
        r == (a@ == b@),
{
    if a.len() != b.len() {
        return false;
    }
    let mut i: usize = 0;
    while i < a.len()
        invariant
            0 <= i <= a@.len(),
            a@.len() == b@.len(),
            forall|j: int| 0 <= j < i ==> a@[j] == b@[j],
        decreases a@.len() - i,
    {
        if a[i] != b[i] {
            return false;
        }
        i += 1;
    }
    proof {
        assert(a@ =~= b@);
    }
    true
}

/// The value of one hexadecimal digit character, either case.
pub open spec fn hex_char_val(c: char) -> Option<u8> {
    if '0' <= c && c <= '9' {
        Some((c as int - 48) as u8)
    } else if 'a' <= c && c <= 'f' {
        Some((c as int - 87) as u8)
    } else if 'A' <= c && c <= 'F' {
        Some((c as int - 55) as u8)
    } else {
        None
    }
}

/// The 20 bytes of a contract address written as `0x` plus 40 hex digits,
/// either case; any other text denotes no address.
pub open spec fn parse_address_chars(s: Seq<char>) -> Option<Seq<u8>> {
    if s.len() == 42 && s[0] == '0' && s[1] == 'x' && (forall|i: int|
        2 <= i < 42 ==> hex_char_val(#[trigger] s[i]) is Some) {
        Some(
            Seq::new(
                20,
                |i: int|
                    (hex_char_val(s[2 * i + 2])->Some_0 * 16 + hex_char_val(
                        s[2 * i + 3],
                    )->Some_0) as u8,
            ),
        )
    } else {
        None
    }
}

/// The value of one hexadecimal digit character, either case.
pub fn hex_char_val_exec(c: char) -> (r: Option<u8>)
    ensures
        r == hex_char_val(c),
{
    if '0' <= c && c <= '9' {
        Some((c as u32 - 48) as u8)
    } else if 'a' <= c && c <= 'f' {
        Some((c as u32 - 87) as u8)
    } else if 'A' <= c && c <= 'F' {
        Some((c as u32 - 55) as u8)
    } else {
        None
    }
}

/// Parses a contract address written as `0x` plus 40 hex digits.
pub fn parse_address(s: &str) -> (r: Option<Vec<u8>>)
    ensures
        r is Some <==> parse_address_chars(s@) is Some,
        r is Some ==> r->Some_0@ == parse_address_chars(s@)->Some_0,
{
    let chars = str_chars(s);
    if chars.len() != 42 {
        return None;
    }
    if chars[0] != '0' || chars[1] != 'x' {
        return None;
    }
    let mut out: Vec<u8> = Vec::new();
    let mut i: usize = 0;
    while i < 20
        invariant
            0 <= i <= 20,
            chars@ == s@,
            chars@.len() == 42,
            chars@[0] == '0' && chars@[1] == 'x',
            out@.len() == i,
            forall|j: int|
                2 <= j < 2 * i + 2 ==> hex_char_val(#[trigger] chars@[j]) is Some,
            forall|j: int|
                0 <= j < i ==> out@[j] == (hex_char_val(chars@[2 * j + 2])->Some_0 * 16
                    + hex_char_val(chars@[2 * j + 3])->Some_0) as u8,
        decreases 20 - i,
    {
        let hi = match hex_char_val_exec(chars[2 * i + 2]) {
            Some(v) => v,
            None => {
                return None;
            },
        };
        let lo = match hex_char_val_exec(chars[2 * i + 3]) {
            Some(v) => v,
            None => {
                return None;
            },
        };
        out.push(hi * 16 + lo);
        i += 1;
    }
    proof {
        let expect = parse_address_chars(s@)->Some_0;
        assert(out@ =~= expect);
    }
    Some(out)
}

/// The sequence with ASCII uppercase letters replaced by lowercase ones.
pub open spec fn ascii_lower_chars(s: Seq<char>) -> Seq<char> {
    s.map_values(
        |c: char|
            if 'A' <= c && c <= 'Z' {
                ((c as int + 32) as char)
            } else {
                c
            },
    )
}

/// Compares a string against another with the other's ASCII letters lowered.
pub fn eq_str_lower(a: &str, b: &str) -> (r: bool)
    ensures
        r == (a@ == ascii_lower_chars(b@)),
{
    let ca = str_chars(a);
    let cb = str_chars(b);
    if ca.len() != cb.len() {
        proof {
            assert(ascii_lower_chars(b@).len() == b@.len());
        }
        return false;
    }
    let mut i: usize = 0;
    while i < ca.len()
        invariant
            0 <= i <= ca@.len(),
            ca@ == a@,
            cb@ == b@,
            ca@.len() == cb@.len(),
            forall|j: int| 0 <= j < i ==> a@[j] == ascii_lower_chars(b@)[j],
        decreases ca@.len() - i,
    {
        let y = lower_char_exec(cb[i]);
        if ca[i] != y {
            proof {
                assert(a@[i as int] != ascii_lower_chars(b@)[i as int]);
            }
            return false;
        }
        i += 1;
    }
    proof {
        assert(a@ =~= ascii_lower_chars(b@));
    }
    true
}

/// Lowers one ASCII uppercase letter.
pub fn lower_char_exec(c: char) -> (r: char)
    ensures
        r == ascii_lower_chars(seq![c])[0],
{
    if 'A' <= c && c <= 'Z' {
        let v: u8 = (c as u32 + 32) as u8;
        proof {
            assert('A' as u32 <= c as u32 <= 'Z' as u32);
            assert((v as char) as int == c as int + 32);
        }
        v as char
    } else {
        c
    }
}

} // verus!
