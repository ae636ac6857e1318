//! Decimal integers: the grammar that `str::parse` accepts for the integer
//! types, and the digits that `{}` writes for them.
use vstd::prelude::*;
use vstd::utf8::{valid_utf8, decode_utf8, encode_utf8, is_ascii_chars};
use crate::text::byte_chars;

verus! {

pub open spec fn is_digit(c: char) -> bool {
    '0' <= c && c <= '9'
}

pub open spec fn digit_value(c: char) -> int {
    c as int - '0' as int
}

pub open spec fn digit_char(d: int) -> char {
    (d + 48) as char
}

pub open spec fn all_digits(s: Seq<char>) -> bool {
    forall|i: int| 0 <= i < s.len() ==> is_digit(#[trigger] s[i])
}

/// The number that the digits `s` spell, most significant first.
pub open spec fn digits_value(s: Seq<char>) -> int
    decreases s.len(),
{
    if s.len() == 0 {
        0
    } else {
        digits_value(s.drop_last()) * 10 + digit_value(s.last())
    }
}

/// What `str::parse` gives for an integer type with range `lo..=hi`: an
/// optional `'+'` (or `'-'` for a signed type) followed by one or more ASCII
/// digits, whose value must lie in the range.
pub open spec fn parse_int(s: Seq<char>, signed: bool, lo: int, hi: int) -> Option<int> {
    let negative = signed && s.len() > 0 && s[0] == '-';
    let digits = if s.len() > 0 && (s[0] == '+' || negative) {
        s.drop_first()
    } else {
        s
    };
    if digits.len() > 0 && all_digits(digits) {
        let v = if negative {
            -digits_value(digits)
        } else {
            digits_value(digits)
        };
        if lo <= v <= hi {
            Some(v)
        } else {
            None
        }
    } else {
        None
    }
}

pub open spec fn parse_u64_spec(s: Seq<char>) -> Option<int> {
    parse_int(s, false, 0, u64::MAX as int)
}

pub open spec fn parse_u32_spec(s: Seq<char>) -> Option<int> {
    parse_int(s, false, 0, u32::MAX as int)
}

pub open spec fn parse_i32_spec(s: Seq<char>) -> Option<int> {
    parse_int(s, true, i32::MIN as int, i32::MAX as int)
}

/// The decimal digits of `n`, with no leading zeros.
pub open spec fn decimal(n: nat) -> Seq<char>
    decreases n,
{
    if n < 10 {
        seq![digit_char(n as int)]
    } else {
        decimal(n / 10).push(digit_char((n % 10) as int))
    }
}

/// How `{}` writes the integer `i`.
pub open spec fn signed_decimal(i: int) -> Seq<char> {
    if i < 0 {
        seq!['-'] + decimal((-i) as nat)
    } else {
        decimal(i as nat)
    }
}

pub proof fn lemma_digits_value_nonneg(s: Seq<char>)
    requires
        all_digits(s),
    ensures
        digits_value(s) >= 0,
    decreases s.len(),
{
    if s.len() > 0 {
        lemma_digits_value_nonneg(s.drop_last());
    }
}

/// A prefix of a run of digits is worth no more than the whole run.
pub proof fn lemma_digits_value_prefix(s: Seq<char>, k: int)
    requires
        all_digits(s),
        0 <= k <= s.len(),
    ensures
        digits_value(s.take(k)) <= digits_value(s),
    decreases s.len(),
{
    if k < s.len() {
        let t = s.drop_last();
        assert(t.take(k) =~= s.take(k));
        lemma_digits_value_prefix(t, k);
        lemma_digits_value_nonneg(t);
        assert(is_digit(s[s.len() - 1]));
    } else {
        assert(s.take(k) =~= s);
    }
}

/// `decimal(n)` is a non-empty run of digits whose value is `n`.
pub proof fn lemma_decimal(n: nat)
    ensures
        decimal(n).len() > 0,
        all_digits(decimal(n)),
        digits_value(decimal(n)) == n,
    decreases n,
{
    if n >= 10 {
        lemma_decimal(n / 10);
        let d = decimal(n);
        assert(d.drop_last() =~= decimal(n / 10));
        assert(digit_char((n % 10) as int) as int == n % 10 + 48);
        assert(d.last() == digit_char((n % 10) as int));
        assert(digit_value(d.last()) == n % 10);
        assert(digits_value(d) == digits_value(d.drop_last()) * 10 + digit_value(d.last()));
        assert((n / 10) * 10 + n % 10 == n);
        assert(forall|i: int| 0 <= i < d.len() - 1 ==> d[i] == decimal(n / 10)[i]);
    } else {
        let d = decimal(n);
        assert(d.drop_last() =~= Seq::<char>::empty());
        assert(digit_char(n as int) as int == n + 48);
        assert(digits_value(d) == digits_value(d.drop_last()) * 10 + digit_value(d.last()));
    }
}

/// Parsing what `{}` writes gives the number back.
pub proof fn lemma_parse_signed_decimal(i: int, signed: bool, lo: int, hi: int)
    requires
        lo <= i <= hi,
        i < 0 ==> signed,
    ensures
        parse_int(signed_decimal(i), signed, lo, hi) == Some(i),
{
    if i < 0 {
        lemma_decimal((-i) as nat);
        let s = signed_decimal(i);
        assert(s.drop_first() =~= decimal((-i) as nat));
    } else {
        lemma_decimal(i as nat);
        let d = decimal(i as nat);
        assert(is_digit(d[0]));
    }
}

/// What `str::from_utf8` followed by `str::parse` gives for the bytes `b`:
/// `None` for bytes that are not UTF-8, else the number that their text
/// spells.
pub open spec fn parse_int_utf8(b: Seq<u8>, signed: bool, lo: int, hi: int) -> Option<int> {
    if valid_utf8(b) {
        parse_int(decode_utf8(b), signed, lo, hi)
    } else {
        None
    }
}

/// Only ASCII text can spell a number.
proof fn lemma_parse_int_ascii(s: Seq<char>, signed: bool, lo: int, hi: int)
    requires
        parse_int(s, signed, lo, hi) is Some,
    ensures
        is_ascii_chars(s),
{
    let negative = signed && s.len() > 0 && s[0] == '-';
    let stripped = s.len() > 0 && (s[0] == '+' || negative);
    let digits = if stripped { s.drop_first() } else { s };
    assert forall|i: int| 0 <= i < s.len() implies '\0' <= #[trigger] s[i] <= '\u{7f}' by {
        if stripped && i == 0 {
        } else if stripped {
            assert(s[i] == digits[i - 1]);
            assert(is_digit(digits[i - 1]));
        } else {
            assert(is_digit(digits[i]));
        }
    }
}

/// Reading each byte as one character and then parsing gives what reading
/// the bytes as UTF-8 and then parsing gives: both reject every non-ASCII
/// byte, and on ASCII bytes the two readings are the same text.
pub proof fn lemma_parse_bytes_as_utf8(b: Seq<u8>, signed: bool, lo: int, hi: int)
    ensures
        parse_int(byte_chars(b), signed, lo, hi) == parse_int_utf8(b, signed, lo, hi),
{
    let c = byte_chars(b);
    if forall|k: int| 0 <= k < b.len() ==> b[k] < 0x80 {
        assert(is_ascii_chars(c)) by {
            assert forall|i: int| 0 <= i < c.len() implies '\0' <= #[trigger] c[i] <= '\u{7f}' by {
                assert(b[i] < 0x80);
            }
        }
        vstd::utf8::is_ascii_chars_encode_utf8(c);
        assert forall|i: int| 0 <= i < b.len() implies encode_utf8(c)[i] == b[i] by {
            assert(c[i] as u8 == encode_utf8(c)[i]);
            assert(c[i] as u32 == b[i] as u32);
        }
        assert(encode_utf8(c) =~= b);
        vstd::utf8::encode_utf8_valid_utf8(c);
        vstd::utf8::encode_utf8_decode_utf8(c);
    } else {
        let k = choose|k: int| 0 <= k < b.len() && !(b[k] < 0x80);
        if parse_int(c, signed, lo, hi) is Some {
            lemma_parse_int_ascii(c, signed, lo, hi);
            assert('\0' <= c[k] <= '\u{7f}');
            assert(false);
        }
        if valid_utf8(b) {
            let d = decode_utf8(b);
            vstd::utf8::decode_utf8_encode_utf8(b);
            if parse_int(d, signed, lo, hi) is Some {
                lemma_parse_int_ascii(d, signed, lo, hi);
                vstd::utf8::is_ascii_chars_encode_utf8(d);
                assert(d[k] as u8 == encode_utf8(d)[k]);
                assert('\0' <= d[k] <= '\u{7f}');
                assert(false);
            }
        }
    }
}

/// Parses `v[from..to]` as an integer in `lo..=hi`, with the grammar of
/// `str::parse` (see `parse_int`).
pub fn parse_int_range(
    v: &Vec<char>,
    from: usize,
    to: usize,
    signed: bool,
    lo: i128,
    hi: i128,
) -> (r: Option<i128>)
    requires
        from <= to <= v.len(),
        -(u64::MAX as int) <= lo,
        hi <= u64::MAX,
    ensures
        r matches Some(x) ==> parse_int(v@.subrange(from as int, to as int), signed, lo as int, hi as int) == Some(x as int),
        r is None ==> parse_int(v@.subrange(from as int, to as int), signed, lo as int, hi as int) is None,
{
    let ghost s = v@.subrange(from as int, to as int);
    let mut i = from;
    let mut negative = false;
    if i < to && v[i] == '+' {
        i += 1;
    } else if signed && i < to && v[i] == '-' {
        negative = true;
        i += 1;
    }
    let ghost digits = v@.subrange(i as int, to as int);
    assert(digits == (if s.len() > 0 && (s[0] == '+' || (signed && s.len() > 0 && s[0] == '-')) {
        s.drop_first()
    } else {
        s
    }));
    assert(negative == (signed && s.len() > 0 && s[0] == '-'));
    if i == to {
        return None;
    }
    let start = i;
    let mut acc: u64 = 0;
    while i < to
        invariant
            from <= start <= i <= to <= v.len(),
            digits == v@.subrange(start as int, to as int),
            s == v@.subrange(from as int, to as int),
            negative == (signed && s.len() > 0 && s[0] == '-'),
            digits == (if s.len() > 0 && (s[0] == '+' || negative) {
                s.drop_first()
            } else {
                s
            }),
            -(u64::MAX as int) <= lo,
            hi <= u64::MAX,
            all_digits(v@.subrange(start as int, i as int)),
            acc as int == digits_value(v@.subrange(start as int, i as int)),
        decreases to - i,
    {
        let c = v[i];
        let ghost next = v@.subrange(start as int, i + 1);
        assert(next.drop_last() =~= v@.subrange(start as int, i as int));
        assert(next.take(i + 1 - start) =~= next);
        assert(digits.take(i + 1 - start) =~= next);
        if !('0' <= c && c <= '9') {
            assert(!is_digit(digits[i - start]));
            return None;
        }
        let d = (c as u32 - 48) as u64;
        let m = acc.checked_mul(10);
        if m.is_none() {
            proof {
                if all_digits(digits) {
                    lemma_digits_value_prefix(digits, i + 1 - start);
                }
            }
            return None;
        }
        let m = m.unwrap();
        let t = m.checked_add(d);
        if t.is_none() {
            proof {
                if all_digits(digits) {
                    lemma_digits_value_prefix(digits, i + 1 - start);
                }
            }
            return None;
        }
        acc = t.unwrap();
        i += 1;
        assert(all_digits(v@.subrange(start as int, i as int)));
    }
    let val: i128 = if negative {
        -(acc as i128)
    } else {
        acc as i128
    };
    if lo <= val && val <= hi {
        Some(val)
    } else {
        None
    }
}

/// `str::parse::<u64>` on `v[from..to]`.
pub fn parse_u64_range(v: &Vec<char>, from: usize, to: usize) -> (r: Option<u64>)
    requires
        from <= to <= v.len(),
    ensures
        r matches Some(x) ==> parse_u64_spec(v@.subrange(from as int, to as int)) == Some(x as int),
        r is None ==> parse_u64_spec(v@.subrange(from as int, to as int)) is None,
{
    match parse_int_range(v, from, to, false, 0, u64::MAX as i128) {
        Some(x) => Some(x as u64),
        None => None,
    }
}

/// `str::parse::<u32>` on `v[from..to]`.
pub fn parse_u32_range(v: &Vec<char>, from: usize, to: usize) -> (r: Option<u32>)
    requires
        from <= to <= v.len(),
    ensures
        r matches Some(x) ==> parse_u32_spec(v@.subrange(from as int, to as int)) == Some(x as int),
        r is None ==> parse_u32_spec(v@.subrange(from as int, to as int)) is None,
{
    match parse_int_range(v, from, to, false, 0, u32::MAX as i128) {
        Some(x) => Some(x as u32),
        None => None,
    }
}

/// `str::parse::<i32>` on `v[from..to]`.
pub fn parse_i32_range(v: &Vec<char>, from: usize, to: usize) -> (r: Option<i32>)
    requires
        from <= to <= v.len(),
    ensures
        r matches Some(x) ==> parse_i32_spec(v@.subrange(from as int, to as int)) == Some(x as int),
        r is None ==> parse_i32_spec(v@.subrange(from as int, to as int)) is None,
{
    match parse_int_range(v, from, to, true, i32::MIN as i128, i32::MAX as i128) {
        Some(x) => Some(x as i32),
        None => None,
    }
}

/// Appends the decimal digits of `n` to `out`.
pub fn push_decimal(out: &mut String, n: u64)
    ensures
        final(out)@ == old(out)@ + decimal(n as nat),
    decreases n,
{
    if n >= 10 {
        push_decimal(out, n / 10);
    }
    let d = (n % 10) as u8;
    out.push((d + 48) as char);
    assert(out@ =~= old(out)@ + decimal(n as nat));
}

/// Appends `i` as `{}` writes it to `out`.
pub fn push_signed_decimal(out: &mut String, i: i64)
    ensures
        final(out)@ == old(out)@ + signed_decimal(i as int),
{
    if i < 0 {
        out.push('-');
        let m: u64 = if i == i64::MIN {
            9223372036854775808u64
        } else {
            (-i) as u64
        };
        push_decimal(out, m);
        assert(out@ =~= old(out)@ + signed_decimal(i as int));
    } else {
        push_decimal(out, i as u64);
    }
}

} // verus!
