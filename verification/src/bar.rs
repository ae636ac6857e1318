//! The ten-cell progress bar of a utilization figure, and the pace marker
//! that shows how much of the rate-limit window has elapsed.
use vstd::prelude::*;
use crate::calendar::trunc_div;

verus! {

/// `u` clamped to `0..=100`.
pub open spec fn clamp_percent(u: int) -> int {
    if u < 0 {
        0
    } else if u > 100 {
        100
    } else {
        u
    }
}

/// Half-cells that a utilization of `util` percent fills (0 to 20).
pub open spec fn half_steps(util: int) -> int {
    clamp_percent(util) * 20 / 100
}

pub open spec fn repeat_char(c: char, n: int) -> Seq<char> {
    Seq::new(n as nat, |i: int| c)
}

/// A space, then `util`% of ten cells: full cells, at most one half cell,
/// and empty cells for the rest.
pub open spec fn bar_text(util: int) -> Seq<char> {
    let full = half_steps(util) / 2;
    let half = half_steps(util) % 2;
    seq![' '] + repeat_char('█', full) + repeat_char('▓', half) + repeat_char('░', 10 - full - half)
}

fn push_repeat(out: &mut String, c: char, n: usize)
    ensures
        final(out)@ == old(out)@ + repeat_char(c, n as int),
{
    let mut i: usize = 0;
    while i < n
        invariant
            i <= n,
            out@ == old(out)@ + repeat_char(c, i as int),
        decreases n - i,
    {
        out.push(c);
        i += 1;
        assert(out@ =~= old(out)@ + repeat_char(c, i as int));
    }
}

/// The progress bar of a utilization of `util` percent; values outside
/// `0..=100` are clamped. It is always 11 characters long.
pub fn build_bar(util: i32) -> (bar: String)
    ensures
        bar@ == bar_text(util as int),
        bar@.len() == 11,
        bar@[0] == ' ',
        0 <= util <= 100 ==> forall|i: int| 1 <= i <= 10 ==> #[trigger] bar@[i] == bar_cell(util as int, i),
{
    proof {
        lemma_bar_cells(util as int);
    }
    let util = if util < 0 {
        0
    } else if util > 100 {
        100
    } else {
        util
    };
    let half_steps = (util * 20 / 100) as usize;
    let full = half_steps / 2;
    let has_half = half_steps % 2;
    let empty = 10 - full - has_half;
    let mut bar = String::new();
    bar.push(' ');
    push_repeat(&mut bar, '█', full);
    push_repeat(&mut bar, '▓', has_half);
    push_repeat(&mut bar, '░', empty);
    bar
}

/// A higher utilization never fills fewer half-cells.
pub proof fn lemma_bar_fill_monotone(a: int, b: int)
    requires
        a <= b,
    ensures
        half_steps(a) <= half_steps(b),
        0 <= half_steps(a) <= 20,
{
    let ca = clamp_percent(a);
    let cb = clamp_percent(b);
    assert(ca * 20 / 100 <= cb * 20 / 100) by (nonlinear_arith)
        requires
            0 <= ca <= cb <= 100,
    ;
    assert(0 <= ca * 20 / 100 <= 20) by (nonlinear_arith)
        requires
            0 <= ca <= 100,
    ;
}

/// Cell `i` (1 to 10) of the bar for a utilization `u` in `0..=100`: full
/// for each whole ten percent, a half cell when the rest is at least five
/// percent, empty otherwise.
pub open spec fn bar_cell(u: int, i: int) -> char {
    if i <= u / 10 {
        '█'
    } else if i == u / 10 + 1 && u % 10 >= 5 {
        '▓'
    } else {
        '░'
    }
}

/// The bar of `u` percent (`0..=100`) has `u / 10` full cells and a half
/// cell exactly when `u % 10 >= 5`; values below 0 draw as 0 and values above
/// 100 as 100.
pub proof fn lemma_bar_cells(util: int)
    ensures
        bar_text(util).len() == 11,
        bar_text(util)[0] == ' ',
        0 <= util <= 100 ==> forall|i: int| 1 <= i <= 10 ==> #[trigger] bar_text(util)[i] == bar_cell(util, i),
        util < 0 ==> bar_text(util) == bar_text(0),
        util > 100 ==> bar_text(util) == bar_text(100),
{
    lemma_bar_fill_monotone(util, util);
    if 0 <= util <= 100 {
        let h = half_steps(util);
        assert(h / 2 == util / 10 && (h % 2 == 1) == (util % 10 >= 5) && h % 2 <= 1) by (nonlinear_arith)
            requires
                h == util * 20 / 100,
                0 <= util <= 100,
        ;
        let full = h / 2;
        let half = h % 2;
        let t = bar_text(util);
        assert forall|i: int| 1 <= i <= 10 implies #[trigger] t[i] == bar_cell(util, i) by {
            if i <= full {
                assert(t[i] == repeat_char('█', full)[i - 1]);
            } else if i <= full + half {
                assert(t[i] == repeat_char('▓', half)[i - 1 - full]);
            } else {
                assert(t[i] == repeat_char('░', 10 - full - half)[i - 1 - full - half]);
            }
        }
    }
    if util < 0 {
        assert(half_steps(util) == half_steps(0));
    }
    if util > 100 {
        assert(half_steps(util) == half_steps(100));
    }
}

/// Position (1 to 10) of the pace marker in a bar: the elapsed share of the
/// window, in tenths, rounded.
pub open spec fn pace_marker_index(remaining: int, window: int) -> int {
    let elapsed = window - remaining;
    let pos = trunc_div(elapsed * 10 + trunc_div(window, 2), window);
    (if pos < 0 {
        0
    } else if pos > 9 {
        9
    } else {
        pos
    }) + 1
}

/// Whether the pace-marker arithmetic stays within `i64` (otherwise the
/// computation would overflow or divide by zero).
pub open spec fn pace_marker_computable(remaining: int, window: int) -> bool {
    let elapsed = window - remaining;
    let num = elapsed * 10 + trunc_div(window, 2);
    &&& window != 0
    &&& i64::MIN <= elapsed <= i64::MAX
    &&& i64::MIN <= elapsed * 10 <= i64::MAX
    &&& i64::MIN <= num <= i64::MAX
    &&& !(window == -1 && num == i64::MIN)
}

/// The pace marker always lands on one of the ten cells of a bar, never
/// on its leading space.
pub proof fn lemma_pace_marker_in_bar(remaining: int, window: int, util: int)
    ensures
        1 <= pace_marker_index(remaining, window) <= 10,
        pace_marker_index(remaining, window) < bar_text(util).len(),
{
    lemma_bar_fill_monotone(util, util);
}

/// With the reset ahead within the window, the marker sits on the cell of
/// the elapsed share of the window rounded to the nearest tenth (cell `k`
/// stands for `(k - 1)` tenths), except that shares past 9.5 tenths stay on
/// the last cell.
pub proof fn lemma_pace_marker_rounds(remaining: int, window: int)
    requires
        window > 0,
        0 < remaining < window,
    ensures
        1 <= pace_marker_index(remaining, window) <= 10,
        10 * (window - remaining) - (pace_marker_index(remaining, window) - 1) * window >= -(window
            / 2),
        pace_marker_index(remaining, window) < 10 ==> 10 * (window - remaining) - (
        pace_marker_index(remaining, window) - 1) * window < window - window / 2,
{
    let e = window - remaining;
    let num = e * 10 + window / 2;
    let q = num / window;
    assert(trunc_div(window, 2) == window / 2);
    assert(trunc_div(num, window) == q);
    assert(q * window <= num < q * window + window) by (nonlinear_arith)
        requires
            window > 0,
            num >= 0,
            q == num / window,
    {
        vstd::arithmetic::div_mod::lemma_fundamental_div_mod(num, window);
        vstd::arithmetic::div_mod::lemma_mod_bound(num, window);
    }
    assert(q >= 0) by (nonlinear_arith)
        requires
            window > 0,
            num >= 0,
            q == num / window,
    ;
    let k = pace_marker_index(remaining, window);
    if q > 9 {
        assert(k == 10);
        assert((k - 1) * window == 9 * window);
        assert(9 * window <= q * window) by (nonlinear_arith)
            requires
                q > 9,
                window > 0,
        ;
    } else {
        assert(k - 1 == q);
    }
}

/// The more of the window has elapsed, the further right the marker sits.
pub proof fn lemma_pace_marker_monotone(later: int, earlier: int, window: int)
    requires
        window > 0,
        0 < earlier <= later < window,
    ensures
        pace_marker_index(later, window) <= pace_marker_index(earlier, window),
{
    let n1 = (window - later) * 10 + window / 2;
    let n2 = (window - earlier) * 10 + window / 2;
    assert(trunc_div(window, 2) == window / 2);
    assert(trunc_div(n1, window) == n1 / window);
    assert(trunc_div(n2, window) == n2 / window);
    assert(n1 / window <= n2 / window) by (nonlinear_arith)
        requires
            window > 0,
            0 <= n1 <= n2,
    {
        vstd::arithmetic::div_mod::lemma_div_is_ordered(n1, n2, window);
    }
}

/// `a / b` on `i64`, which rounds toward zero.
#[verifier::spinoff_prover]
fn div_toward_zero(a: i64, b: i64) -> (q: i64)
    requires
        b != 0,
        !(a == i64::MIN && b == -1),
    ensures
        q == trunc_div(a as int, b as int),
{
    if b > 0 {
        a / b
    } else if b == i64::MIN {
        if a == i64::MIN {
            1
        } else {
            0
        }
    } else if b == -1 {
        -a
    } else {
        let d = -b;
        let q = a / d;
        assert(-(i64::MAX as int) <= q <= i64::MAX) by (nonlinear_arith)
            requires
                d >= 2,
                i64::MIN <= a <= i64::MAX,
                q == trunc_div(a as int, d as int),
        {
            if a >= 0 {
                assert(a / d <= a);
            } else {
                assert((-(a as int)) / (d as int) <= -(a as int));
            }
        }
        -q
    }
}

/// `bar` with the character at the pace-marker position replaced by `┃`.
pub fn insert_pace_marker(bar: &str, remaining: i64, window: i64) -> (r: String)
    requires
        pace_marker_computable(remaining as int, window as int),
    ensures
        r@ == (if pace_marker_index(remaining as int, window as int) < bar@.len() {
            bar@.update(pace_marker_index(remaining as int, window as int), '┃')
        } else {
            bar@
        }),
        r@.len() == bar@.len(),
{
    let elapsed = window - remaining;
    let half_window = window / 2;
    assert(half_window == trunc_div(window as int, 2));
    let num = elapsed * 10 + half_window;
    let q = div_toward_zero(num, window);
    let pos: usize = if q < 0 {
        0
    } else if q > 9 {
        9
    } else {
        q as usize
    };
    let target = pos + 1;
    let ghost idx = pace_marker_index(remaining as int, window as int);
    assert(target == idx);
    let chars = crate::text::chars_of(bar);
    let mut result = String::new();
    let mut i: usize = 0;
    while i < chars.len()
        invariant
            chars@ == bar@,
            i <= chars.len(),
            target == idx,
            result@ == (if idx < i {
                bar@.take(i as int).update(idx, '┃')
            } else {
                bar@.take(i as int)
            }),
        decreases chars.len() - i,
    {
        if i == target {
            result.push('┃');
        } else {
            result.push(chars[i]);
        }
        i += 1;
        assert(result@ =~= (if idx < i {
            bar@.take(i as int).update(idx, '┃')
        } else {
            bar@.take(i as int)
        }));
    }
    assert(bar@.take(bar@.len() as int) =~= bar@);
    result
}

/// Byte length of a UTF-8 sequence, read from its first byte.
pub open spec fn utf8_len_of_first_byte(first_byte: u8) -> int {
    if first_byte <= 0x7f {
        1
    } else if 0xc0 <= first_byte <= 0xdf {
        2
    } else if 0xe0 <= first_byte <= 0xef {
        3
    } else {
        4
    }
}

/// Byte length of a UTF-8 sequence, read from its first byte.
pub fn utf8_char_len(first_byte: u8) -> (n: usize)
    ensures
        n == utf8_len_of_first_byte(first_byte),
{
    if first_byte <= 0x7f {
        1
    } else if 0xc0 <= first_byte && first_byte <= 0xdf {
        2
    } else if 0xe0 <= first_byte && first_byte <= 0xef {
        3
    } else {
        4
    }
}

/// For every character, `utf8_char_len` of the first byte of its UTF-8
/// encoding is the length of that encoding.
pub proof fn lemma_utf8_char_len_of_encoding(c: char)
    ensures
        utf8_len_of_first_byte(vstd::utf8::encode_scalar(c as u32)[0])
            == vstd::utf8::encode_scalar(c as u32).len(),
{
    vstd::utf8::char_is_scalar(c);
    let s = c as u32;
    if vstd::utf8::has_width_1_encoding(s) {
        assert((s & 0x7F) as u8 <= 0x7f) by (bit_vector);
    } else if vstd::utf8::has_width_2_encoding(s) {
        assert(0xc0 <= (0xC0 | ((s >> 6) & 0x1F) as u8) as u8 <= 0xdf) by (bit_vector);
    } else if vstd::utf8::has_width_3_encoding(s) {
        assert(0xe0 <= (0xE0 | ((s >> 12) & 0x0F) as u8) as u8 <= 0xef) by (bit_vector);
    } else {
        assert(0xf0 <= (0xF0 | ((s >> 18) & 0x7) as u8) as u8) by (bit_vector);
    }
}

proof fn lemma_encode_utf8_concat(a: Seq<char>, b: Seq<char>)
    ensures
        vstd::utf8::encode_utf8(a + b) == vstd::utf8::encode_utf8(a) + vstd::utf8::encode_utf8(b),
    decreases a.len(),
{
    if a.len() > 0 {
        assert((a + b).drop_first() =~= a.drop_first() + b);
        assert((a + b)[0] == a[0]);
        lemma_encode_utf8_concat(a.drop_first(), b);
        assert(vstd::utf8::encode_utf8(a + b) =~= vstd::utf8::encode_utf8(a)
            + vstd::utf8::encode_utf8(b));
    } else {
        assert(a + b =~= b);
        assert(vstd::utf8::encode_utf8(a) =~= Seq::<u8>::empty());
        assert(Seq::<u8>::empty() + vstd::utf8::encode_utf8(b) =~= vstd::utf8::encode_utf8(b));
    }
}

/// In the UTF-8 bytes of a string `s`, at the char boundary where the
/// character `s[k]` starts (just after the encoding of `s[..k]`),
/// `utf8_char_len` of the byte there is the byte length of `s[k]`.
pub proof fn lemma_utf8_char_len_at_boundary(s: Seq<char>, k: int)
    requires
        0 <= k < s.len(),
    ensures
        ({
            let bytes = vstd::utf8::encode_utf8(s);
            let i = vstd::utf8::encode_utf8(s.take(k)).len() as int;
            &&& i < bytes.len()
            &&& utf8_len_of_first_byte(bytes[i]) == vstd::utf8::encode_scalar(s[k] as u32).len()
        }),
{
    let head = s.take(k);
    let tail = s.skip(k);
    assert(s =~= head + tail);
    lemma_encode_utf8_concat(head, tail);
    assert(tail[0] == s[k]);
    let first = vstd::utf8::encode_scalar(s[k] as u32);
    assert(vstd::utf8::encode_utf8(tail) == first + vstd::utf8::encode_utf8(tail.drop_first()));
    vstd::utf8::char_is_scalar(s[k]);
    assert(first.len() > 0);
    let bytes = vstd::utf8::encode_utf8(s);
    let i = vstd::utf8::encode_utf8(head).len() as int;
    assert(bytes[i] == first[0]);
    lemma_utf8_char_len_of_encoding(s[k]);
}

} // verus!
