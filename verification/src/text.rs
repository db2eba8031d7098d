//! Plain-text building blocks: decimal numbers, durations and terminal-safe
//! quoting of untrusted strings.

use vstd::prelude::*;

verus! {

/// Appends one character to a string (std `String::push`).
#[verifier::external_body]
pub(crate) fn push_char(s: &mut String, c: char)
    ensures
        final(s)@ == old(s)@.push(c),
{
    s.push(c);
}

/// The ASCII digit of a value below ten.
pub open spec fn digit_char(d: int) -> char
    recommends
        0 <= d < 10,
{
    (('0' as int) + d) as char
}

/// The decimal digits of a nonnegative integer, without leading zeros.
pub open spec fn digits(n: nat) -> Seq<char>
    decreases n,
{
    if n < 10 {
        seq![digit_char(n as int)]
    } else {
        digits(n / 10).push(digit_char((n % 10) as int))
    }
}

/// Rust's `Display` text of an integer: optional minus sign, then digits.
pub open spec fn decimal(n: int) -> Seq<char> {
    if n < 0 {
        seq!['-'] + digits((-n) as nat)
    } else {
        digits(n as nat)
    }
}

/// Rust's `{:02}` text of an integer: a single digit gets a leading zero.
pub open spec fn decimal_pad2(n: int) -> Seq<char> {
    if 0 <= n < 10 {
        seq!['0', digit_char(n)]
    } else {
        decimal(n)
    }
}

fn digit(d: u64) -> (c: char)
    requires
        d < 10,
    ensures
        c == digit_char(d as int),
{
    if d == 0 { '0' }
    else if d == 1 { '1' }
    else if d == 2 { '2' }
    else if d == 3 { '3' }
    else if d == 4 { '4' }
    else if d == 5 { '5' }
    else if d == 6 { '6' }
    else if d == 7 { '7' }
    else if d == 8 { '8' }
    else { '9' }
}

fn push_digits(out: &mut String, n: u64)
    ensures
        final(out)@ == old(out)@ + digits(n as nat),
    decreases n,
{
    if n < 10 {
        push_char(out, digit(n));
        assert(digits(n as nat) == seq![digit_char(n as int)]);
    } else {
        push_digits(out, n / 10);
        push_char(out, digit(n % 10));
    }
}

/// Appends the decimal digits of an unsigned number.
pub fn push_unsigned(out: &mut String, n: u64)
    ensures
        final(out)@ == old(out)@ + digits(n as nat),
{
    push_digits(out, n);
}

/// Appends the decimal text of `n`.
pub fn push_decimal(out: &mut String, n: i64)
    ensures
        final(out)@ == old(out)@ + decimal(n as int),
{
    if n < 0 {
        push_char(out, '-');
        let magnitude: u64 = if n == i64::MIN { 9_223_372_036_854_775_808u64 } else { (-n) as u64 };
        push_digits(out, magnitude);
        assert(old(out)@.push('-') + digits(magnitude as nat) == old(out)@ + (seq!['-'] + digits(magnitude as nat)));
    } else {
        push_digits(out, n as u64);
    }
}

/// Rust's truncating integer division (rounds toward zero).
pub open spec fn trunc_div(a: int, b: int) -> int
    recommends
        b > 0,
{
    if a >= 0 {
        a / b
    } else {
        -((-a) / b)
    }
}

/// Rust's remainder, whose sign follows the dividend.
pub open spec fn trunc_rem(a: int, b: int) -> int
    recommends
        b > 0,
{
    a - b * trunc_div(a, b)
}

/// The compact text of a number of seconds: `5s`, `1m 05s`, `1h 01m 05s`.
/// Hours, minutes and seconds are the truncating quotients and remainders,
/// so negative inputs give negative components.
pub open spec fn duration_text(total: int) -> Seq<char> {
    let hours = trunc_div(total, 3600);
    let minutes = trunc_div(trunc_rem(total, 3600), 60);
    let seconds = trunc_rem(total, 60);
    if hours == 0 && minutes == 0 {
        decimal(seconds) + seq!['s']
    } else if hours == 0 {
        decimal(minutes) + seq!['m', ' '] + decimal_pad2(seconds) + seq!['s']
    } else {
        decimal(hours) + seq!['h', ' '] + decimal_pad2(minutes) + seq!['m', ' '] + decimal_pad2(
            seconds,
        ) + seq!['s']
    }
}

/// How a duration of `hours`, `minutes` and `seconds` is written: seconds
/// alone when there are no hours or minutes, minutes and two-digit seconds
/// when there are no hours, else all three, minutes and seconds with two
/// digits.
pub open spec fn duration_layout(hours: int, minutes: int, seconds: int) -> Seq<char> {
    if hours == 0 && minutes == 0 {
        decimal(seconds) + seq!['s']
    } else if hours == 0 {
        decimal(minutes) + seq!['m', ' '] + decimal_pad2(seconds) + seq!['s']
    } else {
        decimal(hours) + seq!['h', ' '] + decimal_pad2(minutes) + seq!['m', ' '] + decimal_pad2(
            seconds,
        ) + seq!['s']
    }
}

/// The text of a duration reads back to it: it shows whole hours (any
/// number of them), minutes below sixty and seconds below sixty that add up
/// to the duration.
pub proof fn law_duration_text_reads_back(total: int) -> (parts: (nat, nat, nat))
    requires
        total >= 0,
    ensures
        parts.1 < 60,
        parts.2 < 60,
        parts.0 * 3600 + parts.1 * 60 + parts.2 == total,
        duration_text(total) == duration_layout(parts.0 as int, parts.1 as int, parts.2 as int),
{
    let h = total / 3600;
    let m = (total % 3600) / 60;
    let s = total % 60;
    assert(total == 3600 * h + total % 3600) by (nonlinear_arith)
        requires h == total / 3600, total >= 0;
    assert(total % 3600 == 60 * m + s && 0 <= m < 60 && 0 <= s < 60) by (nonlinear_arith)
        requires m == (total % 3600) / 60, s == total % 60, total >= 0;
    assert(trunc_rem(total, 3600) == total % 3600);
    assert(trunc_rem(total, 60) == total % 60);
    (h as nat, m as nat, s as nat)
}

fn push_decimal_pad2(out: &mut String, n: i64)
    ensures
        final(out)@ == old(out)@ + decimal_pad2(n as int),
{
    if 0 <= n && n < 10 {
        push_char(out, '0');
        push_char(out, digit(n as u64));
        assert(digits(n as nat) == seq![digit_char(n as int)]);
        assert(old(out)@.push('0').push(digit_char(n as int)) =~= old(out)@ + decimal_pad2(n as int));
    } else {
        push_decimal(out, n);
    }
}

fn duration_parts(seconds: i64) -> (parts: (i64, i64, i64))
    ensures
        parts.0 == trunc_div(seconds as int, 3600),
        parts.1 == trunc_div(trunc_rem(seconds as int, 3600), 60),
        parts.2 == trunc_rem(seconds as int, 60),
{
    let negative = seconds < 0;
    let magnitude: u64 = if seconds == i64::MIN {
        9_223_372_036_854_775_808u64
    } else if negative {
        (-seconds) as u64
    } else {
        seconds as u64
    };
    let h: i64 = (magnitude / 3600) as i64;
    let m: i64 = ((magnitude % 3600) / 60) as i64;
    let s: i64 = (magnitude % 60) as i64;
    proof {
        let a = magnitude as int;
        assert(a == if seconds < 0 { -seconds } else { seconds as int });
        assert(a % 60 == (a % 3600) % 60) by (nonlinear_arith)
            requires a >= 0;
        assert(a == 3600 * (a / 3600) + a % 3600) by (nonlinear_arith)
            requires a >= 0;
        assert(a % 3600 == 60 * ((a % 3600) / 60) + a % 60) by (nonlinear_arith)
            requires a >= 0, a % 60 == (a % 3600) % 60;
    }
    if negative {
        (-h, -m, -s)
    } else {
        (h, m, s)
    }
}

/// Formats a number of seconds as `5s`, `1m 05s` or `1h 01m 05s`.
pub fn format_duration(seconds: i64) -> (text: String)
    ensures
        text@ == duration_text(seconds as int),
{
    let (hours, minutes, secs) = duration_parts(seconds);
    let mut out = String::new();
    if hours == 0 && minutes == 0 {
        push_decimal(&mut out, secs);
        push_char(&mut out, 's');
    } else if hours == 0 {
        push_decimal(&mut out, minutes);
        push_char(&mut out, 'm');
        push_char(&mut out, ' ');
        push_decimal_pad2(&mut out, secs);
        push_char(&mut out, 's');
    } else {
        push_decimal(&mut out, hours);
        push_char(&mut out, 'h');
        push_char(&mut out, ' ');
        push_decimal_pad2(&mut out, minutes);
        push_char(&mut out, 'm');
        push_char(&mut out, ' ');
        push_decimal_pad2(&mut out, secs);
        push_char(&mut out, 's');
    }
    assert(out@ =~= duration_text(seconds as int));
    out
}

/// The lowercase hexadecimal digit of a value below sixteen.
pub open spec fn hex_digit_char(d: int) -> char
    recommends
        0 <= d < 16,
{
    if d < 10 {
        digit_char(d)
    } else {
        (('a' as int) + d - 10) as char
    }
}

/// Rust's `{:x}` text of a nonnegative integer.
pub open spec fn hex_digits(n: nat) -> Seq<char>
    decreases n,
{
    if n < 16 {
        seq![hex_digit_char(n as int)]
    } else {
        hex_digits(n / 16).push(hex_digit_char((n % 16) as int))
    }
}

fn hex_digit(d: u32) -> (c: char)
    requires
        d < 16,
    ensures
        c == hex_digit_char(d as int),
{
    if d < 10 {
        digit(d as u64)
    } else if d == 10 { 'a' }
    else if d == 11 { 'b' }
    else if d == 12 { 'c' }
    else if d == 13 { 'd' }
    else if d == 14 { 'e' }
    else { 'f' }
}

/// Appends the lowercase hexadecimal digits of `n`.
pub fn push_hex(out: &mut String, n: u32)
    ensures
        final(out)@ == old(out)@ + hex_digits(n as nat),
    decreases n,
{
    if n < 16 {
        push_char(out, hex_digit(n));
        assert(hex_digits(n as nat) == seq![hex_digit_char(n as int)]);
    } else {
        push_hex(out, n / 16);
        push_char(out, hex_digit(n % 16));
    }
}

/// `char::is_control`: the Unicode general category Cc, which is exactly
/// U+0000–U+001F and U+007F–U+009F.
pub open spec fn is_control(c: char) -> bool {
    (c as u32) <= 0x1f || (0x7f <= (c as u32) && (c as u32) <= 0x9f)
}

/// Characters that reorder text on a terminal: the Arabic letter mark, the
/// left-to-right and right-to-left marks, the embeddings and overrides
/// U+202A–U+202E, and the isolates U+2066–U+2069.
pub open spec fn is_bidi_control(c: char) -> bool {
    c == '\u{061c}' || c == '\u{200e}' || c == '\u{200f}' || ('\u{202a}' <= c && c <= '\u{202e}')
        || ('\u{2066}' <= c && c <= '\u{2069}')
}

/// How one character is shown on a terminal.
pub open spec fn escape_char(c: char) -> Seq<char> {
    if c == '\\' {
        seq!['\\', '\\']
    } else if c == '\n' {
        seq!['\\', 'n']
    } else if c == '\r' {
        seq!['\\', 'r']
    } else if c == '\t' {
        seq!['\\', 't']
    } else if is_control(c) || is_bidi_control(c) {
        seq!['\\', 'u', '{'] + hex_digits(c as nat) + seq!['}']
    } else {
        seq![c]
    }
}

/// A string with every character escaped by `escape_char`.
pub open spec fn escaped(s: Seq<char>) -> Seq<char>
    decreases s.len(),
{
    if s.len() == 0 {
        Seq::empty()
    } else {
        escaped(s.drop_last()) + escape_char(s.last())
    }
}

/// A character a terminal shows as itself: neither a control character nor
/// a bidirectional formatting character.
pub open spec fn terminal_safe(c: char) -> bool {
    !is_control(c) && !is_bidi_control(c)
}

proof fn lemma_hex_digits_safe(n: nat)
    ensures
        forall|i: int| 0 <= i < hex_digits(n).len() ==> '0' <= #[trigger] hex_digits(n)[i] <= 'f',
    decreases n,
{
    let d = (n % 16) as int;
    assert('0' <= hex_digit_char(d) <= 'f') by {
        if d < 10 {
            assert(digit_char(d) as int == '0' as int + d);
        } else {
            assert(hex_digit_char(d) as int == 'a' as int + d - 10);
        }
    }
    if n >= 16 {
        lemma_hex_digits_safe(n / 16);
        let h = hex_digits(n);
        assert forall|i: int| 0 <= i < h.len() implies '0' <= #[trigger] h[i] <= 'f' by {
            if i < h.len() - 1 {
                assert(h[i] == hex_digits(n / 16)[i]);
            }
        }
    } else {
        assert(n % 16 == n);
    }
}

proof fn lemma_escape_char_safe(c: char)
    ensures
        forall|i: int| 0 <= i < escape_char(c).len() ==> terminal_safe(#[trigger] escape_char(c)[i]),
{
    lemma_hex_digits_safe(c as nat);
    if !(c == '\\' || c == '\n' || c == '\r' || c == '\t') && (is_control(c) || is_bidi_control(c)) {
        let e = escape_char(c);
        let h = hex_digits(c as nat);
        assert forall|i: int| 0 <= i < e.len() implies terminal_safe(#[trigger] e[i]) by {
            if 3 <= i < 3 + h.len() {
                assert(e[i] == h[i - 3]);
            }
        }
    }
}

/// Escaped text holds no control character and no bidirectional formatting
/// character, whatever the input held.
pub proof fn law_escaped_text_is_terminal_safe(s: Seq<char>)
    ensures
        forall|i: int| 0 <= i < escaped(s).len() ==> terminal_safe(#[trigger] escaped(s)[i]),
    decreases s.len(),
{
    if s.len() > 0 {
        law_escaped_text_is_terminal_safe(s.drop_last());
        lemma_escape_char_safe(s.last());
        let a = escaped(s.drop_last());
        let b = escape_char(s.last());
        assert forall|i: int| 0 <= i < escaped(s).len() implies terminal_safe(#[trigger] escaped(s)[i]) by {
            if i < a.len() {
                assert(escaped(s)[i] == a[i]);
            } else {
                assert(escaped(s)[i] == b[i - a.len()]);
            }
        }
    }
}

/// `c` is shown as an escape sequence (starting with a backslash).
pub open spec fn escaped_class(c: char) -> bool {
    c == '\\' || is_control(c) || is_bidi_control(c)
}

proof fn lemma_hex_char_value(d: int)
    requires
        0 <= d < 16,
    ensures
        d < 10 ==> hex_digit_char(d) as int == '0' as int + d,
        d >= 10 ==> hex_digit_char(d) as int == 'a' as int + d - 10,
        hex_digit_char(d) != '}',
{
    if d < 10 {
        assert(digit_char(d) as int == '0' as int + d);
    } else {
        assert(hex_digit_char(d) as int == 'a' as int + d - 10);
    }
}

proof fn lemma_hex_digits_facts(n: nat)
    ensures
        hex_digits(n).len() >= 1,
        n >= 16 ==> hex_digits(n).len() >= 2,
        forall|i: int| 0 <= i < hex_digits(n).len() ==> #[trigger] hex_digits(n)[i] != '}',
    decreases n,
{
    lemma_hex_char_value((n % 16) as int);
    if n >= 16 {
        lemma_hex_digits_facts(n / 16);
        let h = hex_digits(n);
        assert forall|i: int| 0 <= i < h.len() implies #[trigger] h[i] != '}' by {
            if i < h.len() - 1 {
                assert(h[i] == hex_digits(n / 16)[i]);
            }
        }
    } else {
        assert(n % 16 == n);
    }
}

proof fn lemma_hex_char_injective(d: int, e: int)
    requires
        0 <= d < 16,
        0 <= e < 16,
        hex_digit_char(d) == hex_digit_char(e),
    ensures
        d == e,
{
    lemma_hex_char_value(d);
    lemma_hex_char_value(e);
    assert(hex_digit_char(d) as int == hex_digit_char(e) as int);
}

proof fn lemma_hex_digits_injective(n: nat, m: nat)
    requires
        hex_digits(n) == hex_digits(m),
    ensures
        n == m,
    decreases n,
{
    lemma_hex_digits_facts(n);
    lemma_hex_digits_facts(m);
    if n < 16 && m < 16 {
        assert(hex_digits(n)[0] == hex_digit_char(n as int));
        assert(hex_digits(m)[0] == hex_digit_char(m as int));
        lemma_hex_char_injective(n as int, m as int);
    } else if n >= 16 && m >= 16 {
        assert(hex_digits(n).drop_last() =~= hex_digits(n / 16));
        assert(hex_digits(m).drop_last() =~= hex_digits(m / 16));
        lemma_hex_digits_injective(n / 16, m / 16);
        assert(hex_digits(n).last() == hex_digit_char((n % 16) as int));
        assert(hex_digits(m).last() == hex_digit_char((m % 16) as int));
        lemma_hex_char_injective((n % 16) as int, (m % 16) as int);
    }
}

proof fn lemma_escaped_front(s: Seq<char>)
    requires
        s.len() > 0,
    ensures
        escaped(s) =~= escape_char(s[0]) + escaped(s.drop_first()),
    decreases s.len(),
{
    if s.len() > 1 {
        lemma_escaped_front(s.drop_last());
        assert(s.drop_last().drop_first() =~= s.drop_first().drop_last());
        assert(s.drop_first().last() == s.last());
    } else {
        assert(s.drop_last() =~= Seq::<char>::empty());
        assert(s.drop_first() =~= Seq::<char>::empty());
    }
}

proof fn lemma_escape_prefix_code(x: char, y: char, r1: Seq<char>, r2: Seq<char>)
    requires
        escape_char(x) + r1 == escape_char(y) + r2,
    ensures
        x == y,
{
    let l = escape_char(x) + r1;
    let e = escape_char(x);
    let f = escape_char(y);
    assert(l[0] == e[0] && l[0] == f[0]);
    if escaped_class(x) && escaped_class(y) {
        assert(l[1] == e[1] && l[1] == f[1]);
        let hx = hex_digits(x as nat);
        let hy = hex_digits(y as nat);
        if l[1] == 'u' {
            lemma_hex_digits_facts(x as nat);
            lemma_hex_digits_facts(y as nat);
            assert(e == seq!['\\', 'u', '{'] + hx + seq!['}']);
            assert(f == seq!['\\', 'u', '{'] + hy + seq!['}']);
            assert forall|i: int| 0 <= i < hx.len() && i < hy.len() implies hx[i] == hy[i] by {
                assert(l[3 + i] == e[3 + i] && l[3 + i] == f[3 + i]);
            }
            if hx.len() < hy.len() {
                assert(l[3 + hx.len() as int] == e[3 + hx.len() as int]);
                assert(l[3 + hx.len() as int] == f[3 + hx.len() as int]);
                assert(false);
            }
            if hy.len() < hx.len() {
                assert(l[3 + hy.len() as int] == e[3 + hy.len() as int]);
                assert(l[3 + hy.len() as int] == f[3 + hy.len() as int]);
                assert(false);
            }
            assert(hx =~= hy);
            lemma_hex_digits_injective(x as nat, y as nat);
        }
    }
}

/// Escaping works character by character, in order: the escaped text of
/// two texts one after the other is their escaped texts one after the
/// other.
pub proof fn law_escaping_is_piecewise(a: Seq<char>, b: Seq<char>)
    ensures
        escaped(a + b) == escaped(a) + escaped(b),
    decreases b.len(),
{
    if b.len() == 0 {
        assert(a + b =~= a);
        assert(escaped(a) + escaped(b) =~= escaped(a));
    } else {
        law_escaping_is_piecewise(a, b.drop_last());
        assert((a + b).drop_last() =~= a + b.drop_last());
        assert((a + b).last() == b.last());
        assert(escaped(a + b) =~= escaped(a) + escaped(b.drop_last()) + escape_char(b.last()));
        assert(escaped(a) + escaped(b) =~= escaped(a) + (escaped(b.drop_last()) + escape_char(b.last())));
    }
}

/// Every character that is not a backslash and that a terminal shows as
/// itself is kept unchanged; so a text of only such characters escapes to
/// itself.
pub proof fn law_escaping_keeps_plain_text(s: Seq<char>)
    ensures
        forall|c: char| terminal_safe(c) && c != '\\' ==> #[trigger] escape_char(c) == seq![c],
        (forall|i: int| 0 <= i < s.len() ==> terminal_safe(#[trigger] s[i]) && s[i] != '\\') ==> escaped(s) == s,
    decreases s.len(),
{
    if s.len() > 0 {
        law_escaping_keeps_plain_text(s.drop_last());
        if forall|i: int| 0 <= i < s.len() ==> terminal_safe(#[trigger] s[i]) && s[i] != '\\' {
            assert(forall|i: int| 0 <= i < s.drop_last().len() ==> #[trigger] s.drop_last()[i] == s[i]);
            assert(terminal_safe(s[s.len() - 1]));
            assert(s.drop_last().push(s.last()) =~= s);
        }
    }
}

/// Escaping is unambiguous: different texts never escape to the same text.
pub proof fn law_escaping_is_injective(a: Seq<char>, b: Seq<char>)
    requires
        escaped(a) == escaped(b),
    ensures
        a == b,
    decreases a.len(),
{
    if a.len() == 0 || b.len() == 0 {
        if a.len() > 0 {
            lemma_escaped_front(a);
        }
        if b.len() > 0 {
            lemma_escaped_front(b);
        }
        assert(a =~= b);
    } else {
        lemma_escaped_front(a);
        lemma_escaped_front(b);
        lemma_escape_prefix_code(a[0], b[0], escaped(a.drop_first()), escaped(b.drop_first()));
        let e = escape_char(a[0]);
        assert(escaped(a.drop_first()) =~= escaped(a).skip(e.len() as int));
        assert(escaped(b.drop_first()) =~= escaped(b).skip(e.len() as int));
        law_escaping_is_injective(a.drop_first(), b.drop_first());
        assert(a =~= seq![a[0]] + a.drop_first());
        assert(b =~= seq![b[0]] + b.drop_first());
    }
}

fn push_escaped_char(out: &mut String, c: char)
    ensures
        final(out)@ == old(out)@ + escape_char(c),
{
    let code = c as u32;
    if c == '\\' {
        push_char(out, '\\');
        push_char(out, '\\');
    } else if c == '\n' {
        push_char(out, '\\');
        push_char(out, 'n');
    } else if c == '\r' {
        push_char(out, '\\');
        push_char(out, 'r');
    } else if c == '\t' {
        push_char(out, '\\');
        push_char(out, 't');
    } else if code <= 0x1f || (0x7f <= code && code <= 0x9f) || c == '\u{061c}' || c == '\u{200e}'
        || c == '\u{200f}' || ('\u{202a}' <= c && c <= '\u{202e}') || ('\u{2066}' <= c && c
        <= '\u{2069}') {
        push_char(out, '\\');
        push_char(out, 'u');
        push_char(out, '{');
        push_hex(out, code);
        push_char(out, '}');
    } else {
        push_char(out, c);
    }
    assert(final(out)@ =~= old(out)@ + escape_char(c));
}

/// Escapes a string for display on a terminal: backslash and the common
/// whitespace controls become `\\`, `\n`, `\r`, `\t`; other control and
/// bidirectional formatting characters become `\u{hex}`; everything else,
/// including ordinary non-ASCII text, is kept.
pub fn escape_terminal(value: &str) -> (output: String)
    ensures
        output@ == escaped(value@),
{
    let mut output = String::new();
    let ghost chars = value@;
    proof { broadcast use vstd::string::group_string_axioms; }
    for c in it: value.chars()
        invariant
            it.seq() == chars,
            output@ == escaped(chars.take(it.index() as int)),
    {
        let ghost i = it.index();
        push_escaped_char(&mut output, c);
        proof {
            assert(chars.take(i + 1).drop_last() =~= chars.take(i as int));
        }
    }
    proof {
        assert(chars.take(chars.len() as int) =~= chars);
    }
    output
}

/// `s` with every occurrence of `from` replaced by `to` (`str::replace`
/// with a character pattern).
pub open spec fn replace_char(s: Seq<char>, from: char, to: Seq<char>) -> Seq<char>
    decreases s.len(),
{
    if s.len() == 0 {
        Seq::empty()
    } else {
        replace_char(s.drop_last(), from, to) + if s.last() == from {
            to
        } else {
            seq![s.last()]
        }
    }
}

/// Appends `s` with every `from` replaced by a backslash and `from`.
fn push_with_escaped(out: &mut String, s: &str, from: char)
    ensures
        final(out)@ == old(out)@ + replace_char(s@, from, seq!['\\', from]),
{
    let ghost chars = s@;
    let ghost start = out@;
    proof { broadcast use vstd::string::group_string_axioms; }
    for c in it: s.chars()
        invariant
            it.seq() == chars,
            out@ == start + replace_char(chars.take(it.index() as int), from, seq!['\\', from]),
    {
        let ghost i = it.index();
        if c == from {
            push_char(out, '\\');
        }
        push_char(out, c);
        proof {
            assert(chars.take(i + 1).drop_last() =~= chars.take(i as int));
            assert(out@ =~= start + replace_char(chars.take(i + 1), from, seq!['\\', from]));
        }
    }
    proof {
        assert(chars.take(chars.len() as int) =~= chars);
    }
}

/// The terminal-quoted form of a value: escaped, with the quote character
/// itself preceded by a backslash, and wrapped in that quote.
pub open spec fn quoted_terminal(value: Seq<char>, quote: char) -> Seq<char> {
    seq![quote] + replace_char(escaped(value), quote, seq!['\\', quote]) + seq![quote]
}

/// Escapes `value` for a terminal and wraps it in `quote`.
pub fn quote_terminal(value: &str, quote: char) -> (output: String)
    ensures
        output@ == quoted_terminal(value@, quote),
{
    let escaped_value = escape_terminal(value);
    let mut output = String::new();
    push_char(&mut output, quote);
    push_with_escaped(&mut output, escaped_value.as_str(), quote);
    push_char(&mut output, quote);
    assert(output@ =~= quoted_terminal(value@, quote));
    output
}

/// The placeholder shown for a missing window title.
pub open spec fn untitled() -> Seq<char> {
    seq!['<', 'u', 'n', 't', 'i', 't', 'l', 'e', 'd', '>']
}

/// A window title in double quotes, escaped for the terminal; a missing
/// title is shown as `"<untitled>"`.
pub open spec fn title_label(title: Option<Seq<char>>) -> Seq<char> {
    quoted_terminal(
        match title {
            Some(t) => t,
            None => untitled(),
        },
        '"',
    )
}

/// Quotes an optional window title for display.
pub fn format_title(title: Option<&str>) -> (output: String)
    ensures
        output@ == title_label(
            match title {
                Some(t) => Some(t@),
                None => None,
            },
        ),
{
    match title {
        Some(t) => quote_terminal(t, '"'),
        None => {
            let placeholder = "<untitled>";
            proof {
                reveal_strlit("<untitled>");
                assert(placeholder@ =~= untitled());
            }
            quote_terminal(placeholder, '"')
        },
    }
}

/// Quotes a value in single quotes for the terminal: escaped as by
/// `escape_terminal`, with `'` preceded by a backslash.
pub fn quoted(value: &str) -> (output: String)
    ensures
        output@ == quoted_terminal(value@, '\''),
{
    quote_terminal(value, '\'')
}

/// `quoted`, or `None` for a missing value.
pub fn quoted_option(value: Option<&str>) -> (output: String)
    ensures
        output@ == match value {
            Some(v) => quoted_terminal(v@, '\''),
            None => seq!['N', 'o', 'n', 'e'],
        },
{
    match value {
        Some(v) => quoted(v),
        None => {
            let none = "None";
            proof {
                reveal_strlit("None");
            }
            let s = none.to_owned();
            assert(s@ =~= seq!['N', 'o', 'n', 'e']);
            s
        },
    }
}

} // verus!
