//! Rendering numbers and bytes as text.
use vstd::prelude::*;

verus! {

use vstd::arithmetic::div_mod::{lemma_fundamental_div_mod, lemma_mod_breakdown};

/// `String::push` appends one character at the end of the string.
pub assume_specification[ String::push ](s: &mut String, c: char)
    ensures
        final(s)@ == old(s)@.push(c),
;

/// A text in quotes, as it would stand in a program, with escapes where they are needed.
pub uninterp spec fn quoted_text(text: Seq<char>) -> Seq<char>;

/// Formats a text with the `Debug` of `str`. Claimed of it: the result depends on the text alone.
#[verifier::external_body]
pub(crate) fn quoted(s: &str) -> (r: String)
    ensures
        r@ == quoted_text(s@),
{
    format!("{s:?}")
}

/// The digit for a value below sixteen; letters are upper case.
pub open spec fn digit_char(n: int) -> char {
    if n < 10 {
        (48 + n) as char
    } else {
        (55 + n) as char
    }
}

/// Two hexadecimal digits, high nibble first.
pub open spec fn hex_byte(b: u8) -> Seq<char> {
    seq![digit_char(b as int / 16), digit_char(b as int % 16)]
}

/// Four hexadecimal digits, high byte first.
pub open spec fn hex_word(w: u16) -> Seq<char> {
    hex_byte((w / 256) as u8) + hex_byte((w % 256) as u8)
}

/// The bytes as consecutive pairs of hexadecimal digits.
pub open spec fn hex_text(b: Seq<u8>) -> Seq<char>
    decreases b.len(),
{
    if b.len() == 0 {
        Seq::empty()
    } else {
        hex_text(b.drop_last()) + hex_byte(b.last())
    }
}

/// The bytes as pairs of hexadecimal digits with a colon between neighbours.
pub open spec fn hex_colon_text(b: Seq<u8>) -> Seq<char>
    decreases b.len(),
{
    if b.len() == 0 {
        Seq::empty()
    } else if b.len() == 1 {
        hex_byte(b[0])
    } else {
        hex_colon_text(b.drop_last()) + seq![':'] + hex_byte(b.last())
    }
}

/// The decimal digits of `n`, without leading zeros.
pub open spec fn decimal_text(n: nat) -> Seq<char>
    decreases n,
{
    if n < 10 {
        seq![digit_char(n as int)]
    } else {
        decimal_text(n / 10).push(digit_char((n % 10) as int))
    }
}

/// The decimal digits of `n` with a minus sign in front of a negative number.
pub open spec fn signed_text(n: int) -> Seq<char> {
    if n < 0 {
        seq!['-'] + decimal_text((-n) as nat)
    } else {
        decimal_text(n as nat)
    }
}

/// The last `width` decimal digits of `n`, zeros included.
pub open spec fn padded_digits(n: nat, width: nat) -> Seq<char>
    decreases width,
{
    if width == 0 {
        Seq::empty()
    } else {
        padded_digits(n / 10, (width - 1) as nat).push(digit_char((n % 10) as int))
    }
}

/// Ten to the power of `places`.
pub open spec fn ten_to(places: nat) -> nat
    decreases places,
{
    if places == 0 {
        1
    } else {
        10 * ten_to((places - 1) as nat)
    }
}

/// `n` counted in units of ten to the minus `places`, as a decimal fraction with
/// exactly `places` digits behind the point.
pub open spec fn fixed_text(n: nat, places: nat) -> Seq<char> {
    decimal_text(n / ten_to(places)) + seq!['.'] + padded_digits(n % ten_to(places), places)
}

/// The characters of a text.
pub fn chars_of(s: &str) -> (r: Vec<char>)
    ensures
        r@ == s@,
{
    let mut r: Vec<char> = Vec::new();
    for c in it: s.chars()
        invariant
            r@ == s@.take(it.index()),
            it.seq() == s@,
    {
        r.push(c);
        assert(r@ =~= s@.take(it.index() + 1));
    }
    assert(s@.take(s@.len() as int) =~= s@);
    r
}

/// The texts of a run of strings.
pub open spec fn texts_of(lines: Seq<String>) -> Seq<Seq<char>> {
    lines.map_values(|s: String| s@)
}

/// Append a line.
pub fn push_line(lines: &mut Vec<String>, line: String)
    ensures
        texts_of(final(lines)@) == texts_of(old(lines)@).push(line@),
{
    let ghost before = lines@;
    lines.push(line);
    assert(texts_of(lines@) =~= texts_of(before).push(line@));
}

/// The digit for `n`.
pub fn digit(n: u8) -> (c: char)
    requires
        n < 16,
    ensures
        c == digit_char(n as int),
{
    if n < 10 {
        (48 + n) as char
    } else {
        (55 + n) as char
    }
}

/// Append the two hexadecimal digits of `b`.
pub fn push_hex_byte(s: &mut String, b: u8)
    ensures
        final(s)@ == old(s)@ + hex_byte(b),
{
    s.push(digit(b / 16));
    s.push(digit(b % 16));
}

/// Append the four hexadecimal digits of `w`.
pub fn push_hex_word(s: &mut String, w: u16)
    ensures
        final(s)@ == old(s)@ + hex_word(w),
{
    push_hex_byte(s, (w / 256) as u8);
    push_hex_byte(s, (w % 256) as u8);
}

/// Append the decimal digits of `n`.
pub fn push_decimal(s: &mut String, n: u64)
    ensures
        final(s)@ == old(s)@ + decimal_text(n as nat),
    decreases n,
{
    if n >= 10 {
        push_decimal(s, n / 10);
    }
    s.push(digit((n % 10) as u8));
}

/// Append the decimal digits of `n`, signed.
pub fn push_signed(s: &mut String, n: i64)
    ensures
        final(s)@ == old(s)@ + signed_text(n as int),
{
    if n < 0 {
        s.push('-');
        let magnitude: u64 = (-(n as i128)) as u64;
        push_decimal(s, magnitude);
    } else {
        push_decimal(s, n as u64);
    }
}

/// Append the last `width` decimal digits of `n`.
pub fn push_padded(s: &mut String, n: u64, width: u8)
    ensures
        final(s)@ == old(s)@ + padded_digits(n as nat, width as nat),
    decreases width,
{
    if width > 0 {
        push_padded(s, n / 10, width - 1);
        s.push(digit((n % 10) as u8));
    }
}

/// Append `n`, counted in units of ten to the minus `places`, as a decimal fraction.
pub fn push_fixed(s: &mut String, n: u16, places: u8)
    requires
        1 <= places <= 3,
    ensures
        final(s)@ == old(s)@ + fixed_text(n as nat, places as nat),
{
    let unit: u64 = if places == 1 {
        10
    } else if places == 2 {
        100
    } else {
        1000
    };
    proof {
        reveal_with_fuel(ten_to, 4);
    }
    push_decimal(s, n as u64 / unit);
    s.push('.');
    push_padded(s, n as u64 % unit, places);
}

/// `n`, counted in units of ten to the minus `places`, as a decimal fraction
/// followed by `unit`.
pub fn fixed_with_unit(n: u16, places: u8, unit: &str) -> (r: String)
    requires
        1 <= places <= 3,
    ensures
        r@ == fixed_text(n as nat, places as nat) + unit@,
{
    let mut r = String::new();
    push_fixed(&mut r, n, places);
    r.append(unit);
    r
}

// ---------------------------------------------------------------------------
// Laws
// ---------------------------------------------------------------------------

/// The number that decimal digits stand for.
pub open spec fn decimal_value(text: Seq<char>) -> int {
    text.fold_left(0int, |v: int, c: char| 10 * v + (c as int - '0' as int))
}

/// The digits are those of the hexadecimal system, with capitals.
pub proof fn law_digits()
    ensures
        forall|n: int| 0 <= n < 16 ==> #[trigger] digit_char(n) == "0123456789ABCDEF"@[n],
{
    reveal_strlit("0123456789ABCDEF");
}

/// Each byte gives two digits, the one for its sixteens first.
pub proof fn law_hex_text(b: Seq<u8>)
    ensures
        hex_text(b).len() == 2 * b.len(),
        forall|i: int|
            #![trigger b[i]]
            0 <= i < b.len() ==> hex_text(b)[2 * i] == "0123456789ABCDEF"@[b[i] as int / 16]
                && hex_text(b)[2 * i + 1] == "0123456789ABCDEF"@[b[i] as int % 16],
    decreases b.len(),
{
    law_digits();
    if b.len() > 0 {
        let shorter = b.drop_last();
        law_hex_text(shorter);
        assert forall|i: int|
            #![trigger b[i]]
            0 <= i < b.len() implies hex_text(b)[2 * i] == "0123456789ABCDEF"@[b[i] as int / 16]
            && hex_text(b)[2 * i + 1] == "0123456789ABCDEF"@[b[i] as int % 16] by {
            if i < shorter.len() {
                assert(shorter[i] == b[i]);
            }
        }
    }
}

/// Two bytes give four digits, the highest first.
pub proof fn law_hex_word(w: u16)
    ensures
        hex_word(w) == seq![
            "0123456789ABCDEF"@[w as int / 4096],
            "0123456789ABCDEF"@[w as int / 256 % 16],
            "0123456789ABCDEF"@[w as int / 16 % 16],
            "0123456789ABCDEF"@[w as int % 16],
        ],
{
    law_digits();
    assert(hex_word(w) =~= seq![
        digit_char(w as int / 4096),
        digit_char(w as int / 256 % 16),
        digit_char(w as int / 16 % 16),
        digit_char(w as int % 16),
    ]);
}

/// Each byte gives two digits, and a colon stands between neighbours.
pub proof fn law_hex_colon_text(b: Seq<u8>)
    ensures
        hex_colon_text(b).len() == if b.len() == 0 {
            0
        } else {
            3 * b.len() - 1
        },
        forall|i: int|
            #![trigger b[i]]
            0 <= i < b.len() ==> hex_colon_text(b)[3 * i] == "0123456789ABCDEF"@[b[i] as int / 16]
                && hex_colon_text(b)[3 * i + 1] == "0123456789ABCDEF"@[b[i] as int % 16] && (i > 0
                ==> hex_colon_text(b)[3 * i - 1] == ':'),
    decreases b.len(),
{
    law_digits();
    if b.len() > 1 {
        let shorter = b.drop_last();
        law_hex_colon_text(shorter);
        assert forall|i: int|
            #![trigger b[i]]
            0 <= i < b.len() implies hex_colon_text(b)[3 * i] == "0123456789ABCDEF"@[b[i] as int
            / 16] && hex_colon_text(b)[3 * i + 1] == "0123456789ABCDEF"@[b[i] as int % 16] && (i > 0
            ==> hex_colon_text(b)[3 * i - 1] == ':') by {
            if i < shorter.len() {
                assert(shorter[i] == b[i]);
            }
        }
    }
}

/// A number is written in decimal digits that stand for it, without a zero in front.
pub proof fn law_decimal_text(n: nat)
    ensures
        decimal_text(n).len() > 0,
        forall|i: int|
            0 <= i < decimal_text(n).len() ==> '0' <= #[trigger] decimal_text(n)[i] <= '9',
        decimal_text(n).len() > 1 ==> decimal_text(n)[0] != '0',
        decimal_value(decimal_text(n)) == n,
    decreases n,
{
    let text = decimal_text(n);
    if n < 10 {
        assert(text.drop_last() =~= Seq::<char>::empty());
        reveal_with_fuel(Seq::fold_left, 2);
    } else {
        law_decimal_text(n / 10);
        assert(text.drop_last() =~= decimal_text(n / 10));
        assert(n / 10 > 0);
        if decimal_text(n / 10).len() == 1 && decimal_text(n / 10)[0] == '0' {
            assert(decimal_text(n / 10).drop_last() =~= Seq::<char>::empty());
            reveal_with_fuel(Seq::fold_left, 2);
            assert(false);
        }
    }
}

/// A negative number has a minus sign in front of the digits of its size, any other has none.
pub proof fn law_signed_text(n: int)
    ensures
        n >= 0 ==> signed_text(n) == decimal_text(n as nat),
        n < 0 ==> signed_text(n) == seq!['-'] + decimal_text((-n) as nat),
{
}

/// Digits that fill a width are that many, and behind other digits they add what they stand for.
proof fn lemma_padded_digits(front: Seq<char>, n: nat, width: nat)
    requires
        n < ten_to(width),
    ensures
        padded_digits(n, width).len() == width,
        forall|i: int|
            0 <= i < width ==> '0' <= #[trigger] padded_digits(n, width)[i] <= '9',
        decimal_value(front + padded_digits(n, width)) == decimal_value(front) * ten_to(width) + n,
    decreases width,
{
    if width == 0 {
        assert(front + padded_digits(n, width) =~= front);
    } else {
        let w = (width - 1) as nat;
        let shorter = front + padded_digits(n / 10, w);
        lemma_padded_digits(front, n / 10, w);
        let whole = front + padded_digits(n, width);
        assert(whole.drop_last() =~= shorter);
        assert(whole.last() == digit_char((n % 10) as int));
        let v = decimal_value(front);
        let t = ten_to(w);
        assert(10 * (v * t + n / 10) + n % 10 == v * (10 * t) + n) by (nonlinear_arith)
            requires
                10 * (n / 10) + n % 10 == n,
        ;
    }
}

/// A reading with one, two or three digits behind the point: without the point, the digits stand
/// for the number of units.
pub proof fn law_fixed_text(n: nat, places: nat)
    requires
        1 <= places <= 3,
    ensures
        ({
            let text = fixed_text(n, places);
            let point = text.len() - places - 1;
            &&& point >= 1
            &&& text[point] == '.'
            &&& forall|i: int|
                0 <= i < text.len() && i != point ==> '0' <= #[trigger] text[i] <= '9'
            &&& decimal_value(text.take(point) + text.skip(point + 1)) == n
            &&& point > 1 ==> text[0] != '0'
        }),
{
    reveal_with_fuel(ten_to, 4);
    let unit = ten_to(places);
    let front = decimal_text(n / unit);
    let back = padded_digits(n % unit, places);
    law_decimal_text(n / unit);
    lemma_padded_digits(front, n % unit, places);
    let text = fixed_text(n, places);
    let point = text.len() - places - 1;
    assert(text.take(point) =~= front);
    assert(text.skip(point + 1) =~= back);
    assert forall|i: int| 0 <= i < text.len() && i != point implies '0' <= #[trigger] text[i]
        <= '9' by {
        if i < point {
            assert(text[i] == front[i]);
        } else {
            assert(text[i] == back[i - point - 1]);
        }
    }
    lemma_fundamental_div_mod(n as int, unit as int);
    let v = n as int / unit as int;
    assert(v * unit == unit * v) by (nonlinear_arith);
}

/// The texts of a run of strings are theirs, each at its place.
pub proof fn law_texts_of(lines: Seq<String>)
    ensures
        texts_of(lines).len() == lines.len(),
        forall|i: int| 0 <= i < lines.len() ==> #[trigger] texts_of(lines)[i] == lines[i]@,
{
}

/// Digits that fill a width are exactly that many, and they stand for the number modulo ten to the
/// power of the width.
pub proof fn law_padded_digits(n: nat, width: nat)
    ensures
        padded_digits(n, width).len() == width,
        forall|i: int| 0 <= i < width ==> '0' <= #[trigger] padded_digits(n, width)[i] <= '9',
        decimal_value(padded_digits(n, width)) == n as int % ten_to(width) as int,
        ten_to(width) > 0,
    decreases width,
{
    let text = padded_digits(n, width);
    if width == 0 {
        reveal_with_fuel(Seq::fold_left, 2);
        assert(decimal_value(text) == 0);
    } else {
        let w = (width - 1) as nat;
        law_padded_digits(n / 10, w);
        assert(text.drop_last() =~= padded_digits(n / 10, w));
        lemma_mod_breakdown(n as int, 10, ten_to(w) as int);
    }
}

} // verus!
