//! What the command line asks for.
use vstd::prelude::*;

use crate::text::chars_of;

verus! {

use crate::text::{decimal_text, hex_word};
use vstd::utf8::is_ascii_chars;

// ---------------------------------------------------------------------------
// Command IDs
// ---------------------------------------------------------------------------

/// The upper-case form of a text.
pub uninterp spec fn uppercased(text: Seq<char>) -> Seq<char>;

/// A character with small ASCII letters made capital.
pub open spec fn ascii_upper(c: char) -> char {
    if 'a' <= c <= 'z' {
        (c as u8 - 32) as char
    } else {
        c
    }
}

/// The text with small ASCII letters made capital.
pub open spec fn ascii_uppercased(text: Seq<char>) -> Seq<char> {
    text.map_values(|c: char| ascii_upper(c))
}

/// Calls `str::to_uppercase`. Claimed of it: the result depends on the text alone, and an ASCII
/// text is changed letter by letter.
#[verifier::external_body]
fn upper(s: &str) -> (r: String)
    ensures
        r@ == uppercased(s@),
        is_ascii_chars(s@) ==> r@ == ascii_uppercased(s@),
{
    s.to_uppercase()
}

/// The text without the prefix `0` `x`, however often it is repeated.
pub open spec fn without_prefix(text: Seq<char>, x: char) -> Seq<char>
    decreases text.len(),
{
    if text.len() >= 2 && text[0] == '0' && text[1] == x {
        without_prefix(text.skip(2), x)
    } else {
        text
    }
}

/// The value of a digit in any base up to sixteen; letters of either case.
pub open spec fn digit_value(c: char) -> Option<int> {
    if '0' <= c <= '9' {
        Some(c as int - '0' as int)
    } else if 'a' <= c <= 'f' {
        Some(c as int - 'a' as int + 10)
    } else if 'A' <= c <= 'F' {
        Some(c as int - 'A' as int + 10)
    } else {
        None
    }
}

/// Whether all characters are digits in the given base.
pub open spec fn all_digits(text: Seq<char>, radix: int) -> bool {
    forall|i: int|
        0 <= i < text.len() ==> (digit_value(#[trigger] text[i]) matches Some(d) && d < radix)
}

/// The number that digits stand for, the first one weighing most.
pub open spec fn digits_value(text: Seq<char>, radix: int) -> int
    decreases text.len(),
{
    if text.len() == 0 {
        0
    } else {
        digits_value(text.drop_last(), radix) * radix + digit_value(text.last()).unwrap()
    }
}

/// The digits of a number: what follows an optional plus sign.
pub open spec fn unsigned(text: Seq<char>) -> Seq<char> {
    if text.len() > 0 && text[0] == '+' {
        text.skip(1)
    } else {
        text
    }
}

/// The sixteen-bit number that a text stands for: an optional plus sign and at least one digit.
pub open spec fn number_in(text: Seq<char>, radix: int) -> Option<u16> {
    let digits = unsigned(text);
    if digits.len() > 0 && all_digits(digits, radix) && digits_value(digits, radix) <= 0xFFFF {
        Some(digits_value(digits, radix) as u16)
    } else {
        None
    }
}

/// Whether the text begins with `0x` or `0X`.
pub open spec fn has_hex_prefix(text: Seq<char>) -> bool {
    text.len() >= 2 && text[0] == '0' && (text[1] == 'x' || text[1] == 'X')
}

/// The command ID that a text stands for, where `upper` is the text in upper case: a known
/// name, a hexadecimal number behind a prefix, or a decimal number. What has no prefix and is no
/// decimal number is read as a hexadecimal one.
pub open spec fn cmd_id(text: Seq<char>, upper: Seq<char>) -> Option<u16> {
    if upper == "GET_SOFTWARE_VERSION"@ {
        Some(0x0030)
    } else if has_hex_prefix(text) {
        number_in(without_prefix(without_prefix(text, 'x'), 'X'), 16)
    } else {
        match number_in(text, 10) {
            Some(id) => Some(id),
            None => number_in(text, 16),
        }
    }
}

/// What is said of a text that stands for no command ID.
pub open spec fn bad_cmd_text(text: Seq<char>) -> Seq<char> {
    "'"@ + text + "' is not a valid command ID (use hex 0xNNNN or decimal)"@
}

/// Position behind the prefix `0` `x`, however often it is repeated.
fn skip_prefix(text: &[char], from: usize, x: char) -> (at: usize)
    requires
        from <= text@.len(),
    ensures
        from <= at <= text@.len(),
        text@.skip(at as int) == without_prefix(text@.skip(from as int), x),
{
    let mut at: usize = from;
    while text.len() - at >= 2 && text[at] == '0' && text[at + 1] == x
        invariant
            from <= at <= text@.len(),
            without_prefix(text@.skip(at as int), x) == without_prefix(text@.skip(from as int), x),
        decreases text@.len() - at,
    {
        proof {
            assert(text@.skip(at as int).skip(2) =~= text@.skip(at + 2));
            assert(text@.skip(at as int)[0] == text@[at as int]);
            assert(text@.skip(at as int)[1] == text@[at + 1]);
        }
        at += 2;
    }
    proof {
        let rest = text@.skip(at as int);
        if rest.len() >= 2 {
            assert(rest[0] == text@[at as int]);
            assert(rest[1] == text@[at + 1]);
        }
    }
    at
}

/// The value of a digit.
fn digit_of(c: char) -> (r: Option<u32>)
    ensures
        r is Some <==> digit_value(c) is Some,
        r matches Some(d) ==> digit_value(c) == Some(d as int) && d < 16,
{
    if '0' <= c && c <= '9' {
        Some(c as u32 - '0' as u32)
    } else if 'a' <= c && c <= 'f' {
        Some(c as u32 - 'a' as u32 + 10)
    } else if 'A' <= c && c <= 'F' {
        Some(c as u32 - 'A' as u32 + 10)
    } else {
        None
    }
}

/// More digits never make a number smaller.
proof fn lemma_digits_value_grows(text: Seq<char>, radix: int, n: int)
    requires
        0 <= n <= text.len(),
        all_digits(text, radix),
        radix >= 1,
    ensures
        0 <= digits_value(text.take(n), radix) <= digits_value(text, radix),
    decreases text.len(),
{
    if text.len() == 0 {
        assert(text.take(n) =~= text);
    } else {
        let shorter = text.drop_last();
        assert forall|i: int| 0 <= i < shorter.len() implies (digit_value(#[trigger] shorter[i])
            matches Some(d) && d < radix) by {
            assert(shorter[i] == text[i]);
        }
        assert(digit_value(text[text.len() - 1]) is Some);
        let v = digits_value(shorter, radix);
        lemma_digits_value_grows(shorter, radix, 0);
        assert(shorter.take(0) =~= Seq::<char>::empty());
        assert(v * radix >= v) by (nonlinear_arith)
            requires
                v >= 0,
                radix >= 1,
        ;
        if n == text.len() {
            assert(text.take(n) =~= text);
        } else {
            lemma_digits_value_grows(shorter, radix, n);
            assert(shorter.take(n) =~= text.take(n));
        }
    }
}

/// The number in `text` from `from` on.
fn parse_number(text: &[char], from: usize, radix: u32) -> (r: Option<u16>)
    requires
        from <= text@.len(),
        radix == 10 || radix == 16,
    ensures
        r == number_in(text@.skip(from as int), radix as int),
{
    let ghost whole = text@.skip(from as int);
    let mut at: usize = from;
    if at < text.len() && text[at] == '+' {
        at += 1;
    }
    let ghost digits = text@.skip(at as int);
    proof {
        if at == from {
            assert(unsigned(whole) =~= digits);
        } else {
            assert(whole[0] == text@[from as int]);
            assert(unsigned(whole) =~= digits);
        }
    }
    if at == text.len() {
        return None;
    }
    let size: usize = text.len();
    let start: usize = at;
    let mut value: u32 = 0;
    while at < size
        invariant
            start <= at <= size,
            size == text@.len(),
            radix == 10 || radix == 16,
            digits == text@.skip(start as int),
            all_digits(digits.take(at - start), radix as int),
            value == digits_value(digits.take(at - start), radix as int),
            value <= 0xFFFF,
            whole == text@.skip(from as int),
            unsigned(whole) == digits,
            digits.len() > 0,
        decreases size - at,
    {
        let ghost n = at - start;
        assert(digits[n] == text@[at as int]);
        match digit_of(text[at]) {
            Some(d) if d < radix => {
                assert(value * radix <= 0xFFFF * 16) by (nonlinear_arith)
                    requires
                        value <= 0xFFFF,
                        radix <= 16,
                ;
                let next: u32 = value * radix + d;
                proof {
                    let longer = digits.take(n + 1);
                    assert(longer.drop_last() =~= digits.take(n));
                    assert forall|i: int| 0 <= i < longer.len() implies (digit_value(
                        #[trigger] longer[i],
                    ) matches Some(e) && e < radix) by {
                        if i < n {
                            assert(longer[i] == digits.take(n)[i]);
                        }
                    }
                    assert(next == digits_value(longer, radix as int));
                    if next > 0xFFFF && all_digits(digits, radix as int) {
                        lemma_digits_value_grows(digits, radix as int, n + 1);
                    }
                }
                if next > 0xFFFF {
                    return None;
                }
                value = next;
            },
            _ => {
                assert(!all_digits(digits, radix as int));
                return None;
            },
        }
        at += 1;
    }
    assert(digits.take(size - start) =~= digits);
    Some(value as u16)
}

/// The command ID that `s` stands for, where `upper` is `s` in upper case.
pub fn cmd_id_of(s: &str, upper: &str) -> (r: Result<u16, String>)
    ensures
        r is Ok <==> cmd_id(s@, upper@) is Some,
        r matches Ok(id) ==> cmd_id(s@, upper@) == Some(id),
        r matches Err(e) ==> e@ == bad_cmd_text(s@),
{
    if is_software_version(upper) {
        return Ok(0x0030);
    }
    let text: Vec<char> = chars_of(s);
    assert(text@.skip(0) =~= text@);
    let id: Option<u16> = if text.len() >= 2 && text[0] == '0' && (text[1] == 'x' || text[1]
        == 'X') {
        let lower_end: usize = skip_prefix(text.as_slice(), 0, 'x');
        let end: usize = skip_prefix(text.as_slice(), lower_end, 'X');
        parse_number(text.as_slice(), end, 16)
    } else {
        match parse_number(text.as_slice(), 0, 10) {
            Some(id) => Some(id),
            None => parse_number(text.as_slice(), 0, 16),
        }
    };
    match id {
        Some(id) => Ok(id),
        None => {
            let mut e = String::new();
            e.append("'");
            e.append(s);
            e.append("' is not a valid command ID (use hex 0xNNNN or decimal)");
            assert(e@ =~= bad_cmd_text(s@));
            Err(e)
        },
    }
}

/// Whether the text is the name of the software version command.
fn is_software_version(upper: &str) -> (r: bool)
    ensures
        r == (upper@ == "GET_SOFTWARE_VERSION"@),
{
    upper.to_string() == "GET_SOFTWARE_VERSION".to_string()
}

/// The command ID that `s` stands for: a known name, a hexadecimal number behind `0x`, or a decimal
/// number.
pub fn parse_cmd_id(s: &str) -> (r: Result<u16, String>)
    ensures
        r is Ok <==> cmd_id(s@, uppercased(s@)) is Some,
        r matches Ok(id) ==> cmd_id(s@, uppercased(s@)) == Some(id),
        is_ascii_chars(s@) ==> (r is Ok <==> cmd_id(s@, ascii_uppercased(s@)) is Some),
        is_ascii_chars(s@) ==> (r matches Ok(id) ==> cmd_id(s@, ascii_uppercased(s@)) == Some(id)),
        r matches Err(e) ==> e@ == bad_cmd_text(s@),
        r matches Err(e) ==> e@ == "'"@ + s@
            + "' is not a valid command ID (use hex 0xNNNN or decimal)"@,
{
    let u = upper(s);
    cmd_id_of(s, u.as_str())
}

/// Whether the text is ASCII and stands for the command ID, upper-cased letter by letter.
pub open spec fn reads_as(text: Seq<char>, id: u16) -> bool {
    is_ascii_chars(text) && cmd_id(text, ascii_uppercased(text)) == Some(id)
}

/// A text that begins with a digit is no name.
proof fn lemma_number_is_no_name(text: Seq<char>)
    requires
        text.len() > 0,
        '0' <= text[0] <= '9',
    ensures
        ascii_uppercased(text) != "GET_SOFTWARE_VERSION"@,
{
    reveal_strlit("GET_SOFTWARE_VERSION");
    assert(ascii_uppercased(text)[0] == text[0]);
}

/// The name of the software version command is read in any case.
pub proof fn law_name_is_read_in_any_case(text: Seq<char>)
    requires
        ascii_uppercased(text) == "GET_SOFTWARE_VERSION"@,
        is_ascii_chars(text),
    ensures
        reads_as(text, 0x0030),
{
}

/// A command ID in the form `0xNNNN` is read back, whichever it is.
pub proof fn law_hex_cmd_id_is_read_back(id: u16)
    ensures
        reads_as(seq!['0', 'x'] + hex_word(id), id),
        reads_as(seq!['0', 'X'] + hex_word(id), id),
{
    let digits = hex_word(id);
    let lower = seq!['0', 'x'] + digits;
    let capital = seq!['0', 'X'] + digits;
    assert(lower.skip(2) =~= digits);
    assert(capital.skip(2) =~= digits);
    assert(lower[0] == '0' && lower[1] == 'x');
    assert(capital[0] == '0' && capital[1] == 'X');
    assert(digits.len() == 4);
    assert forall|i: int| 0 <= i < 4 implies (digit_value(#[trigger] digits[i]) matches Some(d) && 0
        <= d < 16) by {}
    assert(digits[1] != 'x' && digits[1] != 'X');
    assert(without_prefix(digits, 'x') == digits);
    assert(without_prefix(digits, 'X') == digits);
    assert(without_prefix(lower, 'x') == digits);
    assert(without_prefix(capital, 'x') == capital);
    assert(without_prefix(capital, 'X') == digits);
    assert(digits[0] != '+');
    lemma_number_is_no_name(lower);
    lemma_number_is_no_name(capital);
    let high = id / 256;
    let low = id % 256;
    assert(digits_value(digits, 16) == id) by {
        let three = digits.drop_last();
        let two = three.drop_last();
        let one = two.drop_last();
        assert(one.drop_last() =~= Seq::<char>::empty());
        assert(digits_value(one, 16) == high / 16) by {
            reveal_with_fuel(digits_value, 2);
        }
        assert(digits_value(two, 16) == high);
        assert(digits_value(three, 16) == high * 16 + low / 16);
    }
}

/// The decimal digits of a number stand for it.
proof fn lemma_decimal_digits(n: nat)
    ensures
        decimal_text(n).len() > 0,
        all_digits(decimal_text(n), 10),
        digits_value(decimal_text(n), 10) == n,
    decreases n,
{
    let text = decimal_text(n);
    if n < 10 {
        assert(text.drop_last() =~= Seq::<char>::empty());
        reveal_with_fuel(digits_value, 2);
    } else {
        lemma_decimal_digits(n / 10);
        let shorter = decimal_text(n / 10);
        assert(text.drop_last() =~= shorter);
        assert forall|i: int| 0 <= i < text.len() implies (digit_value(#[trigger] text[i])
            matches Some(d) && d < 10) by {
            if i < shorter.len() {
                assert(text[i] == shorter[i]);
            }
        }
    }
}

/// A command ID in decimal digits is read back, whichever it is.
pub proof fn law_decimal_cmd_id_is_read_back(id: u16)
    ensures
        reads_as(decimal_text(id as nat), id),
{
    let text = decimal_text(id as nat);
    lemma_decimal_digits(id as nat);
    assert forall|i: int| 0 <= i < text.len() implies '0' <= #[trigger] text[i] <= '9' by {
        assert(digit_value(text[i]) matches Some(d) && d < 10);
    }
    lemma_number_is_no_name(text);
}

// ---------------------------------------------------------------------------
// Modes
// ---------------------------------------------------------------------------

/// The command line, as far as it decides what is done.
pub struct Args {
    /// Device MAC address or identifier; the first device that advertises the service is taken
    /// where there is none.
    pub mac: Option<String>,
    /// Scan for nearby devices and print them, then exit.
    pub scan: bool,
    /// Commands to send after the handshake.
    pub cmds: Vec<u16>,
    /// Group byte of the commands.
    pub group: u16,
    /// Keep the connection open after the commands and print further notifications.
    pub listen: bool,
    /// Whether telemetry is asked for.
    pub telemetry: bool,
    /// Show a live dashboard.
    pub dashboard: bool,
    /// Whether a REST API is to be served.
    pub server: bool,
    /// Print raw protocol traffic.
    pub verbose: bool,
}

/// Which interval telemetry is polled at.
#[derive(Debug, Clone, Copy, PartialEq, Eq, Structural)]
pub enum Interval {
    /// The one on the command line.
    Given,
    /// Two seconds.
    Standard,
}

/// The standard interval, in milliseconds.
pub const STANDARD_INTERVAL_MS: u64 = 2000;

/// What is to be done.
#[derive(Debug, Clone, Copy, PartialEq, Eq, Structural)]
pub enum Mode {
    /// List the devices nearby.
    ListDevices,
    /// Poll telemetry and show a dashboard.
    Dashboard { interval: Interval },
    /// Poll telemetry.
    Telemetry { interval: Interval },
    /// Send the commands to the given group.
    Commands { group: u8 },
    /// Try every command ID.
    Scan,
}

/// What is to be done for a command line; `None` where a dashboard is asked for that nothing
/// would feed.
pub open spec fn mode_for(args: Args) -> Option<Mode> {
    let interval = if args.telemetry {
        Interval::Given
    } else {
        Interval::Standard
    };
    if args.dashboard && !args.telemetry && !args.server {
        None
    } else if args.scan && args.mac is None {
        Some(Mode::ListDevices)
    } else if args.dashboard {
        Some(Mode::Dashboard { interval })
    } else if args.telemetry || args.server {
        Some(Mode::Telemetry { interval })
    } else if args.cmds@.len() > 0 {
        Some(Mode::Commands { group: (args.group % 256) as u8 })
    } else {
        Some(Mode::Scan)
    }
}

/// A dashboard without telemetry or server.
#[derive(Debug, Clone, Copy, PartialEq, Eq)]
pub struct DashboardUnfed;

impl DashboardUnfed {
    /// The text of the error.
    pub fn message(&self) -> (r: &'static str)
        ensures
            r@ == "--dashboard requires --telemetry or --server"@,
    {
        "--dashboard requires --telemetry or --server"
    }
}

impl Args {
    /// What is to be done. A server without a dashboard implies telemetry at the standard
    /// interval.
    pub fn mode(&self) -> (r: Result<Mode, DashboardUnfed>)
        ensures
            r is Ok <==> mode_for(*self) is Some,
            r matches Ok(mode) ==> mode_for(*self) == Some(mode),
            r is Err <==> self.dashboard && !self.telemetry && !self.server,
    {
        if self.dashboard && !self.telemetry && !self.server {
            return Err(DashboardUnfed);
        }
        let interval = if self.telemetry {
            Interval::Given
        } else {
            Interval::Standard
        };
        if self.scan && self.mac.is_none() {
            Ok(Mode::ListDevices)
        } else if self.dashboard {
            Ok(Mode::Dashboard { interval })
        } else if self.telemetry || self.server {
            Ok(Mode::Telemetry { interval })
        } else if self.cmds.len() > 0 {
            Ok(Mode::Commands { group: (self.group % 256) as u8 })
        } else {
            Ok(Mode::Scan)
        }
    }
}

// ---------------------------------------------------------------------------
// Laws
// ---------------------------------------------------------------------------

/// One more character behind a number: it must be a digit in the base, and the number becomes the
/// base times what it was, plus the digit, if that still fits into sixteen bits. A digit alone, or
/// behind a plus sign, is a number.
pub proof fn law_number_with_one_more_digit(text: Seq<char>, c: char, radix: int)
    requires
        radix == 10 || radix == 16,
    ensures
        ({
            let v = if '0' <= c <= '9' {
                c as int - 48
            } else if 'a' <= c <= 'f' {
                c as int - 87
            } else if 'A' <= c <= 'F' {
                c as int - 55
            } else {
                16
            };
            let before = if text.len() == 0 || text == seq!['+'] {
                Some(0u16)
            } else {
                number_in(text, radix)
            };
            let number = number_in(text.push(c), radix);
            &&& number is Some <==> (before matches Some(m) && v < radix && m * radix + v <= 0xFFFF)
            &&& number matches Some(n) ==> n == before->0 * radix + v
        }),
{
    let longer = text.push(c);
    let digits = unsigned(longer);
    if text.len() == 0 {
        if c == '+' {
            assert(digits.len() == 0);
        } else {
            assert(digits =~= seq![c]);
        }
    } else if text[0] == '+' {
        assert(digits =~= text.skip(1).push(c));
        if text == seq!['+'] {
            assert(digits =~= seq![c]);
        } else if text.len() == 1 {
            assert(text =~= seq!['+']);
        }
    } else {
        assert(digits =~= longer);
        assert(text[0] != seq!['+'][0]);
    }
    if digits.len() > 0 {
        let shorter = digits.drop_last();
        assert(shorter =~= unsigned(text));
        assert(digits.last() == c);
        if all_digits(digits, radix) {
            assert(digit_value(digits[digits.len() - 1]) is Some);
            assert forall|i: int| 0 <= i < shorter.len() implies (digit_value(
                #[trigger] shorter[i],
            ) matches Some(d) && d < radix) by {
                assert(shorter[i] == digits[i]);
            }
            lemma_digits_value_grows(digits, radix, digits.len() - 1);
            assert(digits.take(digits.len() - 1) =~= shorter);
        } else if all_digits(shorter, radix) {
            assert forall|i: int| 0 <= i < digits.len() - 1 implies (digit_value(
                #[trigger] digits[i],
            ) matches Some(d) && d < radix) by {
                assert(shorter[i] == digits[i]);
            }
        }
        if all_digits(shorter, radix) {
            lemma_digits_value_grows(shorter, radix, 0);
            assert(shorter.take(0) =~= Seq::<char>::empty());
        }
    }
}

/// A text without digits is no number, and one plus sign in front of a number changes nothing.
pub proof fn law_number_with_a_sign(text: Seq<char>, radix: int)
    requires
        radix == 10 || radix == 16,
    ensures
        number_in(Seq::empty(), radix) is None,
        number_in(seq!['+'], radix) is None,
        text.len() > 0 && text[0] != '+' ==> number_in(seq!['+'] + text, radix) == number_in(
            text,
            radix,
        ),
        text.len() > 0 && text[0] == '+' ==> number_in(seq!['+'] + text, radix) is None,
{
    let signed = seq!['+'] + text;
    assert(unsigned(signed) =~= text);
    assert(unsigned(seq!['+']) =~= Seq::<char>::empty());
    if text.len() > 0 && text[0] == '+' {
        assert(digit_value(text[0]) is None);
    }
}

/// Behind the prefix `0x` or `0X` a text is a hexadecimal number. More than one prefix is
/// dropped, but `0x` behind `0X` is not.
pub proof fn law_prefix_is_dropped(text: Seq<char>, upper: Seq<char>)
    requires
        upper != "GET_SOFTWARE_VERSION"@,
    ensures
        ({
            let small = cmd_id(seq!['0', 'x'] + text, upper);
            let capital = cmd_id(seq!['0', 'X'] + text, upper);
            let more_small = text.len() >= 2 && text[0] == '0' && text[1] == 'x';
            let more_capital = text.len() >= 2 && text[0] == '0' && text[1] == 'X';
            &&& !more_small && !more_capital ==> small == number_in(text, 16) && capital
                == number_in(text, 16)
            &&& more_small || more_capital ==> small == cmd_id(text, upper)
            &&& more_capital ==> capital == cmd_id(text, upper)
            &&& more_small ==> capital is None
        }),
{
    let small = seq!['0', 'x'] + text;
    let capital = seq!['0', 'X'] + text;
    assert(small.skip(2) =~= text);
    assert(capital.skip(2) =~= text);
    assert(small[0] == '0' && small[1] == 'x');
    assert(capital[0] == '0' && capital[1] == 'X');
    assert(without_prefix(small, 'x') == without_prefix(text, 'x'));
    assert(without_prefix(capital, 'x') == capital);
    assert(without_prefix(capital, 'X') == without_prefix(text, 'X'));
    if text.len() >= 2 && text[0] == '0' && text[1] == 'x' {
        assert(without_prefix(text, 'X') == text);
        assert(unsigned(text) == text);
        assert(digit_value(text[1]) is None);
    }
}

/// Without a prefix a text is a decimal number, if it is one, and otherwise a hexadecimal one. The
/// name of the software version command comes before that.
pub proof fn law_bare_cmd_id(text: Seq<char>, upper: Seq<char>)
    ensures
        upper == "GET_SOFTWARE_VERSION"@ ==> cmd_id(text, upper) == Some(0x0030u16),
        upper != "GET_SOFTWARE_VERSION"@ && !(text.len() >= 2 && text[0] == '0' && (text[1] == 'x'
            || text[1] == 'X')) ==> {
            &&& number_in(text, 10) is Some ==> cmd_id(text, upper) == number_in(text, 10)
            &&& number_in(text, 10) is None ==> cmd_id(text, upper) == number_in(text, 16)
        },
{
}

/// Which command line leads to which mode.
pub proof fn law_modes(args: Args)
    ensures
        ({
            let mode = mode_for(args);
            let lists = args.scan && args.mac is None;
            let polls = args.telemetry || args.server;
            &&& mode is None <==> args.dashboard && !polls
            &&& mode == Some(Mode::ListDevices) <==> lists && (args.dashboard ==> polls)
            &&& mode == Some(Mode::Dashboard { interval: Interval::Given }) <==> !lists
                && args.dashboard && args.telemetry
            &&& mode == Some(Mode::Dashboard { interval: Interval::Standard }) <==> !lists
                && args.dashboard && !args.telemetry && args.server
            &&& mode == Some(Mode::Telemetry { interval: Interval::Given }) <==> !lists
                && !args.dashboard && args.telemetry
            &&& mode == Some(Mode::Telemetry { interval: Interval::Standard }) <==> !lists
                && !args.dashboard && !args.telemetry && args.server
            &&& (mode matches Some(Mode::Commands { group }) && group == args.group as int % 256)
                <==> !lists && !args.dashboard && !polls && args.cmds@.len() > 0
            &&& mode == Some(Mode::Scan) <==> !lists && !args.dashboard && !polls
                && args.cmds@.len() == 0
        }),
{
}

} // verus!
