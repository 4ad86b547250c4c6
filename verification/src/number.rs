//! Integer literals: what a text reads as, and the text a value is written as.

use vstd::prelude::*;
use vstd::string::StrSliceExecFns;
use vstd::string::StringExecFns;

verus! {

/// The value of a digit of sixteen; letters count in either case.
pub open spec fn digit_of(c: char) -> Option<nat> {
    if c == '0' {
        Some(0)
    } else if c == '1' {
        Some(1)
    } else if c == '2' {
        Some(2)
    } else if c == '3' {
        Some(3)
    } else if c == '4' {
        Some(4)
    } else if c == '5' {
        Some(5)
    } else if c == '6' {
        Some(6)
    } else if c == '7' {
        Some(7)
    } else if c == '8' {
        Some(8)
    } else if c == '9' {
        Some(9)
    } else if c == 'a' || c == 'A' {
        Some(10)
    } else if c == 'b' || c == 'B' {
        Some(11)
    } else if c == 'c' || c == 'C' {
        Some(12)
    } else if c == 'd' || c == 'D' {
        Some(13)
    } else if c == 'e' || c == 'E' {
        Some(14)
    } else if c == 'f' || c == 'F' {
        Some(15)
    } else {
        None
    }
}

/// The digit that is written for `d`: letters in lower case.
pub open spec fn digit_char(d: nat) -> char {
    if d == 0 {
        '0'
    } else if d == 1 {
        '1'
    } else if d == 2 {
        '2'
    } else if d == 3 {
        '3'
    } else if d == 4 {
        '4'
    } else if d == 5 {
        '5'
    } else if d == 6 {
        '6'
    } else if d == 7 {
        '7'
    } else if d == 8 {
        '8'
    } else if d == 9 {
        '9'
    } else if d == 10 {
        'a'
    } else if d == 11 {
        'b'
    } else if d == 12 {
        'c'
    } else if d == 13 {
        'd'
    } else if d == 14 {
        'e'
    } else {
        'f'
    }
}

/// Whether `c` is a digit: of sixteen where `hex` is set, of ten otherwise.
pub open spec fn is_digit(c: char, hex: bool) -> bool {
    digit_of(c) matches Some(d) && (hex || d < 10)
}

/// Whether every character of `s` is a digit.
pub open spec fn all_digits(s: Seq<char>, hex: bool) -> bool {
    forall|i: int| 0 <= i < s.len() ==> is_digit(#[trigger] s[i], hex)
}

/// The number that a run of digits denotes, most significant digit first.
pub open spec fn digits_value(s: Seq<char>, hex: bool) -> nat
    decreases s.len(),
{
    if s.len() == 0 {
        0
    } else if hex {
        digits_value(s.drop_last(), hex) * 16 + digit_of(s.last()).unwrap_or(0)
    } else {
        digits_value(s.drop_last(), hex) * 10 + digit_of(s.last()).unwrap_or(0)
    }
}

/// How many characters of `s` are its sign: a leading `+`, or a leading `-`
/// where the literal may be negative.
pub open spec fn sign_len(s: Seq<char>, signed: bool) -> int {
    if s.len() > 0 && (s[0] == '+' || (signed && s[0] == '-')) {
        1
    } else {
        0
    }
}

/// Whether `s` is an integer literal: an optional sign, then at least one
/// digit, and nothing else.
pub open spec fn is_literal(s: Seq<char>, hex: bool, signed: bool) -> bool {
    let digits = s.skip(sign_len(s, signed));
    digits.len() > 0 && all_digits(digits, hex)
}

/// The number that an integer literal denotes.
pub open spec fn literal_value(s: Seq<char>, hex: bool, signed: bool) -> int {
    let magnitude = digits_value(s.skip(sign_len(s, signed)), hex) as int;
    if signed && s.len() > 0 && s[0] == '-' {
        -magnitude
    } else {
        magnitude
    }
}

/// What `s` reads as: its value where it is a literal whose value lies in
/// `lo..=hi`, nothing otherwise.
pub open spec fn read_int(s: Seq<char>, hex: bool, signed: bool, lo: int, hi: int) -> Option<int> {
    if is_literal(s, hex, signed) && lo <= literal_value(s, hex, signed) <= hi {
        Some(literal_value(s, hex, signed))
    } else {
        None
    }
}

/// The digits of `n`, without leading zeros; `0` is one digit.
pub open spec fn digits_text(n: nat, hex: bool) -> Seq<char>
    decreases n,
{
    if hex {
        if n < 16 {
            seq![digit_char(n)]
        } else {
            digits_text(n / 16, hex).push(digit_char(n % 16))
        }
    } else {
        if n < 10 {
            seq![digit_char(n)]
        } else {
            digits_text(n / 10, hex).push(digit_char(n % 10))
        }
    }
}

/// The decimal text of an integer: a `-` before the digits of a negative one.
pub open spec fn int_text(v: int) -> Seq<char> {
    if v < 0 {
        seq!['-'] + digits_text((-v) as nat, false)
    } else {
        digits_text(v as nat, false)
    }
}

/// The decimal digits of `n` at a width: zeros in front until there are
/// `width` characters.
pub open spec fn padded_text(n: nat, width: nat) -> Seq<char> {
    let digits = digits_text(n, false);
    if digits.len() >= width {
        digits
    } else {
        Seq::new((width - digits.len()) as nat, |i: int| '0') + digits
    }
}

/// The text of an unsigned value in hexadecimal: `0x` and its digits.
pub open spec fn hex_text(n: nat) -> Seq<char> {
    seq!['0', 'x'] + digits_text(n, true)
}

/// The number format that `lexical::NumberFormatBuilder::hexadecimal()` builds:
/// radix sixteen for digits and exponent, no prefix and no suffix.
pub const HEXADECIMAL: u128 = 0x1010_1000_0000_0000_0000_0000_0000_000C;

/// What `lexical::parse::<u64, _>` returns for a text.
pub uninterp spec fn lexical_u64(text: Seq<char>) -> Option<u64>;

/// What a text reads as in 64 bits without a sign, given what the outside
/// parser returns for it: nothing where the text is no decimal literal with an
/// optional `+`; the value of a literal that fits; and for a literal that does
/// not fit, whatever the outside parser returns.
pub open spec fn read_u64_of(text: Seq<char>, lexical: Option<u64>) -> Option<u64> {
    if !is_literal(text, false, false) {
        None
    } else if literal_value(text, false, false) <= u64::MAX {
        Some(literal_value(text, false, false) as u64)
    } else {
        lexical
    }
}

/// What a text reads as in 64 bits without a sign.
pub open spec fn read_u64(text: Seq<char>) -> Option<u64> {
    read_u64_of(text, lexical_u64(text))
}

/// `lexical::parse::<i64, _>`: the value of a decimal literal with an optional
/// sign, where it fits in an `i64`; it fails on every other text.
#[verifier::external_body]
pub(crate) fn parse_i64(text: &str) -> (r: Option<i64>)
    ensures
        r == match read_int(text@, false, true, i64::MIN as int, i64::MAX as int) {
            Some(v) => Some(v as i64),
            None => None,
        },
{
    lexical::parse::<i64, _>(text.as_bytes()).ok()
}

/// `lexical::parse::<u64, _>`: it fails on a text that is no decimal literal
/// with an optional `+`, and returns the value of one that fits in a `u64`.
/// What it returns for a literal that does not fit has only a name.
#[verifier::external_body]
pub(crate) fn parse_u64(text: &str) -> (r: Option<u64>)
    ensures
        r == read_u64_of(text@, lexical_u64(text@)),
{
    lexical::parse::<u64, _>(text.as_bytes()).ok()
}

/// `lexical::parse_with_options::<i64, _, _>` in the hexadecimal format: the
/// value of a hexadecimal literal with an optional sign and no prefix, where
/// it fits in an `i64`; it fails on every other text.
#[verifier::external_body]
pub(crate) fn parse_hex_i64(text: &str) -> (r: Option<i64>)
    ensures
        r == match read_int(text@, true, true, i64::MIN as int, i64::MAX as int) {
            Some(v) => Some(v as i64),
            None => None,
        },
{
    let options = lexical::ParseIntegerOptions::new();
    lexical::parse_with_options::<i64, _, HEXADECIMAL>(
        text.as_bytes(),
        &options,
    ).ok()
}

/// `lexical::to_string::<i64>`: the decimal text of the value.
#[verifier::external_body]
pub(crate) fn format_i64(v: i64) -> (r: String)
    ensures
        r@ == int_text(v as int),
{
    lexical::to_string(v)
}

/// Whether the text begins with `0x`.
pub open spec fn has_hex_prefix(s: Seq<char>) -> bool {
    s.len() >= 2 && s[0] == '0' && s[1] == 'x'
}

/// The text without a leading `0x`, where it has one.
pub open spec fn without_hex_prefix(s: Seq<char>) -> Seq<char> {
    if has_hex_prefix(s) {
        s.skip(2)
    } else {
        s
    }
}

/// What an integer literal reads as where no type is asked for: its value as
/// a decimal literal, or else, where it begins with `0x`, the value of the
/// hexadecimal digits behind that; in either case only a value in `lo..=hi`.
pub open spec fn read_plain(s: Seq<char>, lo: int, hi: int) -> Option<int> {
    match read_int(s, false, true, lo, hi) {
        Some(v) => Some(v),
        None => if has_hex_prefix(s) {
            read_int(s.skip(2), true, false, lo, hi)
        } else {
            None
        },
    }
}

/// What a numeric text reads as: its value as a decimal literal, or else its
/// value as a hexadecimal literal once a leading `0x` is taken off; in either
/// case only a value in `lo..=hi`.
pub open spec fn read_num(s: Seq<char>, signed: bool, lo: int, hi: int) -> Option<int> {
    match read_int(s, false, signed, lo, hi) {
        Some(v) => Some(v),
        None => read_int(without_hex_prefix(s), true, signed, lo, hi),
    }
}

/// The one-character text of a digit.
fn digit_str(d: u8) -> (r: &'static str)
    requires
        d < 16,
    ensures
        r@ == seq![digit_char(d as nat)],
{
    proof {
        reveal_strlit("0");
        reveal_strlit("1");
        reveal_strlit("2");
        reveal_strlit("3");
        reveal_strlit("4");
        reveal_strlit("5");
        reveal_strlit("6");
        reveal_strlit("7");
        reveal_strlit("8");
        reveal_strlit("9");
        reveal_strlit("a");
        reveal_strlit("b");
        reveal_strlit("c");
        reveal_strlit("d");
        reveal_strlit("e");
        reveal_strlit("f");
    }
    let r = if d == 0 {
        "0"
    } else if d == 1 {
        "1"
    } else if d == 2 {
        "2"
    } else if d == 3 {
        "3"
    } else if d == 4 {
        "4"
    } else if d == 5 {
        "5"
    } else if d == 6 {
        "6"
    } else if d == 7 {
        "7"
    } else if d == 8 {
        "8"
    } else if d == 9 {
        "9"
    } else if d == 10 {
        "a"
    } else if d == 11 {
        "b"
    } else if d == 12 {
        "c"
    } else if d == 13 {
        "d"
    } else if d == 14 {
        "e"
    } else {
        "f"
    };
    assert(r@ =~= seq![digit_char(d as nat)]);
    r
}

/// Writes the digits of `n`, in hexadecimal where `hex` is set.
pub fn format_digits(n: u128, hex: bool) -> (r: String)
    ensures
        r@ == digits_text(n as nat, hex),
    decreases n,
{
    let base: u128 = if hex {
        16
    } else {
        10
    };
    if n < base {
        String::from_str(digit_str(n as u8))
    } else {
        let mut text = format_digits(n / base, hex);
        let last = digit_str((n % base) as u8);
        text.append(last);
        assert(text@ =~= digits_text((n / base) as nat, hex).push(digit_char((n % base) as nat)));
        text
    }
}

/// Writes `n` in decimal, with zeros in front up to `width` characters.
pub fn format_padded(n: u128, width: usize) -> (r: String)
    ensures
        r@ == padded_text(n as nat, width as nat),
{
    let digits = format_digits(n, false);
    let len = digits.as_str().unicode_len();
    if len >= width {
        digits
    } else {
        let mut text = String::new();
        let mut k: usize = 0;
        while k < width - len
            invariant
                len < width,
                k <= width - len,
                text@ == Seq::new(k as nat, |i: int| '0'),
            decreases width - len - k,
        {
            proof {
                reveal_strlit("0");
            }
            text.append("0");
            k = k + 1;
            assert(text@ =~= Seq::new(k as nat, |i: int| '0'));
        }
        text.append(digits.as_str());
        text
    }
}

/// Writes `n` in hexadecimal, after `0x`.
pub fn format_hex(n: u32) -> (r: String)
    ensures
        r@ == hex_text(n as nat),
{
    proof {
        reveal_strlit("0x");
    }
    let mut text = String::from_str("0x");
    let digits = format_digits(n as u128, true);
    text.append(digits.as_str());
    assert(text@ =~= hex_text(n as nat));
    text
}

/// Takes a leading `0x` off the text, where it has one.
pub fn strip_hex_prefix(text: &str) -> (r: &str)
    ensures
        r@ == without_hex_prefix(text@),
{
    let len = text.unicode_len();
    if len >= 2 && text.get_char(0) == '0' && text.get_char(1) == 'x' {
        let rest = text.substring_char(2, len);
        assert(rest@ =~= text@.skip(2));
        rest
    } else {
        text
    }
}

/// Reads the text as a literal: decimal, or hexadecimal where `hex` is set;
/// with a `-` allowed where `signed` is set; of a value in `lo..=hi`.
pub fn parse_int(text: &str, hex: bool, signed: bool, lo: i64, hi: i64) -> (r: Option<i64>)
    ensures
        r == match read_int(text@, hex, signed, lo as int, hi as int) {
            Some(v) => Some(v as i64),
            None => None,
        },
{
    let parsed = if hex {
        parse_hex_i64(text)
    } else {
        parse_i64(text)
    };
    let negative = text.unicode_len() > 0 && text.get_char(0) == '-';
    match parsed {
        Some(v) => {
            if (negative && !signed) || v < lo || v > hi {
                proof {
                    if negative && !signed {
                        assert(text@.skip(0) =~= text@);
                        assert(!is_digit(text@[0], hex));
                    }
                }
                None
            } else {
                Some(v)
            }
        },
        None => {
            proof {
                if negative && !signed {
                    assert(text@.skip(0) =~= text@);
                    assert(!is_digit(text@[0], hex));
                }
            }
            None
        },
    }
}

/// Reads a numeric text: as a decimal literal first, and where that fails as
/// a hexadecimal literal after an optional `0x`.
pub fn parse_num(text: &str, signed: bool, lo: i64, hi: i64) -> (r: Option<i64>)
    ensures
        r == match read_num(text@, signed, lo as int, hi as int) {
            Some(v) => Some(v as i64),
            None => None,
        },
{
    match parse_int(text, false, signed, lo, hi) {
        Some(v) => Some(v),
        None => parse_int(strip_hex_prefix(text), true, signed, lo, hi),
    }
}

/// Reads an integer literal where no type is asked for: as a decimal
/// literal first, and where that fails as hexadecimal digits behind `0x`.
pub fn parse_plain(text: &str, lo: i64, hi: i64) -> (r: Option<i64>)
    ensures
        r == match read_plain(text@, lo as int, hi as int) {
            Some(v) => Some(v as i64),
            None => None,
        },
{
    match parse_int(text, false, true, lo, hi) {
        Some(v) => Some(v),
        None => {
            let len = text.unicode_len();
            if len >= 2 && text.get_char(0) == '0' && text.get_char(1) == 'x' {
                let rest = text.substring_char(2, len);
                assert(rest@ =~= text@.skip(2));
                parse_int(rest, true, false, lo, hi)
            } else {
                None
            }
        },
    }
}

/// The digit written for a value is read as that value, and is no sign.
pub proof fn lemma_digit_char(d: nat)
    requires
        d < 16,
    ensures
        digit_of(digit_char(d)) == Some(d),
        digit_char(d) != '+',
        digit_char(d) != '-',
{
}

/// The digits written for a number are digits, begin with no sign, and are
/// read as the number.
pub proof fn lemma_digits_text(n: nat, hex: bool)
    ensures
        digits_text(n, hex).len() >= 1,
        all_digits(digits_text(n, hex), hex),
        digits_value(digits_text(n, hex), hex) == n,
        digits_text(n, hex)[0] != '+',
        digits_text(n, hex)[0] != '-',
    decreases n,
{
    let s = digits_text(n, hex);
    if hex {
        if n < 16 {
            lemma_digit_char(n);
            assert(s.drop_last() =~= Seq::<char>::empty());
            assert(digits_value(Seq::<char>::empty(), hex) == 0);
            assert(s.last() == digit_char(n));
            assert(digits_value(s, hex) == n);
        } else {
            lemma_digits_text(n / 16, hex);
            lemma_digit_char(n % 16);
            let prev = digits_text(n / 16, hex);
            assert(s.drop_last() =~= prev);
            assert(s.last() == digit_char(n % 16));
            assert(digits_value(s, hex) == digits_value(prev, hex) * 16 + (n % 16));
            assert(s[0] == prev[0]);
            assert forall|i: int| 0 <= i < s.len() implies is_digit(#[trigger] s[i], hex) by {
                if i < prev.len() {
                    assert(s[i] == prev[i]);
                }
            }
        }
    } else {
        if n < 10 {
            lemma_digit_char(n);
            assert(s.drop_last() =~= Seq::<char>::empty());
            assert(digits_value(Seq::<char>::empty(), hex) == 0);
            assert(s.last() == digit_char(n));
            assert(digits_value(s, hex) == n);
        } else {
            lemma_digits_text(n / 10, hex);
            lemma_digit_char(n % 10);
            let prev = digits_text(n / 10, hex);
            assert(s.drop_last() =~= prev);
            assert(s.last() == digit_char(n % 10));
            assert(digits_value(s, hex) == digits_value(prev, hex) * 10 + (n % 10));
            assert(s[0] == prev[0]);
            assert forall|i: int| 0 <= i < s.len() implies is_digit(#[trigger] s[i], hex) by {
                if i < prev.len() {
                    assert(s[i] == prev[i]);
                }
            }
        }
    }
}

/// The decimal text of an integer is read as the integer.
pub proof fn lemma_read_int_text(v: int, signed: bool, lo: int, hi: int)
    requires
        lo <= v <= hi,
        signed || v >= 0,
    ensures
        is_literal(int_text(v), false, signed),
        literal_value(int_text(v), false, signed) == v,
        read_int(int_text(v), false, signed, lo, hi) == Some(v),
{
    let s = int_text(v);
    if v < 0 {
        let digits = digits_text((-v) as nat, false);
        lemma_digits_text((-v) as nat, false);
        assert(s[0] == '-');
        assert(s.skip(1) =~= digits);
    } else {
        lemma_digits_text(v as nat, false);
        assert(s.skip(0) =~= s);
    }
}

/// The decimal text of an integer is read as the integer where a number is
/// asked for.
pub proof fn lemma_read_num_text(v: int, signed: bool, lo: int, hi: int)
    requires
        lo <= v <= hi,
        signed || v >= 0,
    ensures
        read_num(int_text(v), signed, lo, hi) == Some(v),
{
    lemma_read_int_text(v, signed, lo, hi);
}

/// The decimal text of an integer is read as the integer where no type is
/// asked for.
pub proof fn lemma_read_plain_text(v: int, lo: int, hi: int)
    requires
        lo <= v <= hi,
    ensures
        read_plain(int_text(v), lo, hi) == Some(v),
{
    lemma_read_int_text(v, true, lo, hi);
}

/// The hexadecimal text of a number is read as the number.
pub proof fn lemma_read_num_hex(n: nat, lo: int, hi: int)
    requires
        lo <= n <= hi,
    ensures
        read_num(hex_text(n), false, lo, hi) == Some(n as int),
{
    let s = hex_text(n);
    let digits = digits_text(n, true);
    lemma_digits_text(n, true);
    assert(s[0] == '0' && s[1] == 'x');
    assert(s.skip(0) =~= s);
    assert(!is_digit(s[1], false));
    assert(!is_literal(s, false, false));
    assert(s.skip(2) =~= digits);
    assert(digits.skip(0) =~= digits);
}

/// The decimal text of an unsigned value is read as the value in 64 bits.
pub proof fn lemma_read_u64_text(v: nat)
    requires
        v <= u64::MAX,
    ensures
        read_u64(int_text(v as int)) == Some(v as u64),
{
    lemma_read_int_text(v as int, false, 0, u64::MAX as int);
}

/// Whether `c` is the letter, in lower or in upper case.
pub open spec fn is_letter(c: char, lower: char, upper: char) -> bool {
    c == lower || c == upper
}

/// Whether a text is one of the words that stand for a floating-point value
/// that is no number or not finite: `nan`, `inf`, `infinity`, in any case.
pub open spec fn is_float_word(s: Seq<char>) -> bool {
    ||| s.len() == 3 && is_letter(s[0], 'n', 'N') && is_letter(s[1], 'a', 'A') && is_letter(
        s[2],
        'n',
        'N',
    )
    ||| s.len() == 3 && is_letter(s[0], 'i', 'I') && is_letter(s[1], 'n', 'N') && is_letter(
        s[2],
        'f',
        'F',
    )
    ||| s.len() == 8 && is_letter(s[0], 'i', 'I') && is_letter(s[1], 'n', 'N') && is_letter(
        s[2],
        'f',
        'F',
    ) && is_letter(s[3], 'i', 'I') && is_letter(s[4], 'n', 'N') && is_letter(s[5], 'i', 'I')
        && is_letter(s[6], 't', 'T') && is_letter(s[7], 'y', 'Y')
}

/// Whether a text begins like a number: with a decimal digit, a sign or a
/// dot.
pub open spec fn has_numeric_start(s: Seq<char>) -> bool {
    s.len() > 0 && (s[0] == '+' || s[0] == '-' || s[0] == '.' || is_digit(s[0], false))
}

/// Whether a text looks like a floating-point number: it is empty, begins
/// like a number, or is a word for a value that is no number or not finite.
/// Every decimal floating-point literal looks so; not everything that looks
/// so is one.
pub open spec fn looks_numeric(s: Seq<char>) -> bool {
    s.len() == 0 || has_numeric_start(s) || is_float_word(s)
}

/// Whether a text looks like a floating-point number.
pub fn looks_like_number(text: &str) -> (r: bool)
    ensures
        r == looks_numeric(text@),
{
    let c = crate::text::chars_of(text);
    let n = c.len();
    if n == 0 {
        return true;
    }
    let first = c[0];
    if first == '+' || first == '-' || first == '.' || first == '0' || first == '1' || first == '2'
        || first == '3' || first == '4' || first == '5' || first == '6' || first == '7' || first
        == '8' || first == '9' {
        return true;
    }
    if n == 3 {
        let nan = (c[0] == 'n' || c[0] == 'N') && (c[1] == 'a' || c[1] == 'A') && (c[2] == 'n'
            || c[2] == 'N');
        let inf = (c[0] == 'i' || c[0] == 'I') && (c[1] == 'n' || c[1] == 'N') && (c[2] == 'f'
            || c[2] == 'F');
        nan || inf
    } else if n == 8 {
        (c[0] == 'i' || c[0] == 'I') && (c[1] == 'n' || c[1] == 'N') && (c[2] == 'f' || c[2]
            == 'F') && (c[3] == 'i' || c[3] == 'I') && (c[4] == 'n' || c[4] == 'N') && (c[5] == 'i'
            || c[5] == 'I') && (c[6] == 't' || c[6] == 'T') && (c[7] == 'y' || c[7] == 'Y')
    } else {
        false
    }
}

} // verus!
