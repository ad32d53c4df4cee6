//! Text: numbers in digits, padded cells, joined cells, and the parsing of typed lines.

use vstd::prelude::*;
use vstd::utf8::is_ascii_chars;

verus! {

/// The character of the digit `d`, for `d` below 16.
pub open spec fn digit_char(d: nat) -> char {
    if d < 10 {
        (('0' as nat) + d) as char
    } else {
        (('a' as nat) + d - 10) as char
    }
}

/// `n` written in the given base, most significant digit first, without leading zeros.
pub open spec fn numeral(n: nat, base: nat) -> Seq<char>
    decreases n,
{
    if n < base || base < 2 {
        seq![digit_char(n)]
    } else {
        proof {
            assert(n / base < n) by (nonlinear_arith)
                requires
                    n >= base,
                    base >= 2,
            ;
        }
        numeral(n / base, base).push(digit_char(n % base))
    }
}

/// `n` in decimal digits.
pub open spec fn decimal(n: nat) -> Seq<char> {
    numeral(n, 10)
}

/// `n` in lower-case hexadecimal digits.
pub open spec fn hexadecimal(n: nat) -> Seq<char> {
    numeral(n, 16)
}

/// The text of one digit.
fn digit_text(d: u8) -> (r: &'static str)
    requires
        d < 16,
    ensures
        r@ == seq![digit_char(d as nat)],
{
    proof {
        reveal_strlit("0");
        reveal_strlit("1");
        reveal_strlit("2");
        reveal_strlit("3");
        reveal_strlit("4");
        reveal_strlit("5");
        reveal_strlit("6");
        reveal_strlit("7");
        reveal_strlit("8");
        reveal_strlit("9");
        reveal_strlit("a");
        reveal_strlit("b");
        reveal_strlit("c");
        reveal_strlit("d");
        reveal_strlit("e");
        reveal_strlit("f");
    }
    match d {
        0 => "0",
        1 => "1",
        2 => "2",
        3 => "3",
        4 => "4",
        5 => "5",
        6 => "6",
        7 => "7",
        8 => "8",
        9 => "9",
        10 => "a",
        11 => "b",
        12 => "c",
        13 => "d",
        14 => "e",
        _ => "f",
    }
}

/// Appends `n` in the given base.
fn push_numeral(out: &mut String, n: u128, base: u8)
    requires
        2 <= base <= 16,
    ensures
        final(out)@ == old(out)@ + numeral(n as nat, base as nat),
    decreases n,
{
    if n < base as u128 {
        out.append(digit_text(n as u8));
    } else {
        assert(n / (base as u128) < n) by (nonlinear_arith)
            requires
                n >= base,
                base >= 2,
        ;
        push_numeral(out, n / (base as u128), base);
        out.append(digit_text((n % (base as u128)) as u8));
    }
}

/// Appends `n` in decimal digits.
pub fn push_decimal(out: &mut String, n: u128)
    ensures
        final(out)@ == old(out)@ + decimal(n as nat),
{
    push_numeral(out, n, 10);
}

/// Appends `n` in lower-case hexadecimal digits.
pub fn push_hexadecimal(out: &mut String, n: u64)
    ensures
        final(out)@ == old(out)@ + hexadecimal(n as nat),
{
    push_numeral(out, n as u128, 16);
}

/// Whether `c` has the Unicode property White_Space.
pub open spec fn is_whitespace(c: char) -> bool {
    let u = c as u32;
    ||| 0x9 <= u <= 0xd
    ||| u == 0x20
    ||| u == 0x85
    ||| u == 0xa0
    ||| u == 0x1680
    ||| 0x2000 <= u <= 0x200a
    ||| u == 0x2028
    ||| u == 0x2029
    ||| u == 0x202f
    ||| u == 0x205f
    ||| u == 0x3000
}

/// `s` without its leading whitespace.
pub open spec fn trimmed_start(s: Seq<char>) -> Seq<char>
    decreases s.len(),
{
    if s.len() > 0 && is_whitespace(s[0]) {
        trimmed_start(s.drop_first())
    } else {
        s
    }
}

/// `s` without its trailing whitespace.
pub open spec fn trimmed_end(s: Seq<char>) -> Seq<char>
    decreases s.len(),
{
    if s.len() > 0 && is_whitespace(s.last()) {
        trimmed_end(s.drop_last())
    } else {
        s
    }
}

/// `s` without its leading and trailing whitespace.
pub open spec fn trimmed(s: Seq<char>) -> Seq<char> {
    trimmed_end(trimmed_start(s))
}

/// Calls `str::trim`, which removes leading and trailing whitespace, where whitespace is
/// what has the Unicode property White_Space.
#[verifier::external_body]
pub(crate) fn trim(s: &str) -> (r: &str)
    ensures
        r@ == trimmed(s@),
{
    s.trim()
}

/// Whitespace around a text that neither starts nor ends with whitespace is all that trimming
/// removes.
pub proof fn lemma_trimmed(before: Seq<char>, middle: Seq<char>, after: Seq<char>)
    requires
        forall|i: int| 0 <= i < before.len() ==> is_whitespace(#[trigger] before[i]),
        forall|i: int| 0 <= i < after.len() ==> is_whitespace(#[trigger] after[i]),
        middle.len() > 0,
        !is_whitespace(middle[0]),
        !is_whitespace(middle.last()),
    ensures
        trimmed(before + middle + after) == middle,
    decreases before.len() + after.len(),
{
    let s = before + middle + after;
    if before.len() > 0 {
        let rest = before.drop_first();
        assert forall|i: int| 0 <= i < rest.len() implies is_whitespace(#[trigger] rest[i]) by {
            assert(rest[i] == before[i + 1]);
        }
        lemma_trimmed(rest, middle, after);
        assert(s[0] == before[0]);
        assert(s.drop_first() =~= rest + middle + after);
    } else if after.len() > 0 {
        let rest = after.drop_last();
        assert forall|i: int| 0 <= i < rest.len() implies is_whitespace(#[trigger] rest[i]) by {
            assert(rest[i] == after[i]);
        }
        lemma_trimmed(before, middle, rest);
        assert(s[0] == middle[0]);
        assert(trimmed_start(s) == s);
        assert(s.last() == after.last());
        assert(s.drop_last() =~= before + middle + rest);
        assert((before + middle + rest)[0] == middle[0]);
        assert(trimmed_start(before + middle + rest) == before + middle + rest);
    } else {
        assert(s =~= middle);
    }
}

/// Trimming keeps ASCII.
pub proof fn lemma_trimmed_ascii(s: Seq<char>)
    requires
        is_ascii_chars(s),
    ensures
        is_ascii_chars(trimmed(s)),
{
    lemma_trimmed_start_ascii(s);
    lemma_trimmed_end_ascii(trimmed_start(s));
}

proof fn lemma_trimmed_start_ascii(s: Seq<char>)
    requires
        is_ascii_chars(s),
    ensures
        is_ascii_chars(trimmed_start(s)),
    decreases s.len(),
{
    if s.len() > 0 {
        assert(is_ascii_chars(s.drop_first())) by {
            assert forall|i: int| 0 <= i < s.len() - 1 implies #[trigger] s.drop_first()[i]
                == s[i + 1] by {}
        }
        lemma_trimmed_start_ascii(s.drop_first());
    }
}

proof fn lemma_trimmed_end_ascii(s: Seq<char>)
    requires
        is_ascii_chars(s),
    ensures
        is_ascii_chars(trimmed_end(s)),
    decreases s.len(),
{
    if s.len() > 0 {
        lemma_trimmed_end_ascii(s.drop_last());
    }
}

/// Lower case and trimming do not disturb each other on ASCII.
pub proof fn lemma_lowercase_trimmed(s: Seq<char>)
    ensures
        ascii_lowercase(trimmed(s)) == trimmed(ascii_lowercase(s)),
{
    lemma_lowercase_trimmed_start(s);
    lemma_lowercase_trimmed_end(trimmed_start(s));
}

proof fn lemma_lowercase_trimmed_start(s: Seq<char>)
    ensures
        ascii_lowercase(trimmed_start(s)) == trimmed_start(ascii_lowercase(s)),
    decreases s.len(),
{
    if s.len() > 0 {
        lemma_lowercase_trimmed_start(s.drop_first());
        assert(ascii_lowercase(s).drop_first() =~= ascii_lowercase(s.drop_first()));
        assert(is_whitespace(s[0]) == is_whitespace(ascii_lowercase(s)[0]));
    }
}

proof fn lemma_lowercase_trimmed_end(s: Seq<char>)
    ensures
        ascii_lowercase(trimmed_end(s)) == trimmed_end(ascii_lowercase(s)),
    decreases s.len(),
{
    if s.len() > 0 {
        lemma_lowercase_trimmed_end(s.drop_last());
        assert(ascii_lowercase(s).drop_last() =~= ascii_lowercase(s.drop_last()));
        assert(is_whitespace(s.last()) == is_whitespace(ascii_lowercase(s).last()));
    }
}

/// `c` with the letters `A` to `Z` in lower case.
pub open spec fn ascii_lowercase_char(c: char) -> char {
    if 'A' as u32 <= c as u32 <= 'Z' as u32 {
        ((c as u32) + 32) as char
    } else {
        c
    }
}

/// `s` with the letters `A` to `Z` in lower case.
pub open spec fn ascii_lowercase(s: Seq<char>) -> Seq<char> {
    s.map_values(|c: char| ascii_lowercase_char(c))
}

/// What `str::to_lowercase` makes of a text with characters outside ASCII.
pub uninterp spec fn unicode_lowercase(s: Seq<char>) -> Seq<char>;

/// `s` in lower case.
pub open spec fn lowercase(s: Seq<char>) -> Seq<char> {
    if is_ascii_chars(s) {
        ascii_lowercase(s)
    } else {
        unicode_lowercase(s)
    }
}

/// Calls `str::to_lowercase`. On ASCII text it maps `A` to `Z` to `a` to `z` and keeps the
/// rest; on other text it follows the Unicode tables, and the result is only named.
#[verifier::external_body]
pub(crate) fn to_lowercase(s: &str) -> (r: String)
    ensures
        is_ascii_chars(s@) ==> r@ == ascii_lowercase(s@),
        !is_ascii_chars(s@) ==> r@ == unicode_lowercase(s@),
{
    s.to_lowercase()
}

/// Whether two texts are the same.
pub fn same_text(a: &str, b: &str) -> (r: bool)
    ensures
        r == (a@ == b@),
{
    a.to_owned() == b.to_owned()
}

/// `s` with spaces in front, so that it takes at least `width` characters.
pub open spec fn padded(s: Seq<char>, width: nat) -> Seq<char> {
    if s.len() >= width {
        s
    } else {
        Seq::new((width - s.len()) as nat, |i: int| ' ') + s
    }
}

/// `s` with spaces in front, so that it takes at least `width` characters.
pub fn pad_left(s: &str, width: usize) -> (r: String)
    ensures
        r@ == padded(s@, width as nat),
{
    proof {
        reveal_strlit(" ");
    }
    let mut out = String::new();
    let len: usize = s.unicode_len();
    let mut at: usize = len;
    while at < width
        invariant
            len == s@.len(),
            len <= at,
            at <= width || at == len,
            " "@ == seq![' '],
            out@ == Seq::new((at - len) as nat, |i: int| ' '),
        decreases width - at,
    {
        out.append(" ");
        at = at + 1;
        assert(out@ =~= Seq::new((at - len) as nat, |i: int| ' '));
    }
    out.append(s);
    assert(out@ =~= padded(s@, width as nat));
    out
}

/// The texts of a sequence of strings.
pub open spec fn texts(cells: Seq<String>) -> Seq<Seq<char>> {
    cells.map_values(|c: String| c@)
}

/// The cells one after the other, with `sep` between neighbours.
pub open spec fn joined(cells: Seq<Seq<char>>, sep: Seq<char>) -> Seq<char>
    decreases cells.len(),
{
    if cells.len() == 0 {
        Seq::empty()
    } else if cells.len() == 1 {
        cells[0]
    } else {
        joined(cells.drop_last(), sep) + sep + cells.last()
    }
}

/// The cells one after the other, with `sep` between neighbours.
pub fn join(cells: &Vec<String>, sep: &str) -> (r: String)
    ensures
        r@ == joined(texts(cells@), sep@),
{
    let mut out = String::new();
    let mut i: usize = 0;
    while i < cells.len()
        invariant
            i <= cells.len(),
            out@ == joined(texts(cells@).take(i as int), sep@),
        decreases cells.len() - i,
    {
        if i > 0 {
            out.append(sep);
        }
        out.append(cells[i].as_str());
        proof {
            let before = texts(cells@).take(i as int);
            let after = texts(cells@).take(i + 1);
            assert(after.drop_last() =~= before);
            assert(after.last() == cells@[i as int]@);
            assert(before.len() == 0 ==> joined(before, sep@) =~= Seq::<char>::empty());
            assert(out@ =~= joined(after, sep@));
        }
        i = i + 1;
    }
    assert(texts(cells@).take(cells@.len() as int) =~= texts(cells@));
    out
}

/// Whether `c` is a decimal digit.
pub open spec fn is_digit(c: char) -> bool {
    '0' as u32 <= c as u32 <= '9' as u32
}

/// The value of a sequence of decimal digits.
pub open spec fn digits_value(s: Seq<char>) -> nat
    decreases s.len(),
{
    if s.len() == 0 {
        0
    } else {
        digits_value(s.drop_last()) * 10 + ((s.last() as nat) - ('0' as nat)) as nat
    }
}

/// The digits of a number that may carry a plus sign.
pub open spec fn unsigned_digits(s: Seq<char>) -> Seq<char> {
    if s.len() > 0 && s[0] == '+' {
        s.drop_first()
    } else {
        s
    }
}

/// The number that a text writes: an optional plus sign, then digits and nothing else.
pub open spec fn unsigned_value(s: Seq<char>) -> Option<nat> {
    let digits = unsigned_digits(s);
    if digits.len() > 0 && (forall|i: int| 0 <= i < digits.len() ==> is_digit(#[trigger] digits[i])) {
        Some(digits_value(digits))
    } else {
        None
    }
}

/// The number that a text writes, if it is at most `max`.
pub fn parse_unsigned(s: &str, max: u64) -> (r: Option<u64>)
    ensures
        match unsigned_value(s@) {
            Some(n) => r == (if n <= max {
                Some(n as u64)
            } else {
                None
            }),
            None => r is None,
        },
{
    let len: usize = s.unicode_len();
    let start: usize = if len > 0 && s.get_char(0) == '+' {
        1
    } else {
        0
    };
    let ghost digits = unsigned_digits(s@);
    assert(digits =~= s@.skip(start as int));
    if start == len {
        return None;
    }
    let mut value: u128 = 0;
    let mut fits: bool = true;
    let mut i: usize = start;
    while i < len
        invariant
            len == s@.len(),
            start <= i <= len,
            digits == s@.skip(start as int),
            digits == unsigned_digits(s@),
            forall|k: int| 0 <= k < i - start ==> is_digit(#[trigger] digits[k]),
            fits ==> value == digits_value(digits.take(i - start)) && value <= max,
            !fits ==> digits_value(digits.take(i - start)) > max,
        decreases len - i,
    {
        let c: char = s.get_char(i);
        assert(c == digits[i - start]);
        if !('0' <= c && c <= '9') {
            return None;
        }
        assert(digits.take(i + 1 - start).drop_last() =~= digits.take(i - start));
        if fits {
            value = value * 10 + ((c as u32) - ('0' as u32)) as u128;
            if value > max as u128 {
                fits = false;
            }
        }
        i = i + 1;
    }
    assert(digits.take(len - start) =~= digits);
    if fits {
        Some(value as u64)
    } else {
        None
    }
}

/// Decimal digits read back: what is written of a number in decimal has that number as its
/// value, holds nothing but digits, and starts with no zero but that of zero itself.
pub proof fn law_decimal_reads_back(n: nat)
    ensures
        unsigned_value(decimal(n)) == Some(n),
        decimal(n).len() > 0,
        n > 0 ==> decimal(n)[0] != '0',
        n == 0 ==> decimal(n) == seq!['0'],
        forall|i: int| 0 <= i < decimal(n).len() ==> is_digit(#[trigger] decimal(n)[i]),
    decreases n,
{
    if n < 10 {
        assert(decimal(n) =~= seq![digit_char(n)]);
        assert(decimal(n).drop_last() =~= Seq::<char>::empty());
        reveal_with_fuel(digits_value, 2);
        assert(decimal(n)[0] != '+');
    } else {
        law_decimal_reads_back(n / 10);
        let front = decimal(n / 10);
        assert(decimal(n) =~= front.push(digit_char(n % 10)));
        assert(decimal(n).drop_last() =~= front);
        assert(front[0] != '+') by {
            assert(is_digit(front[0]));
        }
        assert(decimal(n)[0] == front[0]);
        assert(unsigned_digits(front) == front);
        assert(unsigned_digits(decimal(n)) == decimal(n));
    }
}

/// The value of a hexadecimal digit in lower case.
pub open spec fn hex_digit_value(c: char) -> int {
    if '0' <= c <= '9' {
        c as int - '0' as int
    } else {
        c as int - 'a' as int + 10
    }
}

/// The value of a sequence of hexadecimal digits in lower case.
pub open spec fn hex_value(s: Seq<char>) -> int
    decreases s.len(),
{
    if s.len() == 0 {
        0
    } else {
        hex_value(s.drop_last()) * 16 + hex_digit_value(s.last())
    }
}

/// Hexadecimal digits read back: what is written of a number has that number as its value,
/// holds nothing but digits in lower case, and starts with no zero but that of zero itself.
pub proof fn law_hexadecimal_reads_back(n: nat)
    ensures
        hex_value(hexadecimal(n)) == n,
        hexadecimal(n).len() > 0,
        n > 0 ==> hexadecimal(n)[0] != '0',
        n == 0 ==> hexadecimal(n) == seq!['0'],
        forall|i: int|
            0 <= i < hexadecimal(n).len() ==> '0' <= #[trigger] hexadecimal(n)[i] <= '9' || 'a'
                <= hexadecimal(n)[i] <= 'f',
    decreases n,
{
    let s = hexadecimal(n);
    if n < 16 {
        lemma_hex_digit(n);
        assert(s =~= seq![digit_char(n)]);
        assert(s.drop_last() =~= Seq::<char>::empty());
        reveal_with_fuel(hex_value, 2);
    } else {
        law_hexadecimal_reads_back(n / 16);
        lemma_hex_digit(n % 16);
        let front = hexadecimal(n / 16);
        assert(s =~= front.push(digit_char(n % 16)));
        assert(s.drop_last() =~= front);
        assert(s[0] == front[0]);
        assert forall|i: int| 0 <= i < s.len() implies '0' <= #[trigger] s[i] <= '9' || 'a' <= s[i]
            <= 'f' by {
            if i < front.len() {
                assert(s[i] == front[i]);
            }
        }
    }
}

proof fn lemma_hex_digit(d: nat)
    requires
        d < 16,
    ensures
        hex_digit_value(digit_char(d)) == d,
        '0' <= digit_char(d) <= '9' || 'a' <= digit_char(d) <= 'f',
        digit_char(d) == '0' <==> d == 0,
{
}

/// A text of nothing but whitespace is trimmed away.
pub proof fn law_blank_text_is_trimmed_away(s: Seq<char>)
    requires
        forall|i: int| 0 <= i < s.len() ==> is_whitespace(#[trigger] s[i]),
    ensures
        trimmed(s).len() == 0,
    decreases s.len(),
{
    if s.len() > 0 {
        let rest = s.drop_first();
        assert forall|i: int| 0 <= i < rest.len() implies is_whitespace(#[trigger] rest[i]) by {
            assert(rest[i] == s[i + 1]);
        }
        law_blank_text_is_trimmed_away(rest);
    }
}

/// A padded text is as wide as asked for, or as the text where that is wider; it ends with the
/// text, and all before that is spaces.
pub proof fn law_padded_text_is_right_aligned(s: Seq<char>, width: nat)
    ensures
        padded(s, width).len() == if s.len() >= width {
            s.len()
        } else {
            width
        },
        padded(s, width).skip(padded(s, width).len() - s.len()) == s,
        forall|i: int|
            0 <= i < padded(s, width).len() - s.len() ==> #[trigger] padded(s, width)[i] == ' ',
{
    let p = padded(s, width);
    assert(p.skip(p.len() - s.len()) =~= s);
}

/// The texts of strings are those of each of them, in their order.
pub proof fn law_texts_are_in_order(cells: Seq<String>)
    ensures
        texts(cells).len() == cells.len(),
        forall|i: int| 0 <= i < cells.len() ==> #[trigger] texts(cells)[i] == cells[i]@,
{
}

/// A text with anything but digits in it is no number, but for a plus sign in front; and there
/// has to be a digit.
pub proof fn law_number_is_digits(s: Seq<char>)
    ensures
        unsigned_value(s) is Some <==> {
            &&& s.len() > 0
            &&& s[0] == '+' ==> s.len() > 1
            &&& forall|i: int|
                0 <= i < s.len() ==> '0' <= #[trigger] s[i] <= '9' || (i == 0 && s[0] == '+')
        },
{
    let digits = unsigned_digits(s);
    let from: int = if s.len() > 0 && s[0] == '+' {
        1
    } else {
        0
    };
    assert forall|i: int| 0 <= i < digits.len() implies #[trigger] digits[i] == s[i + from] by {}
    if unsigned_value(s) is Some {
        assert forall|i: int| 0 <= i < s.len() implies '0' <= #[trigger] s[i] <= '9' || (i == 0
            && s[0] == '+') by {
            if i >= from {
                assert(digits[i - from] == s[i]);
                assert(is_digit(digits[i - from]));
                lemma_digit(s[i]);
            }
        }
    }
    if s.len() > 0 && (s[0] == '+' ==> s.len() > 1) && (forall|i: int|
        0 <= i < s.len() ==> '0' <= #[trigger] s[i] <= '9' || (i == 0 && s[0] == '+')) {
        assert forall|i: int| 0 <= i < digits.len() implies is_digit(#[trigger] digits[i]) by {
            let c = s[i + from];
            lemma_digit(c);
        }
    }
}

proof fn lemma_digit(c: char)
    ensures
        is_digit(c) <==> '0' <= c <= '9',
{
}

/// Zeros in front of a number do not matter, nor does a plus sign in front of all.
pub proof fn law_zeros_and_plus_do_not_matter(n: nat, zeros: Seq<char>)
    requires
        forall|i: int| 0 <= i < zeros.len() ==> #[trigger] zeros[i] == '0',
    ensures
        unsigned_value(zeros + decimal(n)) == Some(n),
        unsigned_value(seq!['+'] + zeros + decimal(n)) == Some(n),
{
    law_decimal_reads_back(n);
    let d = decimal(n);
    let s = zeros + d;
    let plus = seq!['+'] + zeros + d;
    assert(d[0] != '+') by {
        assert(is_digit(d[0]));
    }
    assert(unsigned_digits(d) == d);
    lemma_zeros_add_nothing(zeros, d);
    assert forall|i: int| 0 <= i < s.len() implies is_digit(#[trigger] s[i]) by {
        if i < zeros.len() {
            assert(s[i] == zeros[i]);
        } else {
            assert(s[i] == d[i - zeros.len()]);
            assert(is_digit(d[i - zeros.len()]));
        }
    }
    assert(is_digit(s[0]));
    assert(unsigned_digits(s) == s);
    assert(unsigned_digits(plus) =~= s);
}

proof fn lemma_zeros_add_nothing(zeros: Seq<char>, d: Seq<char>)
    requires
        forall|i: int| 0 <= i < zeros.len() ==> #[trigger] zeros[i] == '0',
    ensures
        digits_value(zeros + d) == digits_value(d),
    decreases zeros.len() + d.len(),
{
    let s = zeros + d;
    if d.len() > 0 {
        lemma_zeros_add_nothing(zeros, d.drop_last());
        assert(s.drop_last() =~= zeros + d.drop_last());
        assert(s.last() == d.last());
    } else if zeros.len() > 0 {
        lemma_zeros_add_nothing(zeros.drop_last(), d);
        assert(s.drop_last() =~= zeros.drop_last() + d);
        assert(s.last() == '0');
    } else {
        assert(s =~= d);
    }
}

/// Ten times a number and a digit is written as that number and that digit, and read the same
/// way; a number of one digit is written as that digit.
pub proof fn law_digits_are_tens(n: nat, d: nat, s: Seq<char>, c: char)
    requires
        d < 10,
        '0' <= c <= '9',
    ensures
        n > 0 ==> decimal(10 * n + d) == decimal(n).push((48 + d) as char),
        decimal(d) == seq![(48 + d) as char],
        digits_value(s.push(c)) == 10 * digits_value(s) + (c as int - 48),
        digits_value(Seq::empty()) == 0,
{
    assert((10 * n + d) / 10 == n);
    assert((10 * n + d) % 10 == d);
    assert(s.push(c).drop_last() =~= s);
}

/// Lower case keeps the length of an ASCII text, moves each letter from `A` to `Z` by 32, which
/// is to the same letter from `a` to `z`, and leaves all else as it is.
pub proof fn law_lower_case_moves_capitals(s: Seq<char>, c: char)
    ensures
        ascii_lowercase(s).len() == s.len(),
        forall|i: int|
            0 <= i < s.len() ==> #[trigger] ascii_lowercase(s)[i] == ascii_lowercase_char(s[i]),
        'A' <= c <= 'Z' ==> ascii_lowercase_char(c) as int == c as int + 32,
        !('A' <= c <= 'Z') ==> ascii_lowercase_char(c) == c,
{
}

} // verus!
