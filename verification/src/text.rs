//! The textual record syntax shared by the digest preimage and the stored
//! ledger: decimal numbers, length-prefixed strings and labelled lines.

use vstd::prelude::*;
use vstd::string::*;

verus! {

/// The character for the decimal digit `d`.
pub open spec fn digit_char(d: nat) -> char {
    (d + 48) as char
}

/// Whether `c` is one of `'0'..='9'`.
pub open spec fn is_digit(c: char) -> bool {
    48 <= c as int <= 57
}

/// The number that the digit `c` stands for.
pub open spec fn digit_value(c: char) -> nat {
    (c as int - 48) as nat
}

/// Decimal notation of `n`, without leading zeros.
pub open spec fn nat_text(n: nat) -> Seq<char>
    decreases n,
{
    if n < 10 {
        seq![digit_char(n)]
    } else {
        nat_text(n / 10).push(digit_char(n % 10))
    }
}

/// Decimal notation of `i`, with a leading `-` for negative numbers.
pub open spec fn int_text(i: int) -> Seq<char> {
    if i < 0 {
        seq!['-'] + nat_text((-i) as nat)
    } else {
        nat_text(i as nat)
    }
}

/// A string as its length in characters, a colon and the characters.
pub open spec fn str_text(s: Seq<char>) -> Seq<char> {
    nat_text(s.len()) + seq![':'] + s
}

/// A labelled line holding a number: the label, the number and a line feed.
pub open spec fn int_line(label: Seq<char>, i: int) -> Seq<char> {
    label + int_text(i) + seq!['\n']
}

/// A labelled line holding a string: the label, the string and a line feed.
pub open spec fn str_line(label: Seq<char>, s: Seq<char>) -> Seq<char> {
    label + str_text(s) + seq!['\n']
}

/// `String::push` of std appends the character `c` at the end of the string.
pub assume_specification[ String::push ](s: &mut String, c: char)
    ensures
        final(s)@ == old(s)@.push(c),
;

/// Appends the decimal notation of `n` to `out`.
pub fn write_nat(out: &mut String, n: u64)
    ensures
        final(out)@ == old(out)@ + nat_text(n as nat),
    decreases n,
{
    if n >= 10 {
        write_nat(out, n / 10);
    }
    let digit: u8 = (n % 10) as u8 + 48;
    out.push(digit as char);
}

/// Appends the decimal notation of `i` to `out`.
pub fn write_int(out: &mut String, i: i64)
    ensures
        final(out)@ == old(out)@ + int_text(i as int),
{
    if i < 0 {
        out.push('-');
        let wide: i128 = i as i128;
        let magnitude: u64 = (-wide) as u64;
        write_nat(out, magnitude);
    } else {
        write_nat(out, i as u64);
    }
}

/// Appends `s` in its length-prefixed form to `out`.
pub fn write_str(out: &mut String, s: &str)
    ensures
        final(out)@ == old(out)@ + str_text(s@),
{
    write_nat(out, s.unicode_len() as u64);
    out.push(':');
    out.append(s);
}

/// How many digits `s` begins with.
pub open spec fn digit_run(s: Seq<char>) -> nat
    decreases s.len(),
{
    if s.len() > 0 && is_digit(s[0]) {
        1 + digit_run(s.drop_first())
    } else {
        0
    }
}

/// The number that a run of digits denotes.
pub open spec fn digits_value(s: Seq<char>) -> nat
    decreases s.len(),
{
    if s.len() == 0 {
        0
    } else {
        10 * digits_value(s.drop_last()) + digit_value(s.last())
    }
}

/// Reads the digits that `s` begins with as a number, and gives the number
/// and what follows it. Only the notation that `nat_text` writes is read: a
/// number of several digits does not begin with a zero.
pub open spec fn parse_nat(s: Seq<char>) -> Option<(nat, Seq<char>)> {
    let run = digit_run(s) as int;
    if run == 0 || (run > 1 && s[0] == '0') {
        None
    } else {
        Some((digits_value(s.take(run)), s.skip(run)))
    }
}

/// Reads a number of at most `max`.
pub open spec fn parse_nat_within(s: Seq<char>, max: nat) -> Option<(nat, Seq<char>)> {
    match parse_nat(s) {
        Some((value, rest)) => if value <= max {
            Some((value, rest))
        } else {
            None
        },
        None => None,
    }
}

/// Reads a number that begins with `-` if it is negative, and only then.
pub open spec fn parse_int(s: Seq<char>) -> Option<(int, Seq<char>)> {
    if s.len() > 0 && s[0] == '-' {
        match parse_nat(s.drop_first()) {
            Some((magnitude, rest)) => if magnitude > 0 {
                Some((-(magnitude as int), rest))
            } else {
                None
            },
            None => None,
        }
    } else {
        match parse_nat(s) {
            Some((value, rest)) => Some((value as int, rest)),
            None => None,
        }
    }
}

/// Reads a number between `min` and `max` that may begin with `-`.
pub open spec fn parse_int_within(s: Seq<char>, min: int, max: int) -> Option<(int, Seq<char>)> {
    match parse_int(s) {
        Some((value, rest)) => if min <= value <= max {
            Some((value, rest))
        } else {
            None
        },
        None => None,
    }
}

/// Reads a length, a colon and that many characters.
pub open spec fn parse_str(s: Seq<char>) -> Option<(Seq<char>, Seq<char>)> {
    match parse_nat(s) {
        Some((len, rest)) => {
            if rest.len() >= 1 + len && rest[0] == ':' {
                Some((rest.subrange(1, 1 + len as int), rest.skip(1 + len as int)))
            } else {
                None
            }
        },
        None => None,
    }
}

/// Takes the literal `lit` off the front of `s`.
pub open spec fn expect(s: Seq<char>, lit: Seq<char>) -> Option<Seq<char>> {
    if lit.len() <= s.len() && s.take(lit.len() as int) == lit {
        Some(s.skip(lit.len() as int))
    } else {
        None
    }
}

/// Reads a labelled line that holds a number between `min` and `max`.
pub open spec fn parse_int_line(label: Seq<char>, s: Seq<char>, min: int, max: int) -> Option<
    (int, Seq<char>),
> {
    match expect(s, label) {
        Some(after_label) => match parse_int_within(after_label, min, max) {
            Some((value, after_value)) => match expect(after_value, seq!['\n']) {
                Some(rest) => Some((value, rest)),
                None => None,
            },
            None => None,
        },
        None => None,
    }
}

/// Reads a labelled line that holds a string.
pub open spec fn parse_str_line(label: Seq<char>, s: Seq<char>) -> Option<(Seq<char>, Seq<char>)> {
    match expect(s, label) {
        Some(after_label) => match parse_str(after_label) {
            Some((value, after_value)) => match expect(after_value, seq!['\n']) {
                Some(rest) => Some((value, rest)),
                None => None,
            },
            None => None,
        },
        None => None,
    }
}

/// A sequence begins with no more digits than it has characters.
pub proof fn lemma_digit_run_bounded(s: Seq<char>)
    ensures
        digit_run(s) <= s.len(),
    decreases s.len(),
{
    if s.len() > 0 && is_digit(s[0]) {
        lemma_digit_run_bounded(s.drop_first());
    }
}

/// A sequence whose first `run` characters are digits, and whose next
/// character is none, begins with exactly `run` digits.
pub proof fn lemma_digit_run(s: Seq<char>, run: nat)
    requires
        run <= s.len(),
        forall|j: int| 0 <= j < run ==> is_digit(s[j]),
        run == s.len() || !is_digit(s[run as int]),
    ensures
        digit_run(s) == run,
    decreases run,
{
    if run > 0 {
        let tail = s.drop_first();
        assert forall|j: int| 0 <= j < run - 1 implies is_digit(tail[j]) by {}
        lemma_digit_run(tail, (run - 1) as nat);
    }
}

/// The decimal notation of `n` consists of digits and denotes `n`.
pub proof fn lemma_nat_text_value(n: nat)
    ensures
        nat_text(n).len() >= 1,
        forall|j: int| 0 <= j < nat_text(n).len() ==> is_digit(#[trigger] nat_text(n)[j]),
        digits_value(nat_text(n)) == n,
        n > 0 ==> nat_text(n)[0] != '0',
        n < 10 ==> nat_text(n).len() == 1,
    decreases n,
{
    if n < 10 {
        assert(digits_value(nat_text(n).drop_last()) == 0);
    } else {
        lemma_nat_text_value(n / 10);
        assert(nat_text(n).drop_last() =~= nat_text(n / 10));
    }
}

/// The characters that a sequence begins with, as far as `digit_run` counts,
/// are digits.
pub proof fn lemma_digit_run_digits(s: Seq<char>)
    ensures
        digit_run(s) <= s.len(),
        forall|j: int| 0 <= j < digit_run(s) ==> is_digit(#[trigger] s[j]),
        digit_run(s) < s.len() ==> !is_digit(s[digit_run(s) as int]),
    decreases s.len(),
{
    if s.len() > 0 && is_digit(s[0]) {
        let tail = s.drop_first();
        lemma_digit_run_digits(tail);
        assert forall|j: int| 0 <= j < digit_run(s) implies is_digit(#[trigger] s[j]) by {
            if j > 0 {
                assert(s[j] == tail[j - 1]);
            }
        }
    }
}

/// A run of digits that does not begin with a needless zero is the decimal
/// notation of the number it denotes.
pub proof fn lemma_digits_text(digits: Seq<char>)
    requires
        digits.len() >= 1,
        forall|j: int| 0 <= j < digits.len() ==> is_digit(#[trigger] digits[j]),
        digits.len() == 1 || digits[0] != '0',
    ensures
        nat_text(digits_value(digits)) == digits,
        digits[0] != '0' ==> digits_value(digits) >= 1,
        digits.len() > 1 ==> digits_value(digits) >= 10,
    decreases digits.len(),
{
    let front = digits.drop_last();
    if digits.len() == 1 {
        assert(digits_value(front) == 0);
    } else {
        assert forall|j: int| 0 <= j < front.len() implies is_digit(#[trigger] front[j]) by {}
        lemma_digits_text(front);
    }
}

/// What `parse_nat` reads is the notation of the number it gives.
pub proof fn lemma_parse_nat_sound(s: Seq<char>, n: nat, rest: Seq<char>)
    requires
        parse_nat(s) == Some((n, rest)),
    ensures
        s == nat_text(n) + rest,
        rest.len() < s.len(),
{
    let run = digit_run(s) as int;
    lemma_digit_run_digits(s);
    let digits = s.take(run);
    assert forall|j: int| 0 <= j < digits.len() implies is_digit(#[trigger] digits[j]) by {}
    lemma_digits_text(digits);
}

/// What `parse_int` reads is the notation of the number it gives.
pub proof fn lemma_parse_int_sound(s: Seq<char>, i: int, rest: Seq<char>)
    requires
        parse_int(s) == Some((i, rest)),
    ensures
        s == int_text(i) + rest,
        rest.len() < s.len(),
{
    if s.len() > 0 && s[0] == '-' {
        let tail = s.drop_first();
        lemma_parse_nat_sound(tail, (-i) as nat, rest);
        assert(s =~= seq!['-'] + tail);
    } else {
        lemma_parse_nat_sound(s, i as nat, rest);
    }
}

/// What `parse_str` reads is the length-prefixed form of the string it gives.
pub proof fn lemma_parse_str_sound(s: Seq<char>, value: Seq<char>, rest: Seq<char>)
    requires
        parse_str(s) == Some((value, rest)),
    ensures
        s == str_text(value) + rest,
        rest.len() < s.len(),
{
    match parse_nat(s) {
        Some((len, after_len)) => {
            lemma_parse_nat_sound(s, len, after_len);
        },
        None => {},
    }
}

/// What `expect` takes off is the literal.
pub proof fn lemma_expect_sound(s: Seq<char>, lit: Seq<char>, rest: Seq<char>)
    requires
        expect(s, lit) == Some(rest),
    ensures
        s == lit + rest,
        rest.len() + lit.len() == s.len(),
{
}

/// What `parse_int_line` reads is the line of the number it gives, and the
/// number is within the limits.
pub proof fn lemma_parse_int_line_sound(
    label: Seq<char>,
    s: Seq<char>,
    min: int,
    max: int,
    i: int,
    rest: Seq<char>,
)
    requires
        parse_int_line(label, s, min, max) == Some((i, rest)),
    ensures
        s == int_line(label, i) + rest,
        min <= i <= max,
        rest.len() < s.len(),
{
    match expect(s, label) {
        Some(after_label) => {
            lemma_expect_sound(s, label, after_label);
            match parse_int(after_label) {
                Some((value, after_value)) => {
                    lemma_parse_int_sound(after_label, value, after_value);
                    lemma_expect_sound(after_value, seq!['\n'], rest);
                },
                None => {},
            }
        },
        None => {},
    }
}

/// What `parse_str_line` reads is the line of the string it gives.
pub proof fn lemma_parse_str_line_sound(
    label: Seq<char>,
    s: Seq<char>,
    value: Seq<char>,
    rest: Seq<char>,
)
    requires
        parse_str_line(label, s) == Some((value, rest)),
    ensures
        s == str_line(label, value) + rest,
        rest.len() < s.len(),
{
    match expect(s, label) {
        Some(after_label) => {
            lemma_expect_sound(s, label, after_label);
            match parse_str(after_label) {
                Some((read, after_value)) => {
                    lemma_parse_str_sound(after_label, read, after_value);
                    lemma_expect_sound(after_value, seq!['\n'], rest);
                },
                None => {},
            }
        },
        None => {},
    }
}

/// Reading gives back a number that was written, if what follows the number
/// does not begin with a digit.
pub proof fn lemma_parse_nat_text(n: nat, rest: Seq<char>)
    requires
        rest.len() == 0 || !is_digit(rest[0]),
    ensures
        parse_nat(nat_text(n) + rest) == Some((n, rest)),
{
    let written = nat_text(n);
    let s = written + rest;
    lemma_nat_text_value(n);
    assert forall|j: int| 0 <= j < written.len() implies is_digit(s[j]) by {}
    lemma_digit_run(s, written.len());
    assert(s.take(written.len() as int) =~= written);
}

/// Reading gives back a signed number that was written.
pub proof fn lemma_parse_int_text(i: int, rest: Seq<char>)
    requires
        rest.len() == 0 || !is_digit(rest[0]),
    ensures
        parse_int(int_text(i) + rest) == Some((i, rest)),
{
    let s = int_text(i) + rest;
    if i < 0 {
        assert(s.drop_first() =~= nat_text((-i) as nat) + rest);
        lemma_parse_nat_text((-i) as nat, rest);
    } else {
        lemma_nat_text_value(i as nat);
        lemma_parse_nat_text(i as nat, rest);
    }
}

/// Reading gives back a string that was written, whatever follows it.
pub proof fn lemma_parse_str_text(value: Seq<char>, rest: Seq<char>)
    ensures
        parse_str(str_text(value) + rest) == Some((value, rest)),
{
    let tail = seq![':'] + value + rest;
    assert(str_text(value) + rest =~= nat_text(value.len()) + tail);
    lemma_parse_nat_text(value.len(), tail);
}

/// A literal is taken off the front of whatever it was put in front of.
pub proof fn lemma_expect_prefix(lit: Seq<char>, rest: Seq<char>)
    ensures
        expect(lit + rest, lit) == Some(rest),
{
    assert((lit + rest).take(lit.len() as int) =~= lit);
}

/// Reading gives back the number of a labelled line that was written.
pub proof fn lemma_parse_int_line(label: Seq<char>, i: int, rest: Seq<char>, min: int, max: int)
    requires
        min <= i <= max,
    ensures
        parse_int_line(label, int_line(label, i) + rest, min, max) == Some((i, rest)),
{
    let end = seq!['\n'] + rest;
    assert(int_line(label, i) + rest =~= label + (int_text(i) + end));
    lemma_expect_prefix(label, int_text(i) + end);
    lemma_parse_int_text(i, end);
    lemma_expect_prefix(seq!['\n'], rest);
}

/// Reading gives back the string of a labelled line that was written.
pub proof fn lemma_parse_str_line(label: Seq<char>, value: Seq<char>, rest: Seq<char>)
    ensures
        parse_str_line(label, str_line(label, value) + rest) == Some((value, rest)),
{
    let end = seq!['\n'] + rest;
    assert(str_line(label, value) + rest =~= label + (str_text(value) + end));
    lemma_expect_prefix(label, str_text(value) + end);
    lemma_parse_str_text(value, end);
    lemma_expect_prefix(seq!['\n'], rest);
}

/// The characters of `text`, for reading by position.
pub fn to_chars(text: &str) -> (chars: Vec<char>)
    ensures
        chars@ == text@,
{
    let mut chars: Vec<char> = Vec::new();
    for c in it: text.chars()
        invariant
            it.seq() == text@,
            chars@ == text@.take(it.index() as int),
    {
        chars.push(c);
    }
    chars
}

/// Reads the literal `lit` at `pos` and gives the position behind it.
pub fn read_lit(chars: &Vec<char>, pos: usize, lit: &str) -> (got: Option<usize>)
    requires
        pos <= chars.len(),
    ensures
        match (expect(chars@.skip(pos as int), lit@), got) {
            (Some(rest), Some(p)) => pos <= p <= chars.len() && chars@.skip(p as int) == rest,
            (None, None) => true,
            _ => false,
        },
{
    let ghost input = chars@.skip(pos as int);
    let mut p: usize = pos;
    for c in it: lit.chars()
        invariant
            it.seq() == lit@,
            input == chars@.skip(pos as int),
            pos <= p <= chars.len(),
            p == pos + it.index(),
            forall|j: int| 0 <= j < it.index() ==> chars@[pos + j] == lit@[j],
    {
        if p >= chars.len() || chars[p] != c {
            return None;
        }
        p += 1;
    }
    assert(input.take(lit@.len() as int) =~= lit@);
    Some(p)
}

/// Reads the digits at `pos` as a number of at most `max` and gives the
/// number and the position behind it.
pub fn read_nat(chars: &Vec<char>, pos: usize, max: u128) -> (got: Option<(u128, usize)>)
    requires
        pos <= chars.len(),
    ensures
        match (parse_nat_within(chars@.skip(pos as int), max as nat), got) {
            (Some((value, rest)), Some((read, p))) => {
                &&& read == value
                &&& pos < p <= chars.len()
                &&& chars@.skip(p as int) == rest
            },
            (None, None) => true,
            _ => false,
        },
{
    let ghost input = chars@.skip(pos as int);
    let mut p: usize = pos;
    let mut value: u128 = 0;
    let mut fits = true;
    while p < chars.len() && '0' <= chars[p] && chars[p] <= '9'
        invariant
            pos <= p <= chars.len(),
            forall|j: int| pos <= j < p ==> is_digit(chars@[j]),
            fits ==> value == digits_value(chars@.subrange(pos as int, p as int)) && value <= max,
            !fits ==> digits_value(chars@.subrange(pos as int, p as int)) > max,
        decreases chars.len() - p,
    {
        let digit: u128 = (chars[p] as u32 - 48) as u128;
        assert(chars@.subrange(pos as int, p + 1).drop_last() =~= chars@.subrange(
            pos as int,
            p as int,
        ));
        if fits && digit <= max && value <= (max - digit) / 10 {
            value = value * 10 + digit;
        } else {
            fits = false;
        }
        p += 1;
    }
    proof {
        let run = (p - pos) as nat;
        assert forall|j: int| 0 <= j < run implies is_digit(input[j]) by {}
        lemma_digit_run(input, run);
        assert(input.take(run as int) =~= chars@.subrange(pos as int, p as int));
    }
    if p == pos || !fits || (p - pos > 1 && chars[pos] == '0') {
        None
    } else {
        Some((value, p))
    }
}

/// Reads a number between `min` and `max` at `pos`, with `-` in front where
/// it is negative, and gives the number and the position behind it.
pub fn read_int(chars: &Vec<char>, pos: usize, min: i128, max: i128) -> (got: Option<
    (i128, usize),
>)
    requires
        pos <= chars.len(),
    ensures
        match (parse_int_within(chars@.skip(pos as int), min as int, max as int), got) {
            (Some((value, rest)), Some((read, p))) => {
                &&& read == value
                &&& pos < p <= chars.len()
                &&& chars@.skip(p as int) == rest
            },
            (None, None) => true,
            _ => false,
        },
{
    let ghost input = chars@.skip(pos as int);
    if pos < chars.len() && chars[pos] == '-' {
        assert(input.drop_first() =~= chars@.skip(pos + 1));
        if min >= 0 {
            return None;
        }
        let limit: u128 = if min == i128::MIN {
            i128::MAX as u128 + 1
        } else {
            (-min) as u128
        };
        match read_nat(chars, pos + 1, limit) {
            Some((magnitude, p)) => {
                if magnitude == 0 {
                    return None;
                }
                let value: i128 = if magnitude > i128::MAX as u128 {
                    i128::MIN
                } else {
                    -(magnitude as i128)
                };
                if value <= max {
                    Some((value, p))
                } else {
                    None
                }
            },
            None => None,
        }
    } else {
        if max < 0 {
            return None;
        }
        match read_nat(chars, pos, max as u128) {
            Some((value, p)) => if value as i128 >= min {
                Some((value as i128, p))
            } else {
                None
            },
            None => None,
        }
    }
}

/// Reads a length-prefixed string at `pos` and gives the string and the
/// position behind it.
pub fn read_str(chars: &Vec<char>, pos: usize) -> (got: Option<(String, usize)>)
    requires
        pos <= chars.len(),
    ensures
        match (parse_str(chars@.skip(pos as int)), got) {
            (Some((value, rest)), Some((read, p))) => {
                &&& read@ == value
                &&& pos < p <= chars.len()
                &&& chars@.skip(p as int) == rest
            },
            (None, None) => true,
            _ => false,
        },
{
    let (len, colon) = match read_nat(chars, pos, usize::MAX as u128) {
        Some(found) => found,
        None => {
            proof {
                lemma_digit_run_bounded(chars@.skip(pos as int));
            }
            return None;
        },
    };
    if colon >= chars.len() || chars[colon] != ':' || chars.len() - (colon + 1) < len as usize {
        return None;
    }
    let start: usize = colon + 1;
    let end: usize = start + len as usize;
    let mut value = String::new();
    let mut p: usize = start;
    while p < end
        invariant
            start <= p <= end <= chars.len(),
            value@ == chars@.subrange(start as int, p as int),
        decreases end - p,
    {
        value.push(chars[p]);
        p += 1;
    }
    Some((value, end))
}

/// Reads a labelled line that holds a number between `min` and `max`, and
/// gives the number and the position behind the line.
pub fn read_int_line(chars: &Vec<char>, pos: usize, label: &str, min: i128, max: i128) -> (got:
    Option<(i128, usize)>)
    requires
        pos <= chars.len(),
    ensures
        match (parse_int_line(label@, chars@.skip(pos as int), min as int, max as int), got) {
            (Some((value, rest)), Some((read, p))) => {
                &&& read == value
                &&& pos < p <= chars.len()
                &&& chars@.skip(p as int) == rest
            },
            (None, None) => true,
            _ => false,
        },
{
    proof {
        reveal_strlit("\n");
        assert("\n"@ =~= seq!['\n']);
    }
    let after_label = match read_lit(chars, pos, label) {
        Some(p) => p,
        None => { return None; },
    };
    let (value, after_value) = match read_int(chars, after_label, min, max) {
        Some(found) => found,
        None => { return None; },
    };
    match read_lit(chars, after_value, "\n") {
        Some(p) => Some((value, p)),
        None => None,
    }
}

/// Reads a labelled line that holds a string, and gives the string and the
/// position behind the line.
pub fn read_str_line(chars: &Vec<char>, pos: usize, label: &str) -> (got: Option<(String, usize)>)
    requires
        pos <= chars.len(),
    ensures
        match (parse_str_line(label@, chars@.skip(pos as int)), got) {
            (Some((value, rest)), Some((read, p))) => {
                &&& read@ == value
                &&& pos < p <= chars.len()
                &&& chars@.skip(p as int) == rest
            },
            (None, None) => true,
            _ => false,
        },
{
    proof {
        reveal_strlit("\n");
        assert("\n"@ =~= seq!['\n']);
    }
    let after_label = match read_lit(chars, pos, label) {
        Some(p) => p,
        None => { return None; },
    };
    let (value, after_value) = match read_str(chars, after_label) {
        Some(found) => found,
        None => { return None; },
    };
    match read_lit(chars, after_value, "\n") {
        Some(p) => Some((value, p)),
        None => None,
    }
}

} // verus!
