//! Text as sequences of characters: decimal numbers, lines, trimming, searching.
//!
//! Strings are taken apart into characters and put together again here, so that every
//! other module can state what it does to a string over `Seq<char>`.
use vstd::prelude::*;
use vstd::slice::slice_subrange;

verus! {

/// What `char::is_alphanumeric` answers: a question about the Unicode tables.
pub uninterp spec fn alphanumeric(c: char) -> bool;

/// What `char::is_whitespace` answers: a question about the Unicode tables.
pub uninterp spec fn whitespace(c: char) -> bool;

/// What `str::to_lowercase` returns: the Unicode lower-case mapping of a whole string.
pub uninterp spec fn lowercase(s: Seq<char>) -> Seq<char>;

pub open spec fn is_ascii_char(c: char) -> bool {
    (c as u32) < 128
}

pub open spec fn is_ascii_text(s: Seq<char>) -> bool {
    forall|i: int| 0 <= i < s.len() ==> is_ascii_char(#[trigger] s[i])
}

pub open spec fn is_digit(c: char) -> bool {
    '0' <= c && c <= '9'
}

pub open spec fn is_ascii_letter(c: char) -> bool {
    ('a' <= c && c <= 'z') || ('A' <= c && c <= 'Z')
}

/// The ASCII lower-case mapping: only `A` to `Z` change.
pub open spec fn ascii_lower(c: char) -> char {
    if 'A' <= c && c <= 'Z' {
        (c as u32 + 32) as char
    } else {
        c
    }
}

/// `char::is_alphanumeric`: named by `alphanumeric`. Among the ASCII characters the letters
/// and the digits are alphanumeric, and no others.
pub assume_specification[ char::is_alphanumeric ](c: char) -> (found: bool)
    ensures
        found == alphanumeric(c),
        is_ascii_char(c) ==> found == (is_digit(c) || is_ascii_letter(c)),
;

/// `char::is_whitespace`: named by `whitespace`. Among the ASCII characters these are the
/// space and the five control characters from tab to carriage return.
pub assume_specification[ char::is_whitespace ](c: char) -> (found: bool)
    ensures
        found == whitespace(c),
        is_ascii_char(c) ==> found == (c == ' ' || ('\t' <= c && c <= '\r')),
;

/// `str::to_lowercase`: named by `lowercase`. On a string of ASCII characters it maps `A`
/// to `Z` to `a` to `z` and changes nothing else. What it makes of other characters follows the
/// Unicode tables and is left open.
pub assume_specification[ str::to_lowercase ](s: &str) -> (lower: String)
    ensures
        lower@ == lowercase(s@),
        is_ascii_text(s@) ==> lower@ == s@.map_values(|c: char| ascii_lower(c)),
;

/// `String::push` appends one character.
pub assume_specification[ String::push ](s: &mut String, c: char)
    ensures
        final(s)@ == old(s)@.push(c),
;

/// The characters of `s`, in order.
pub fn chars_of(s: &str) -> (chars: Vec<char>)
    ensures
        chars@ == s@,
{
    let mut chars: Vec<char> = Vec::new();
    for c in it: s.chars()
        invariant
            it.seq() == s@,
            chars@ == s@.take(it.index() as int),
    {
        chars.push(c);
        assert(s@.take(it.index() as int + 1) =~= s@.take(it.index() as int).push(c));
    }
    assert(s@.take(s@.len() as int) =~= s@);
    chars
}

/// The string made of `chars`, in order.
pub fn string_of(chars: &[char]) -> (s: String)
    ensures
        s@ == chars@,
{
    let mut s: String = String::new();
    let mut i: usize = 0;
    while i < chars.len()
        invariant
            i <= chars@.len(),
            s@ == chars@.take(i as int),
        decreases chars@.len() - i,
    {
        s.push(chars[i]);
        assert(chars@.take(i as int + 1) =~= chars@.take(i as int).push(chars@[i as int]));
        i = i + 1;
    }
    assert(chars@.take(chars@.len() as int) =~= chars@);
    s
}

// ---------------------------------------------------------------------------------------
// Decimal numbers
// ---------------------------------------------------------------------------------------

/// The character of the digit `d`, for `d` below ten.
pub open spec fn digit_char(d: nat) -> char {
    (d + '0' as u32) as char
}

/// The decimal notation of `n`: no sign, no leading zero.
pub open spec fn decimal(n: nat) -> Seq<char>
    decreases n,
{
    if n < 10 {
        seq![digit_char(n)]
    } else {
        decimal(n / 10).push(digit_char(n % 10))
    }
}

pub open spec fn all_digits(s: Seq<char>) -> bool {
    forall|i: int| 0 <= i < s.len() ==> is_digit(#[trigger] s[i])
}

/// The number that a sequence of digits stands for.
pub open spec fn digits_value(s: Seq<char>) -> nat
    decreases s.len(),
{
    if s.len() == 0 {
        0
    } else {
        digits_value(s.drop_last()) * 10 + (s.last() as u32 - '0' as u32) as nat
    }
}

/// An unsigned number as text: an optional `+` and then one digit or more, nothing else.
/// The value must not exceed `max`.
pub open spec fn unsigned_value(s: Seq<char>, max: nat) -> Option<nat> {
    let digits = if s.len() > 0 && s[0] == '+' {
        s.drop_first()
    } else {
        s
    };
    if digits.len() > 0 && all_digits(digits) && digits_value(digits) <= max {
        Some(digits_value(digits))
    } else {
        None
    }
}

/// A longer run of digits stands for a number that is at least as large.
proof fn lemma_digits_value_grows(s: Seq<char>, n: int)
    requires
        0 <= n <= s.len(),
        all_digits(s),
    ensures
        digits_value(s.take(n)) <= digits_value(s),
    decreases s.len(),
{
    if n < s.len() {
        assert(s.drop_last().take(n) =~= s.take(n));
        assert(is_digit(s[s.len() - 1]));
        lemma_digits_value_grows(s.drop_last(), n);
    } else {
        assert(s.take(n) =~= s);
    }
}

/// Reads an unsigned number that is at most `max`.
pub fn parse_unsigned(s: &[char], max: u32) -> (value: Option<u32>)
    ensures
        match value {
            Some(n) => unsigned_value(s@, max as nat) == Some(n as nat),
            None => unsigned_value(s@, max as nat) is None,
        },
{
    let start: usize = if s.len() > 0 && s[0] == '+' { 1 } else { 0 };
    let ghost digits = if s@.len() > 0 && s@[0] == '+' { s@.drop_first() } else { s@ };
    assert(digits =~= s@.skip(start as int));
    if start >= s.len() {
        return None;
    }
    let mut n: u32 = 0;
    let mut i: usize = start;
    while i < s.len()
        invariant
            start <= i <= s@.len(),
            start <= 1,
            digits == s@.skip(start as int),
            all_digits(digits.take(i - start)),
            n as nat == digits_value(digits.take(i - start)),
            n <= max,
            unsigned_value(s@, max as nat) == (if digits.len() > 0 && all_digits(digits)
                && digits_value(digits) <= max as nat {
                Some(digits_value(digits))
            } else {
                None::<nat>
            }),
        decreases s@.len() - i,
    {
        let c: char = s[i];
        let ghost k = i - start;
        assert(digits[k] == c);
        if !(c >= '0' && c <= '9') {
            assert(!is_digit(digits[k]));
            return None;
        }
        let d: u32 = c as u32 - '0' as u32;
        proof {
            assert(digits.take(k + 1).drop_last() =~= digits.take(k));
            assert(digits.take(k + 1).last() == c);
            assert forall|j: int| 0 <= j < k + 1 implies is_digit(#[trigger] digits.take(k + 1)[j]) by {
                if j < k {
                    assert(digits.take(k + 1)[j] == digits.take(k)[j]);
                }
            }
            if all_digits(digits) {
                lemma_digits_value_grows(digits, k + 1);
            }
        }
        let next: u64 = n as u64 * 10 + d as u64;
        if next > max as u64 {
            return None;
        }
        n = next as u32;
        i = i + 1;
    }
    assert(digits.take(digits.len() as int) =~= digits);
    Some(n)
}

/// Appends the decimal notation of `n` to `out`.
pub fn push_decimal(out: &mut String, n: u64)
    ensures
        final(out)@ == old(out)@ + decimal(n as nat),
    decreases n,
{
    if n >= 10 {
        push_decimal(out, n / 10);
    }
    let d: u32 = (n % 10) as u32;
    let c: char = digit(d);
    out.push(c);
    proof {
        if n >= 10 {
            assert(old(out)@ + decimal(n as nat) =~= (old(out)@ + decimal((n / 10) as nat)).push(c));
        } else {
            assert(old(out)@ + decimal(n as nat) =~= old(out)@.push(c));
        }
    }
}

/// The character of the digit `d`.
fn digit(d: u32) -> (c: char)
    requires
        d < 10,
    ensures
        c == digit_char(d as nat),
{
    if d == 0 {
        '0'
    } else if d == 1 {
        '1'
    } else if d == 2 {
        '2'
    } else if d == 3 {
        '3'
    } else if d == 4 {
        '4'
    } else if d == 5 {
        '5'
    } else if d == 6 {
        '6'
    } else if d == 7 {
        '7'
    } else if d == 8 {
        '8'
    } else {
        '9'
    }
}

/// Decimal notation consists of digits, at least one, and reads back as the same number.
pub proof fn decimal_reads_back(n: nat, max: nat)
    ensures
        decimal(n).len() > 0,
        all_digits(decimal(n)),
        digits_value(decimal(n)) == n,
        n <= max ==> unsigned_value(decimal(n), max) == Some(n),
        n > max ==> unsigned_value(decimal(n), max) is None,
    decreases n,
{
    let s = decimal(n);
    assert(digit_char(n % 10) as u32 == n % 10 + '0' as u32);
    if n < 10 {
        assert(s.drop_last() =~= Seq::<char>::empty());
        assert(digits_value(s.drop_last()) == 0);
        assert(s.last() == digit_char(n));
    } else {
        decimal_reads_back(n / 10, max);
        assert(s.drop_last() =~= decimal(n / 10));
        assert(s.last() == digit_char(n % 10));
        assert forall|i: int| 0 <= i < s.len() implies is_digit(#[trigger] s[i]) by {
            if i < s.len() - 1 {
                assert(s[i] == decimal(n / 10)[i]);
            }
        }
    }
    assert(is_digit(s[0]));
}

// ---------------------------------------------------------------------------------------
// Searching, lines and trimming
// ---------------------------------------------------------------------------------------

/// Where `c` first stands in `s`; the length of `s` where it does not occur.
pub open spec fn first_at(s: Seq<char>, c: char) -> int
    decreases s.len(),
{
    if s.len() == 0 || s[0] == c {
        0
    } else {
        1 + first_at(s.drop_first(), c)
    }
}

/// `first_at` in terms of positions.
pub proof fn first_at_positions(s: Seq<char>, c: char)
    ensures
        0 <= first_at(s, c) <= s.len(),
        first_at(s, c) < s.len() ==> s[first_at(s, c)] == c,
        forall|i: int| 0 <= i < first_at(s, c) ==> s[i] != c,
    decreases s.len(),
{
    if s.len() > 0 && s[0] != c {
        let t = s.drop_first();
        first_at_positions(t, c);
        assert forall|i: int| 0 <= i < first_at(s, c) implies s[i] != c by {
            if i > 0 {
                assert(s[i] == t[i - 1]);
            }
        }
    }
}

/// A position with `c` and none before it is the first.
pub proof fn first_at_is(s: Seq<char>, c: char, n: int)
    requires
        0 <= n <= s.len(),
        n < s.len() ==> s[n] == c,
        forall|i: int| 0 <= i < n ==> s[i] != c,
    ensures
        first_at(s, c) == n,
{
    first_at_positions(s, c);
}

/// Finds where `c` first stands in `s` at or after `from`.
pub fn find_char(s: &[char], from: usize, c: char) -> (at: usize)
    requires
        from <= s@.len(),
    ensures
        at == from + first_at(s@.skip(from as int), c),
        from <= at <= s@.len(),
{
    let mut at: usize = from;
    while at < s.len() && s[at] != c
        invariant
            from <= at <= s@.len(),
            forall|i: int| from <= i < at ==> s@[i] != c,
        decreases s@.len() - at,
    {
        at = at + 1;
    }
    proof {
        first_at_is(s@.skip(from as int), c, at - from);
    }
    at
}

/// A line without the carriage return that may stand at its end.
pub open spec fn without_cr(line: Seq<char>) -> Seq<char> {
    if line.len() > 0 && line.last() == '\r' {
        line.drop_last()
    } else {
        line
    }
}

/// The lines of a text. A line ends with a line feed, or a carriage return and a line feed,
/// neither of which belongs to it; the last line may go without.
pub open spec fn lines(s: Seq<char>) -> Seq<Seq<char>>
    decreases s.len(),
{
    let n = first_at(s, '\n');
    if s.len() == 0 {
        Seq::empty()
    } else if n < 0 || n >= s.len() {
        seq![s]
    } else {
        seq![without_cr(s.take(n))] + lines(s.skip(n + 1))
    }
}

/// Whether `needle` occurs in `s` at position `at`.
pub open spec fn occurs_at(s: Seq<char>, needle: Seq<char>, at: int) -> bool {
    0 <= at && at + needle.len() <= s.len() && s.subrange(at, at + needle.len()) == needle
}

/// Whether `needle` occurs in `s`.
pub open spec fn contains_text(s: Seq<char>, needle: Seq<char>) -> bool {
    exists|at: int| occurs_at(s, needle, at)
}

/// Compares two runs of characters.
pub fn same_chars(a: &[char], b: &[char]) -> (same: bool)
    ensures
        same == (a@ == b@),
{
    if a.len() != b.len() {
        return false;
    }
    let mut i: usize = 0;
    while i < a.len()
        invariant
            i <= a@.len(),
            a@.len() == b@.len(),
            forall|j: int| 0 <= j < i ==> a@[j] == b@[j],
        decreases a@.len() - i,
    {
        if a[i] != b[i] {
            return false;
        }
        i = i + 1;
    }
    assert(a@ =~= b@);
    true
}

/// Compares two strings.
pub fn same_text(a: &str, b: &str) -> (same: bool)
    ensures
        same == (a@ == b@),
{
    same_chars(chars_of(a).as_slice(), chars_of(b).as_slice())
}

/// Tells whether `needle` occurs in `s`.
pub fn has_text(s: &str, needle: &str) -> (found: bool)
    ensures
        found == contains_text(s@, needle@),
{
    let text: Vec<char> = chars_of(s);
    let pattern: Vec<char> = chars_of(needle);
    if pattern.len() > text.len() {
        return false;
    }
    let last: usize = text.len() - pattern.len();
    let mut at: usize = 0;
    loop
        invariant
            text@ == s@,
            pattern@ == needle@,
            last == text.len() - pattern.len(),
            at <= last,
            forall|j: int| 0 <= j < at ==> !occurs_at(s@, needle@, j),
        decreases last - at,
    {
        let window: &[char] = slice_subrange(text.as_slice(), at, at + pattern.len());
        if same_chars(window, pattern.as_slice()) {
            assert(occurs_at(s@, needle@, at as int));
            return true;
        }
        if at == last {
            return false;
        }
        at = at + 1;
    }
}

/// `s` without the white space at its start.
pub open spec fn trim_start(s: Seq<char>) -> Seq<char>
    decreases s.len(),
{
    if s.len() > 0 && whitespace(s[0]) {
        trim_start(s.drop_first())
    } else {
        s
    }
}

/// `s` without the white space at its end.
pub open spec fn trim_end(s: Seq<char>) -> Seq<char>
    decreases s.len(),
{
    if s.len() > 0 && whitespace(s.last()) {
        trim_end(s.drop_last())
    } else {
        s
    }
}

/// `s` without the white space at either end.
pub open spec fn trimmed(s: Seq<char>) -> Seq<char> {
    trim_end(trim_start(s))
}

/// Removes the white space at either end.
pub fn trim(s: &str) -> (t: String)
    ensures
        t@ == trimmed(s@),
{
    let text: Vec<char> = chars_of(s);
    let mut from: usize = 0;
    assert(text@.skip(0) =~= text@);
    while from < text.len() && text[from].is_whitespace()
        invariant
            from <= text@.len(),
            trim_start(text@) == trim_start(text@.skip(from as int)),
        decreases text@.len() - from,
    {
        assert(text@.skip(from as int).drop_first() =~= text@.skip(from as int + 1));
        from = from + 1;
    }
    let mut to: usize = text.len();
    assert(text@.subrange(from as int, to as int) =~= text@.skip(from as int));
    while to > from && text[to - 1].is_whitespace()
        invariant
            from <= to <= text@.len(),
            trim_end(trim_start(text@)) == trim_end(text@.subrange(from as int, to as int)),
        decreases to,
    {
        let ghost run = text@.subrange(from as int, to as int);
        assert(run.last() == text@[to - 1]);
        assert(run.drop_last() =~= text@.subrange(from as int, to as int - 1));
        to = to - 1;
    }
    proof {
        let run = text@.subrange(from as int, to as int);
        if to > from {
            assert(run.last() == text@[to - 1]);
        }
    }
    string_of(slice_subrange(text.as_slice(), from, to))
}

// ---------------------------------------------------------------------------------------
// What holds of text
// ---------------------------------------------------------------------------------------

/// The classes of ASCII characters and the lower-case mapping, by code: the digits are 48 to 57,
/// the capitals 65 to 90 and the small letters 97 to 122, each 32 above its capital.
pub proof fn ascii_classes(c: char)
    ensures
        is_ascii_char(c) <==> c as int <= 127,
        is_digit(c) <==> 48 <= c as int <= 57,
        is_ascii_letter(c) <==> (65 <= c as int <= 90 || 97 <= c as int <= 122),
        65 <= c as int <= 90 ==> ascii_lower(c) as int == c as int + 32,
        !(65 <= c as int <= 90) ==> ascii_lower(c) == c,
{
}

/// The last digit of a number in decimal notation is its remainder by ten, and the digits before
/// are those of its tenth. A number below ten has one digit, and no longer notation starts with
/// zero.
pub proof fn decimal_is_digit_by_digit(n: nat)
    ensures
        decimal(n).len() > 0,
        decimal(n).last() as int == 48 + n % 10,
        n < 10 ==> decimal(n).len() == 1,
        n >= 10 ==> decimal(n).drop_last() == decimal(n / 10),
        decimal(n).len() > 1 ==> decimal(n)[0] as int != 48,
    decreases n,
{
    if n >= 10 {
        decimal_is_digit_by_digit(n / 10);
        assert(decimal(n).drop_last() =~= decimal(n / 10));
        assert(decimal(n)[0] == decimal(n / 10)[0]);
        if n / 10 < 10 {
            assert(decimal(n / 10).last() == decimal(n / 10)[0]);
        }
    }
}

/// A digit behind others multiplies what they stand for by ten and adds its own value.
pub proof fn digits_count_by_ten(s: Seq<char>, c: char)
    requires
        48 <= c as int <= 57,
    ensures
        digits_value(Seq::<char>::empty()) == 0,
        digits_value(s.push(c)) == 10 * digits_value(s) + (c as int - 48),
{
    assert(s.push(c).drop_last() =~= s);
}

/// What is read as a number: digits, at least one, that stand for no more than the limit, with or
/// without one plus sign before them; and nothing else.
pub proof fn numbers_are_digits(s: Seq<char>, max: nat)
    ensures
        s.len() > 0 && (forall|i: int| 0 <= i < s.len() ==> 48 <= #[trigger] s[i] as int <= 57) ==> {
            &&& unsigned_value(s, max) == (if digits_value(s) <= max {
                Some(digits_value(s))
            } else {
                None
            })
            &&& unsigned_value(seq!['+'] + s, max) == unsigned_value(s, max)
        },
        unsigned_value(s, max) is Some ==> {
            &&& s.len() > 0
            &&& forall|i: int| 1 <= i < s.len() ==> 48 <= #[trigger] s[i] as int <= 57
            &&& s[0] == '+' || 48 <= s[0] as int <= 57
            &&& s[0] == '+' ==> s.len() > 1
            &&& unsigned_value(s, max)->0 <= max
        },
{
    if s.len() > 0 && (forall|i: int| 0 <= i < s.len() ==> 48 <= #[trigger] s[i] as int <= 57) {
        assert(s[0] as int != '+' as int);
        assert(all_digits(s));
        let signed = seq!['+'] + s;
        assert(signed.drop_first() =~= s);
    }
    if unsigned_value(s, max) is Some {
        if s[0] == '+' {
            let digits = s.drop_first();
            assert forall|i: int| 1 <= i < s.len() implies 48 <= #[trigger] s[i] as int <= 57 by {
                assert(s[i] == digits[i - 1]);
                assert(is_digit(digits[i - 1]));
            }
        } else {
            assert forall|i: int| 0 <= i < s.len() implies 48 <= #[trigger] s[i] as int <= 57 by {
                assert(is_digit(s[i]));
            }
        }
    }
}

/// A text holds another just where some stretch of it is that other.
pub proof fn occurrence_is_a_stretch(a: Seq<char>, needle: Seq<char>, b: Seq<char>)
    ensures
        contains_text(a + needle + b, needle),
        contains_text(a, needle) ==> exists|at: int|
            0 <= at <= a.len() - needle.len() && #[trigger] a.subrange(at, at + needle.len())
                == needle,
{
    let s = a + needle + b;
    assert(s.subrange(a.len() as int, a.len() as int + needle.len()) =~= needle);
    assert(occurs_at(s, needle, a.len() as int));
    if contains_text(a, needle) {
        let at = choose|at: int| occurs_at(a, needle, at);
        assert(a.subrange(at, at + needle.len()) == needle);
    }
}

/// The lines of a text: what stands before the first line feed, without a carriage return at its
/// end, and then the lines of what stands behind it; all of it where there is no line feed; none
/// where there is nothing.
pub proof fn lines_end_at_feeds(line: Seq<char>, rest: Seq<char>)
    requires
        forall|i: int| 0 <= i < line.len() ==> #[trigger] line[i] != '\n',
    ensures
        lines(Seq::<char>::empty()) == Seq::<Seq<char>>::empty(),
        line.len() > 0 ==> lines(line) == seq![line],
        line.len() == 0 || line.last() != '\r' ==> lines(line + seq!['\n'] + rest) == seq![line]
            + lines(rest),
        lines(line + seq!['\r', '\n'] + rest) == seq![line] + lines(rest),
{
    first_at_is(line, '\n', line.len() as int);
    let s = line + seq!['\n'] + rest;
    first_at_is(s, '\n', line.len() as int);
    assert(s.take(line.len() as int) =~= line);
    assert(s.skip(line.len() as int + 1) =~= rest);
    let t = line + seq!['\r', '\n'] + rest;
    let n = line.len() as int + 1;
    assert forall|i: int| 0 <= i < n implies t[i] != '\n' by {
        if i < line.len() {
            assert(t[i] == line[i]);
        }
    }
    first_at_is(t, '\n', n);
    assert(t.take(n).last() == '\r');
    assert(t.take(n).drop_last() =~= line);
    assert(t.skip(n + 1) =~= rest);
}

/// What trimming leaves of a text: all but white space at its start and end, and neither end of
/// what is left is white space.
pub proof fn trimming_takes_white_space_only(s: Seq<char>) -> (cut: (int, int))
    ensures
        0 <= cut.0 <= cut.1 <= s.len(),
        trimmed(s) == s.subrange(cut.0, cut.1),
        forall|i: int| 0 <= i < cut.0 ==> whitespace(#[trigger] s[i]),
        forall|i: int| cut.1 <= i < s.len() ==> whitespace(#[trigger] s[i]),
        cut.0 < cut.1 ==> !whitespace(s[cut.0]) && !whitespace(s[cut.1 - 1]),
{
    let from = lemma_trim_start(s);
    let t = s.skip(from);
    let len = lemma_trim_end(t);
    assert(t.take(len) =~= s.subrange(from, from + len));
    assert forall|i: int| from + len <= i < s.len() implies whitespace(#[trigger] s[i]) by {
        assert(t[i - from] == s[i]);
    }
    if len > 0 {
        assert(t[0] == s[from]);
        assert(t[len - 1] == s[from + len - 1]);
    }
    (from, from + len)
}

proof fn lemma_trim_start(s: Seq<char>) -> (n: int)
    ensures
        0 <= n <= s.len(),
        trim_start(s) == s.skip(n),
        forall|i: int| 0 <= i < n ==> whitespace(#[trigger] s[i]),
        n < s.len() ==> !whitespace(s[n]),
    decreases s.len(),
{
    if s.len() > 0 && whitespace(s[0]) {
        let t = s.drop_first();
        let m = lemma_trim_start(t);
        assert(t.skip(m) =~= s.skip(m + 1));
        assert forall|i: int| 0 <= i < m + 1 implies whitespace(#[trigger] s[i]) by {
            if i > 0 {
                assert(t[i - 1] == s[i]);
            }
        }
        if m < t.len() {
            assert(t[m] == s[m + 1]);
        }
        m + 1
    } else {
        assert(s.skip(0) =~= s);
        0
    }
}

proof fn lemma_trim_end(s: Seq<char>) -> (n: int)
    ensures
        0 <= n <= s.len(),
        trim_end(s) == s.take(n),
        forall|i: int| n <= i < s.len() ==> whitespace(#[trigger] s[i]),
        n > 0 ==> !whitespace(s[n - 1]),
        s.len() > 0 && !whitespace(s[0]) ==> n > 0,
    decreases s.len(),
{
    if s.len() > 0 && whitespace(s.last()) {
        let t = s.drop_last();
        let n = lemma_trim_end(t);
        assert(t.take(n) =~= s.take(n));
        assert forall|i: int| n <= i < s.len() implies whitespace(#[trigger] s[i]) by {
            if i < t.len() {
                assert(t[i] == s[i]);
            }
        }
        if n > 0 {
            assert(t[n - 1] == s[n - 1]);
        }
        n
    } else {
        assert(s.take(s.len() as int) =~= s);
        s.len() as int
    }
}

} // verus!
