//! UTF-16, as the window system takes and gives text.
use vstd::prelude::*;

use crate::text::chars_of;

verus! {

/// `char::from_u32` gives the character with that scalar value, and `None` where there is
/// none: above `0x10FFFF` and for the surrogates.
pub assume_specification[ char::from_u32 ](i: u32) -> (c: Option<char>)
    ensures
        match c {
            Some(c) => c as int == i,
            None => 0xD800 <= i <= 0xDFFF || i > 0x10FFFF,
        },
;

/// The UTF-16 code units of one character.
pub open spec fn char_units(c: char) -> Seq<u16> {
    let v = c as u32 as int;
    if v < 0x10000 {
        seq![v as u16]
    } else {
        seq![(0xD800 + (v - 0x10000) / 0x400) as u16, (0xDC00 + (v - 0x10000) % 0x400) as u16]
    }
}

/// The UTF-16 code units of a text.
pub open spec fn units(s: Seq<char>) -> Seq<u16>
    decreases s.len(),
{
    if s.len() == 0 {
        Seq::empty()
    } else {
        units(s.drop_last()) + char_units(s.last())
    }
}

/// The UTF-16 code units of `s`.
pub fn encode_utf16(s: &str) -> (out: Vec<u16>)
    ensures
        out@ == units(s@),
{
    let text: Vec<char> = chars_of(s);
    let mut out: Vec<u16> = Vec::new();
    let mut i: usize = 0;
    while i < text.len()
        invariant
            i <= text@.len(),
            text@ == s@,
            out@ == units(text@.take(i as int)),
        decreases text@.len() - i,
    {
        let v: u32 = text[i] as u32;
        let ghost before = out@;
        if v < 0x10000 {
            out.push(v as u16);
        } else {
            out.push((0xD800 + (v - 0x10000) / 0x400) as u16);
            out.push((0xDC00 + (v - 0x10000) % 0x400) as u16);
        }
        proof {
            let upto = text@.take(i as int + 1);
            assert(upto.drop_last() =~= text@.take(i as int));
            assert(upto.last() == text@[i as int]);
            assert(out@ =~= before + char_units(text@[i as int]));
        }
        i = i + 1;
    }
    assert(text@.take(text@.len() as int) =~= text@);
    out
}

/// The UTF-16 code units of `s` and a terminating zero.
pub fn wide(s: &str) -> (out: Vec<u16>)
    ensures
        out@ == units(s@).push(0),
{
    let mut out: Vec<u16> = encode_utf16(s);
    out.push(0);
    out
}

pub open spec fn is_high_surrogate(u: u16) -> bool {
    0xD800 <= u < 0xDC00
}

pub open spec fn is_low_surrogate(u: u16) -> bool {
    0xDC00 <= u < 0xE000
}

/// The character that a surrogate pair stands for.
pub open spec fn pair_char(high: u16, low: u16) -> char {
    (0x10000 + (high - 0xD800) * 0x400 + (low - 0xDC00)) as char
}

/// The text that code units stand for. A surrogate without its partner becomes U+FFFD.
pub open spec fn decoded(u: Seq<u16>) -> Seq<char>
    decreases u.len(),
{
    if u.len() == 0 {
        Seq::empty()
    } else if is_high_surrogate(u[0]) && u.len() > 1 && is_low_surrogate(u[1]) {
        seq![pair_char(u[0], u[1])] + decoded(u.skip(2))
    } else if is_high_surrogate(u[0]) || is_low_surrogate(u[0]) {
        seq!['\u{FFFD}'] + decoded(u.skip(1))
    } else {
        seq![u[0] as char] + decoded(u.skip(1))
    }
}

/// Decodes UTF-16 code units, with U+FFFD for each surrogate without its partner.
pub fn decode_utf16_lossy(u: &[u16]) -> (out: Vec<char>)
    ensures
        out@ == decoded(u@),
{
    let mut out: Vec<char> = Vec::new();
    let mut i: usize = 0;
    assert(u@.skip(0) =~= u@);
    while i < u.len()
        invariant
            i <= u@.len(),
            out@ + decoded(u@.skip(i as int)) == decoded(u@),
        decreases u@.len() - i,
    {
        let ghost rest = u@.skip(i as int);
        let ghost before = out@;
        let a: u16 = u[i];
        let mut code: u32 = a as u32;
        let mut step: usize = 1;
        if a >= 0xD800 && a < 0xE000 {
            if a < 0xDC00 && u.len() - i > 1 && u[i + 1] >= 0xDC00 && u[i + 1] < 0xE000 {
                code = 0x10000 + (a as u32 - 0xD800) * 0x400 + (u[i + 1] as u32 - 0xDC00);
                step = 2;
            } else {
                code = 0xFFFD;
            }
        }
        let c: char = match char::from_u32(code) {
            Some(c) => c,
            None => {
                assert(false);
                '\u{FFFD}'
            },
        };
        out.push(c);
        proof {
            assert(rest.skip(step as int) =~= u@.skip(i as int + step as int));
            assert(rest[0] == a);
            if step == 2 {
                assert(rest[1] == u@[i as int + 1]);
                assert(c == pair_char(rest[0], rest[1]));
            } else if a >= 0xD800 && a < 0xE000 {
                assert(c == '\u{FFFD}');
            } else {
                assert(c == rest[0] as char);
            }
            assert(decoded(rest) == seq![c] + decoded(rest.skip(step as int)));
            assert(out@ + decoded(rest.skip(step as int)) =~= before + decoded(rest));
        }
        i = i + step;
    }
    assert(u@.skip(i as int) =~= Seq::<u16>::empty());
    assert(out@ + Seq::<char>::empty() =~= out@);
    out
}

/// Decoding in two parts is decoding the whole, where the first part is one character.
proof fn lemma_decode_after_char(c: char, rest: Seq<u16>)
    ensures
        decoded(char_units(c) + rest) == seq![c] + decoded(rest),
{
    let u = char_units(c) + rest;
    let v = c as u32 as int;
    if v < 0x10000 {
        assert(u.skip(1) =~= rest);
        assert(u[0] == v as u16);
    } else {
        assert(u.skip(2) =~= rest);
        let w = v - 0x10000;
        assert(0 <= w < 0x100000);
        assert(u[0] == 0xD800 + w / 0x400);
        assert(u[1] == 0xDC00 + w % 0x400);
        assert((w / 0x400) * 0x400 + w % 0x400 == w);
    }
}

/// Encoding a text from its front is encoding it from its back.
proof fn lemma_units_front(s: Seq<char>)
    requires
        s.len() > 0,
    ensures
        units(s) == char_units(s[0]) + units(s.drop_first()),
    decreases s.len(),
{
    if s.len() == 1 {
        assert(s.drop_last() =~= Seq::<char>::empty());
        assert(s.drop_first() =~= Seq::<char>::empty());
        assert(units(s) =~= char_units(s[0]) + units(s.drop_first()));
    } else {
        lemma_units_front(s.drop_last());
        assert(s.drop_last().drop_first() =~= s.drop_first().drop_last());
        assert(units(s) =~= char_units(s[0]) + units(s.drop_first()));
    }
}

/// Text that was encoded decodes to itself.
pub proof fn decode_inverts_encode(s: Seq<char>)
    ensures
        decoded(units(s)) == s,
    decreases s.len(),
{
    if s.len() > 0 {
        lemma_units_front(s);
        lemma_decode_after_char(s[0], units(s.drop_first()));
        decode_inverts_encode(s.drop_first());
        assert(seq![s[0]] + s.drop_first() =~= s);
    }
}

/// A text is encoded character by character: below 65536 each is its own code, and any other is
/// two units, of which the first carries the upper ten bits of what is above 65536 and the second
/// the lower ten.
pub proof fn encoding_is_by_character(a: Seq<char>, b: Seq<char>, c: char)
    ensures
        units(a + b) == units(a) + units(b),
        c as int <= 0xFFFF ==> units(seq![c]).len() == 1 && units(seq![c])[0] == c as int,
        c as int > 0xFFFF ==> {
            &&& units(seq![c]).len() == 2
            &&& 0xD800 <= units(seq![c])[0] <= 0xDBFF
            &&& 0xDC00 <= units(seq![c])[1] <= 0xDFFF
            &&& c as int == 0x10000 + 1024 * (units(seq![c])[0] - 0xD800) + (units(seq![c])[1]
                - 0xDC00)
        },
    decreases b.len(),
{
    assert(seq![c].drop_last() =~= Seq::<char>::empty());
    reveal_with_fuel(units, 2);
    assert(units(seq![c]) =~= char_units(c));
    if b.len() == 0 {
        assert(a + b =~= a);
        assert(units(a) + units(b) =~= units(a));
    } else {
        encoding_is_by_character(a, b.drop_last(), c);
        assert((a + b).drop_last() =~= a + b.drop_last());
        assert((a + b).last() == b.last());
        assert(units(a + b) =~= units(a) + units(b));
    }
}

/// Code units are decoded from the front: a pair of surrogates is one character, any other
/// surrogate is U+FFFD, and every other unit is the character with its code.
pub proof fn decoding_is_from_the_front(u: Seq<u16>, rest: Seq<u16>)
    ensures
        decoded(Seq::<u16>::empty()) == Seq::<char>::empty(),
        u.len() == 1 && !(0xD800 <= u[0] <= 0xDFFF) ==> {
            &&& decoded(u + rest).len() == 1 + decoded(rest).len()
            &&& decoded(u + rest)[0] as int == u[0]
            &&& decoded(u + rest).drop_first() == decoded(rest)
        },
        u.len() == 1 && 0xDC00 <= u[0] <= 0xDFFF ==> decoded(u + rest) == seq!['\u{FFFD}']
            + decoded(rest),
        u.len() == 1 && 0xD800 <= u[0] <= 0xDBFF && (rest.len() == 0 || !(0xDC00 <= rest[0]
            <= 0xDFFF)) ==> decoded(u + rest) == seq!['\u{FFFD}'] + decoded(rest),
        u.len() == 2 && 0xD800 <= u[0] <= 0xDBFF && 0xDC00 <= u[1] <= 0xDFFF ==> {
            &&& decoded(u + rest).len() == 1 + decoded(rest).len()
            &&& decoded(u + rest)[0] as int == 0x10000 + 1024 * (u[0] - 0xD800) + (u[1] - 0xDC00)
            &&& decoded(u + rest).drop_first() == decoded(rest)
        },
{
    let all = u + rest;
    if u.len() == 1 {
        assert(all.skip(1) =~= rest);
        assert(all[0] == u[0]);
        if rest.len() > 0 {
            assert(all[1] == rest[0]);
        }
        if !(0xD800 <= u[0] <= 0xDFFF) {
            assert(decoded(all).drop_first() =~= decoded(rest));
        }
    } else if u.len() == 2 && 0xD800 <= u[0] <= 0xDBFF && 0xDC00 <= u[1] <= 0xDFFF {
        assert(all.skip(2) =~= rest);
        assert(decoded(all).drop_first() =~= decoded(rest));
    }
}

} // verus!
