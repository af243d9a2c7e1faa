//! Small text utilities shared by the lexer, the expander and the built-ins.

use vstd::prelude::*;

verus! {

/// `String::push` appends one character at the end of the string.
pub assume_specification[ String::push ](s: &mut String, ch: char)
    ensures
        final(s)@ == old(s)@.push(ch),
;

/// Whether `c` is one of the ASCII digits `0` to `9`.
pub open spec fn is_digit(c: char) -> bool {
    '0' <= c && c <= '9'
}

/// The numeric value of an ASCII digit.
pub open spec fn digit_value(c: char) -> nat {
    (c as nat - '0' as nat) as nat
}

/// Every character of `s` is an ASCII digit.
pub open spec fn all_digits(s: Seq<char>) -> bool {
    forall|i: int| 0 <= i < s.len() ==> is_digit(#[trigger] s[i])
}

/// The value of a string of decimal digits, most significant digit first.
pub open spec fn decimal_value(s: Seq<char>) -> nat
    decreases s.len(),
{
    if s.len() == 0 {
        0
    } else {
        decimal_value(s.drop_last()) * 10 + digit_value(s.last())
    }
}

/// What `str::parse::<i32>` gives back for a string made of digits only:
/// the decimal value when the string is non-empty and the value fits.
pub open spec fn parse_digits_i32(s: Seq<char>) -> Option<i32> {
    if s.len() > 0 && decimal_value(s) <= i32::MAX {
        Some(decimal_value(s) as i32)
    } else {
        None
    }
}

/// What `str::parse::<u32>` gives back: an optional `+` sign followed by a
/// non-empty run of decimal digits whose value fits in `u32`.
pub open spec fn parse_u32_spec(s: Seq<char>) -> Option<u32> {
    let digits = if s.len() > 0 && s[0] == '+' {
        s.drop_first()
    } else {
        s
    };
    if digits.len() > 0 && all_digits(digits) && decimal_value(digits) <= u32::MAX {
        Some(decimal_value(digits) as u32)
    } else {
        None
    }
}

/// Whether `c` is an ASCII digit.
pub fn is_ascii_digit(c: char) -> (b: bool)
    ensures
        b == is_digit(c),
{
    '0' <= c && c <= '9'
}

/// Copies the characters of `s` into a vector.
pub fn chars_of(s: &str) -> (v: Vec<char>)
    ensures
        v@ == s@,
{
    let mut v: Vec<char> = Vec::new();
    for c in it: s.chars()
        invariant
            v@ == s@.take(it.index() as int),
            it.seq() == s@,
    {
        v.push(c);
        assert(s@.take(it.index() + 1) == s@.take(it.index() as int).push(c));
    }
    v
}

/// Builds a string from the characters of `cs` from position `start` on.
pub fn string_from_chars(cs: &Vec<char>, start: usize) -> (s: String)
    requires
        start <= cs.len(),
    ensures
        s@ == cs@.skip(start as int),
{
    let mut s = String::new();
    let mut i: usize = start;
    while i < cs.len()
        invariant
            start <= i <= cs.len(),
            s@ == cs@.subrange(start as int, i as int),
        decreases cs.len() - i,
    {
        s.push(cs[i]);
        assert(cs@.subrange(start as int, i + 1) == cs@.subrange(start as int, i as int).push(
            cs@[i as int],
        ));
        i = i + 1;
    }
    assert(cs@.subrange(start as int, cs@.len() as int) == cs@.skip(start as int));
    s
}

/// Appends the characters of `s` to `out`.
pub fn push_str(out: &mut String, s: &str)
    ensures
        final(out)@ == old(out)@ + s@,
{
    let cs = chars_of(s);
    let mut i: usize = 0;
    while i < cs.len()
        invariant
            i <= cs.len(),
            cs@ == s@,
            out@ == old(out)@ + cs@.take(i as int),
        decreases cs.len() - i,
    {
        out.push(cs[i]);
        assert(cs@.take((i + 1) as int) == cs@.take(i as int).push(cs@[i as int]));
        i = i + 1;
    }
    assert(cs@.take(cs@.len() as int) == cs@);
}

/// Extending a string of digits by one digit multiplies its value by ten
/// and adds the digit.
pub proof fn lemma_decimal_value_push(s: Seq<char>, c: char)
    ensures
        decimal_value(s.push(c)) == decimal_value(s) * 10 + digit_value(c),
{
    assert(s.push(c).drop_last() == s);
}

/// A longer prefix of a digit string never has a smaller value.
pub proof fn lemma_decimal_value_prefix_monotone(s: Seq<char>, i: int, j: int)
    requires
        0 <= i <= j <= s.len(),
    ensures
        decimal_value(s.take(i)) <= decimal_value(s.take(j)),
    decreases j - i,
{
    if i < j {
        lemma_decimal_value_prefix_monotone(s, i, j - 1);
        assert(s.take(j).drop_last() == s.take(j - 1));
    }
}

/// Value of the digit string `cs[start..]`, or `None` if it exceeds `limit`.
fn decimal_up_to(cs: &Vec<char>, start: usize, limit: u64) -> (r: Option<u64>)
    requires
        start <= cs.len(),
        all_digits(cs@.skip(start as int)),
        9 <= limit <= u32::MAX,
    ensures
        r matches Some(v) ==> v == decimal_value(cs@.skip(start as int)) && v <= limit,
        r is None ==> decimal_value(cs@.skip(start as int)) > limit,
{
    let ghost d = cs@.skip(start as int);
    let mut acc: u64 = 0;
    let mut i: usize = start;
    while i < cs.len()
        invariant
            start <= i <= cs.len(),
            d == cs@.skip(start as int),
            all_digits(d),
            9 <= limit <= u32::MAX,
            acc == decimal_value(d.take(i - start)),
            acc <= limit,
        decreases cs.len() - i,
    {
        let c = cs[i];
        assert(d[i - start] == c);
        assert(is_digit(d[i - start]));
        let digit = (c as u32 - '0' as u32) as u64;
        proof {
            assert(d.take(i - start + 1) == d.take(i - start).push(c));
            lemma_decimal_value_push(d.take(i - start), c);
        }
        if acc > (limit - digit) / 10 {
            proof {
                assert(acc * 10 + digit > limit) by (nonlinear_arith)
                    requires
                        acc > (limit - digit) / 10,
                        digit <= 9,
                ;
                lemma_decimal_value_prefix_monotone(d, i - start + 1, d.len() as int);
                assert(d.take(d.len() as int) == d);
            }
            return None;
        }
        assert(acc * 10 + digit <= limit) by (nonlinear_arith)
            requires
                acc <= (limit - digit) / 10,
        ;
        acc = acc * 10 + digit;
        i = i + 1;
    }
    assert(d.take(d.len() as int) == d);
    Some(acc)
}

/// Parses a string of digits as `str::parse::<i32>` does.
pub fn parse_digits_to_i32(s: &str) -> (r: Option<i32>)
    requires
        all_digits(s@),
    ensures
        r == parse_digits_i32(s@),
{
    let cs = chars_of(s);
    if cs.len() == 0 {
        return None;
    }
    assert(cs@.skip(0) == cs@);
    match decimal_up_to(&cs, 0, 0x7fff_ffff) {
        Some(v) => Some(v as i32),
        None => None,
    }
}

/// Parses a string as `str::parse::<u32>` does.
pub fn parse_u32(s: &str) -> (r: Option<u32>)
    ensures
        r == parse_u32_spec(s@),
{
    let cs = chars_of(s);
    let start: usize = if cs.len() > 0 && cs[0] == '+' { 1 } else { 0 };
    proof {
        if start == 0 {
            assert(cs@.skip(0) == cs@);
        } else {
            assert(cs@.skip(1) == cs@.drop_first());
        }
    }
    if start == cs.len() {
        return None;
    }
    let mut i = start;
    while i < cs.len()
        invariant
            start <= i <= cs.len(),
            cs@ == s@,
            start == 0 || start == 1,
            start == 1 <==> (cs@.len() > 0 && cs@[0] == '+'),
            forall|k: int| start <= k < i ==> is_digit(#[trigger] cs@[k]),
        decreases cs.len() - i,
    {
        if !is_ascii_digit(cs[i]) {
            assert(!all_digits(cs@.skip(start as int))) by {
                assert(cs@.skip(start as int)[i - start] == cs@[i as int]);
            }
            return None;
        }
        i = i + 1;
    }
    assert(all_digits(cs@.skip(start as int))) by {
        assert forall|k: int| 0 <= k < cs@.skip(start as int).len() implies is_digit(
            #[trigger] cs@.skip(start as int)[k],
        ) by {
            assert(cs@.skip(start as int)[k] == cs@[start + k]);
        }
    }
    match decimal_up_to(&cs, start, 0xffff_ffff) {
        Some(v) => Some(v as u32),
        None => None,
    }
}

/// Whether every character of `s` is an ASCII digit.
pub fn str_all_digits(s: &str) -> (b: bool)
    ensures
        b == all_digits(s@),
{
    let cs = chars_of(s);
    let mut i: usize = 0;
    while i < cs.len()
        invariant
            i <= cs.len(),
            cs@ == s@,
            forall|k: int| 0 <= k < i ==> is_digit(#[trigger] cs@[k]),
        decreases cs.len() - i,
    {
        if !is_ascii_digit(cs[i]) {
            return false;
        }
        i = i + 1;
    }
    true
}


/// The ASCII digit for a value below ten.
pub open spec fn digit_char(d: nat) -> char {
    (('0' as nat) + d) as char
}

/// The decimal representation of a natural number, without leading zeros.
pub open spec fn nat_decimal(n: nat) -> Seq<char>
    decreases n,
{
    if n < 10 {
        seq![digit_char(n)]
    } else {
        nat_decimal(n / 10).push(digit_char(n % 10))
    }
}

fn digit_to_char(d: u32) -> (c: char)
    requires
        d < 10,
    ensures
        c == digit_char(d as nat),
{
    let b: u8 = 48u8 + d as u8;
    b as char
}

/// Appends the decimal representation of `n` to `out`.
pub fn push_decimal(out: &mut String, n: u32)
    ensures
        final(out)@ == old(out)@ + nat_decimal(n as nat),
    decreases n,
{
    if n >= 10 {
        push_decimal(out, n / 10);
    }
    out.push(digit_to_char(n % 10));
}

} // verus!
