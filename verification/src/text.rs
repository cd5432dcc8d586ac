//! Decimal text: fixed-width and minimal decimal renderings of machine
//! integers, their parsers, and the round-trip facts the cache codec and
//! the key derivation are proved against.

use vstd::prelude::*;

verus! {

/// The digit character for `d`; meaningful for `d < 10`.
pub open spec fn digit_char(d: nat) -> char
    recommends
        d < 10,
{
    if d == 0 {
        '0'
    } else if d == 1 {
        '1'
    } else if d == 2 {
        '2'
    } else if d == 3 {
        '3'
    } else if d == 4 {
        '4'
    } else if d == 5 {
        '5'
    } else if d == 6 {
        '6'
    } else if d == 7 {
        '7'
    } else if d == 8 {
        '8'
    } else {
        '9'
    }
}

/// The value of a digit character; 10 marks a character that is no digit.
pub open spec fn digit_val(c: char) -> nat {
    if c == '0' {
        0
    } else if c == '1' {
        1
    } else if c == '2' {
        2
    } else if c == '3' {
        3
    } else if c == '4' {
        4
    } else if c == '5' {
        5
    } else if c == '6' {
        6
    } else if c == '7' {
        7
    } else if c == '8' {
        8
    } else if c == '9' {
        9
    } else {
        10
    }
}

pub open spec fn is_digit(c: char) -> bool {
    digit_val(c) < 10
}

pub open spec fn pow10(n: nat) -> nat
    decreases n,
{
    if n == 0 {
        1
    } else {
        10 * pow10((n - 1) as nat)
    }
}

/// `v` written in exactly `n` decimal digits, high digit first; the
/// rendering of `v % pow10(n)` when `v` does not fit.
pub open spec fn dec_padded(v: nat, n: nat) -> Seq<char>
    decreases n,
{
    if n == 0 {
        Seq::empty()
    } else {
        dec_padded(v / 10, (n - 1) as nat).push(digit_char(v % 10))
    }
}

/// The number a digit string denotes; `None` when a character is no digit.
/// The empty string denotes zero, so that fixed-width parsing recurses
/// cleanly on the leading digits.
pub open spec fn parse_padded(s: Seq<char>) -> Option<nat>
    decreases s.len(),
{
    if s.len() == 0 {
        Some(0)
    } else {
        match parse_padded(s.drop_last()) {
            Option::None => Option::None,
            Option::Some(hi) => if is_digit(s.last()) {
                Some(hi * 10 + digit_val(s.last()))
            } else {
                Option::None
            },
        }
    }
}

/// `v` written with the fewest decimal digits (just "0" for zero).
pub open spec fn dec_min(v: nat) -> Seq<char>
    decreases v,
{
    if v < 10 {
        seq![digit_char(v)]
    } else {
        dec_min(v / 10).push(digit_char(v % 10))
    }
}

pub proof fn lemma_digit_char_val(d: nat)
    requires
        d < 10,
    ensures
        digit_val(digit_char(d)) == d,
        is_digit(digit_char(d)),
{
}

pub proof fn lemma_dec_padded_len(v: nat, n: nat)
    ensures
        dec_padded(v, n).len() == n,
    decreases n,
{
    if n > 0 {
        lemma_dec_padded_len(v / 10, (n - 1) as nat);
    }
}

/// Fixed-width decimal round-trips: parsing the `n`-digit rendering of a
/// value below `pow10(n)` gives the value back.
pub proof fn lemma_parse_dec_padded(v: nat, n: nat)
    requires
        v < pow10(n),
    ensures
        parse_padded(dec_padded(v, n)) == Some(v),
    decreases n,
{
    if n == 0 {
        assert(v == 0);
        assert(dec_padded(v, n) =~= Seq::<char>::empty());
    } else {
        let hi = v / 10;
        let lo = v % 10;
        assert(hi < pow10((n - 1) as nat)) by {
            vstd::arithmetic::div_mod::lemma_fundamental_div_mod(v as int, 10);
            assert(10 * pow10((n - 1) as nat) == pow10(n));
        };
        lemma_parse_dec_padded(hi, (n - 1) as nat);
        let s = dec_padded(v, n);
        assert(s.drop_last() =~= dec_padded(hi, (n - 1) as nat));
        assert(s.last() == digit_char(lo));
        lemma_digit_char_val(lo);
        vstd::arithmetic::div_mod::lemma_fundamental_div_mod(v as int, 10);
    }
}

/// A parsable digit string stays parsable when cut short, and the prefix
/// denotes no more than the whole.
pub proof fn lemma_parse_prefix(s: Seq<char>, k: int)
    requires
        0 <= k <= s.len(),
        parse_padded(s) is Some,
    ensures
        parse_padded(s.subrange(0, k)) is Some,
        parse_padded(s.subrange(0, k)).unwrap() <= parse_padded(s).unwrap(),
    decreases s.len(),
{
    if k == s.len() {
        assert(s.subrange(0, k) =~= s);
    } else {
        assert(s.drop_last() =~= s.subrange(0, s.len() - 1));
        assert(s.subrange(0, k) =~= s.drop_last().subrange(0, k));
        lemma_parse_prefix(s.drop_last(), k);
        let hi = parse_padded(s.drop_last()).unwrap();
        assert(hi <= hi * 10 + digit_val(s.last()));
    }
}

pub proof fn lemma_pow10_20()
    ensures
        pow10(20) == 100_000_000_000_000_000_000,
{
    reveal_with_fuel(pow10, 21);
}

/// The digit character for `d`.
pub fn digit_to_char(d: u64) -> (c: char)
    requires
        d < 10,
    ensures
        c == digit_char(d as nat),
{
    match d {
        0 => '0',
        1 => '1',
        2 => '2',
        3 => '3',
        4 => '4',
        5 => '5',
        6 => '6',
        7 => '7',
        8 => '8',
        _ => '9',
    }
}

/// The value of a digit character; 10 for anything else.
pub fn char_to_digit(c: char) -> (d: u64)
    ensures
        d == digit_val(c),
{
    match c {
        '0' => 0,
        '1' => 1,
        '2' => 2,
        '3' => 3,
        '4' => 4,
        '5' => 5,
        '6' => 6,
        '7' => 7,
        '8' => 8,
        '9' => 9,
        _ => 10,
    }
}

/// `v` in exactly `n` decimal digits.
pub fn pad_u64(v: u64, n: usize) -> (r: Vec<char>)
    ensures
        r@ == dec_padded(v as nat, n as nat),
    decreases n,
{
    if n == 0 {
        let r: Vec<char> = Vec::new();
        assert(r@ =~= dec_padded(v as nat, 0));
        r
    } else {
        let mut r = pad_u64(v / 10, n - 1);
        r.push(digit_to_char(v % 10));
        r
    }
}

/// `v` with the fewest decimal digits.
pub fn dec_u64(v: u64) -> (r: Vec<char>)
    ensures
        r@ == dec_min(v as nat),
    decreases v,
{
    if v < 10 {
        let mut r: Vec<char> = Vec::new();
        r.push(digit_to_char(v));
        assert(r@ =~= seq![digit_char(v as nat)]);
        r
    } else {
        let mut r = dec_u64(v / 10);
        r.push(digit_to_char(v % 10));
        r
    }
}

/// Parses `s[from..to]` as a decimal number. `None` when a character is
/// no digit or the value does not fit in a `u64`.
pub fn parse_digits(s: &Vec<char>, from: usize, to: usize) -> (r: Option<u64>)
    requires
        from <= to <= s.len(),
    ensures
        match r {
            Some(v) => parse_padded(s@.subrange(from as int, to as int)) == Some(v as nat),
            None => match parse_padded(s@.subrange(from as int, to as int)) {
                Some(v) => v > u64::MAX,
                Option::None => true,
            },
        },
{
    let mut acc: u64 = 0;
    let mut i: usize = from;
    assert(s@.subrange(from as int, from as int) =~= Seq::<char>::empty());
    while i < to
        invariant
            from <= i <= to <= s.len(),
            parse_padded(s@.subrange(from as int, i as int)) == Some(acc as nat),
        decreases to - i,
    {
        let d = char_to_digit(s[i]);
        let ghost pre = s@.subrange(from as int, i as int);
        let ghost cur = s@.subrange(from as int, i as int + 1);
        proof {
            assert(cur.drop_last() =~= pre);
            assert(cur.last() == s@[i as int]);
        }
        if d >= 10 {
            proof {
                let whole = s@.subrange(from as int, to as int);
                if parse_padded(whole) is Some {
                    lemma_parse_prefix(whole, i - from + 1);
                    assert(whole.subrange(0, i - from + 1) =~= cur);
                }
            }
            return None;
        }
        let wide: u128 = (acc as u128) * 10 + (d as u128);
        if wide > u64::MAX as u128 {
            proof {
                let whole = s@.subrange(from as int, to as int);
                if parse_padded(whole) is Some {
                    lemma_parse_prefix(whole, i - from + 1);
                    assert(whole.subrange(0, i - from + 1) =~= cur);
                    assert(parse_padded(cur) == Some((acc as nat) * 10 + digit_val(s@[i as int])));
                }
            }
            return None;
        }
        acc = wide as u64;
        i = i + 1;
    }
    assert(s@.subrange(from as int, i as int) =~= s@.subrange(from as int, to as int));
    Some(acc)
}

/// Relies on `String::push`: appends one character to the string.
#[verifier::external_body]
pub fn push_char(s: &mut String, c: char)
    ensures
        final(s)@ == old(s)@.push(c),
{
    s.push(c);
}

/// Builds a string from a character vector.
pub fn chars_to_string(v: &Vec<char>) -> (s: String)
    ensures
        s@ == v@,
{
    let mut s = String::new();
    let mut i: usize = 0;
    while i < v.len()
        invariant
            i <= v.len(),
            s@ == v@.subrange(0, i as int),
        decreases v.len() - i,
    {
        push_char(&mut s, v[i]);
        proof {
            assert(v@.subrange(0, i as int).push(v@[i as int]) =~= v@.subrange(0, i as int + 1));
        }
        i = i + 1;
    }
    proof {
        assert(v@.subrange(0, v@.len() as int) =~= v@);
    }
    s
}

/// Breaks a string into its character vector.
pub fn str_to_chars(s: &str) -> (v: Vec<char>)
    ensures
        v@ == s@,
{
    let n = s.unicode_len();
    let mut v: Vec<char> = Vec::new();
    let mut i: usize = 0;
    while i < n
        invariant
            i <= n,
            n == s@.len(),
            v@ == s@.subrange(0, i as int),
        decreases n - i,
    {
        v.push(s.get_char(i));
        proof {
            assert(s@.subrange(0, i as int).push(s@[i as int]) =~= s@.subrange(0, i as int + 1));
        }
        i = i + 1;
    }
    proof {
        assert(s@.subrange(0, s@.len() as int) =~= s@);
    }
    v
}

} // verus!
