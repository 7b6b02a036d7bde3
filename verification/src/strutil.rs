//! Small verified string-building helpers shared by the key formatter,
//! the cache codec and the rename planner.
use vstd::prelude::*;

verus! {

/// Relies on std's `String::push`: appends the given character to the end
/// of the string.
#[verifier::external_body]
pub fn push_char(s: &mut String, c: char)
    ensures
        final(s)@ == old(s)@.push(c),
{
    s.push(c);
}

/// The decimal digit character for a value in `0 ..= 9`.
pub open spec fn spec_digit(d: int) -> char
    recommends
        0 <= d < 10,
{
    if d == 0 {
        '0'
    } else if d == 1 {
        '1'
    } else if d == 2 {
        '2'
    } else if d == 3 {
        '3'
    } else if d == 4 {
        '4'
    } else if d == 5 {
        '5'
    } else if d == 6 {
        '6'
    } else if d == 7 {
        '7'
    } else if d == 8 {
        '8'
    } else {
        '9'
    }
}

/// The decimal rendering of a natural number, without leading zeros
/// (except for the single digit of zero itself).
pub open spec fn spec_dec(n: nat) -> Seq<char>
    decreases n,
{
    if n < 10 {
        seq![spec_digit(n as int)]
    } else {
        spec_dec(n / 10).push(spec_digit((n % 10) as int))
    }
}

pub fn digit_char(d: u64) -> (c: char)
    requires
        d < 10,
    ensures
        c == spec_digit(d as int),
{
    if d == 0 {
        '0'
    } else if d == 1 {
        '1'
    } else if d == 2 {
        '2'
    } else if d == 3 {
        '3'
    } else if d == 4 {
        '4'
    } else if d == 5 {
        '5'
    } else if d == 6 {
        '6'
    } else if d == 7 {
        '7'
    } else if d == 8 {
        '8'
    } else {
        '9'
    }
}

/// Renders `n` in decimal.
pub fn u64_to_dec(n: u64) -> (r: String)
    ensures
        r@ == spec_dec(n as nat),
    decreases n,
{
    if n < 10 {
        let mut s = String::new();
        push_char(&mut s, digit_char(n));
        s
    } else {
        let mut s = u64_to_dec(n / 10);
        push_char(&mut s, digit_char(n % 10));
        s
    }
}

/// Every decimal rendering has at least one character.
pub proof fn lemma_dec_len_pos(n: nat)
    ensures
        spec_dec(n).len() >= 1,
    decreases n,
{
    if n >= 10 {
        lemma_dec_len_pos(n / 10);
    }
}

proof fn lemma_dec_len_1(n: nat)
    requires
        n <= 9,
    ensures
        spec_dec(n).len() == 1,
{
}

proof fn lemma_dec_len_2(n: nat)
    requires
        n <= 99,
    ensures
        spec_dec(n).len() <= 2,
{
    if n >= 10 {
        lemma_dec_len_1(n / 10);
    }
}

proof fn lemma_dec_len_3(n: nat)
    requires
        n <= 999,
    ensures
        spec_dec(n).len() <= 3,
{
    if n >= 10 {
        lemma_dec_len_2(n / 10);
    }
}

/// Numbers up to 9999 render in at most four digits.
pub proof fn lemma_dec_len_small(n: nat)
    requires
        n <= 9999,
    ensures
        spec_dec(n).len() <= 4,
{
    if n >= 10 {
        lemma_dec_len_3(n / 10);
    }
}

} // verus!
