//! Small helpers for building and comparing strings character by character.

use vstd::prelude::*;

verus! {

/// Relies on String::push: appends the given character to the end of the string.
pub assume_specification[ String::push ](s: &mut String, ch: char)
    ensures
        final(s)@ == old(s)@.push(ch),
;

/// Character-by-character string equality.
pub fn str_eq(a: &str, b: &str) -> (r: bool)
    ensures
        r == (a@ == b@),
{
    let alen = a.unicode_len();
    let blen = b.unicode_len();
    if alen != blen {
        return false;
    }
    let mut i: usize = 0;
    while i < alen
        invariant
            i <= alen,
            alen == a@.len(),
            blen == b@.len(),
            alen == blen,
            forall|j: int| 0 <= j < i ==> a@[j] == b@[j],
        decreases alen - i,
    {
        if a.get_char(i) != b.get_char(i) {
            return false;
        }
        i += 1;
    }
    proof {
        assert(a@ =~= b@);
    }
    true
}

/// The characters `input[from..to]`, collected into an owned string.
pub fn string_of_range(input: &Vec<char>, from: usize, to: usize) -> (s: String)
    requires
        from <= to <= input@.len(),
    ensures
        s@ == input@.subrange(from as int, to as int),
{
    let mut s = String::new();
    let mut i = from;
    while i < to
        invariant
            from <= i <= to <= input@.len(),
            s@ == input@.subrange(from as int, i as int),
        decreases to - i,
    {
        s.push(input[i]);
        proof {
            assert(input@.subrange(from as int, (i + 1) as int) =~= input@.subrange(
                from as int,
                i as int,
            ).push(input@[i as int]));
        }
        i += 1;
    }
    s
}

/// The character for one decimal or hexadecimal digit value, lower case.
pub open spec fn spec_digit_char(d: u64) -> char
    recommends
        d < 16,
{
    if d < 10 {
        ((48 + d) as u8) as char
    } else {
        ((87 + d) as u8) as char
    }
}

/// The character for a digit value below 16: `0`-`9`, then `a`-`f`.
pub fn digit_char(d: u64) -> (c: char)
    requires
        d < 16,
    ensures
        c == spec_digit_char(d),
{
    if d < 10 {
        (48 + d as u8) as char
    } else {
        (87 + d as u8) as char
    }
}

/// The decimal digits of `n`, most significant first.
pub open spec fn spec_dec_digits(n: u64) -> Seq<char>
    decreases n,
{
    if n < 10 {
        seq![spec_digit_char(n)]
    } else {
        spec_dec_digits(n / 10).push(spec_digit_char(n % 10))
    }
}

/// Appends the decimal rendering of `n` to `out`.
pub fn push_dec_digits(out: &mut String, n: u64)
    ensures
        final(out)@ == old(out)@ + spec_dec_digits(n),
    decreases n,
{
    if n < 10 {
        out.push(digit_char(n));
        proof {
            assert(out@ =~= old(out)@ + spec_dec_digits(n));
        }
    } else {
        push_dec_digits(out, n / 10);
        out.push(digit_char(n % 10));
        proof {
            assert(out@ =~= old(out)@ + spec_dec_digits(n));
        }
    }
}

} // verus!
