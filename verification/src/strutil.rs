//! Small string helpers shared across the crate: trusted wrappers around two
//! `std` string operations that vstd does not specify, and verified decimal
//! formatting.

use vstd::prelude::*;

verus! {

/// Relies on `String::push`: appends one character to the end of the string.
#[verifier::external_body]
pub fn push_char(s: &mut String, c: char)
    ensures
        final(s)@ == old(s)@.push(c),
{
    s.push(c);
}

/// Relies on `str`'s `PartialEq`: two string slices compare equal exactly when
/// their character sequences are equal.
#[verifier::external_body]
pub fn str_eq(a: &str, b: &str) -> (r: bool)
    ensures
        r == (a@ == b@),
{
    a == b
}

/// Characters with the same code point are the same character.
pub proof fn lemma_char_code_injective(a: char, b: char)
    requires
        a as u32 == b as u32,
    ensures
        a == b,
{
}

/// A cloned `String` equals its source.
pub proof fn lemma_string_cloned(a: String, b: String)
    requires
        vstd::pervasive::cloned::<String>(a, b),
    ensures
        b == a,
{
}

/// A cloned `Vec<String>` has the same character content as its source.
pub proof fn lemma_vec_string_cloned(a: Vec<String>, b: Vec<String>)
    requires
        a@.len() == b@.len(),
        forall|i: int| 0 <= i < a@.len() ==> vstd::pervasive::cloned::<String>(a@[i], #[trigger] b@[i]),
    ensures
        b@ =~= a@,
        b.deep_view() =~= a.deep_view(),
{
    assert(forall|i: int| 0 <= i < a@.len() ==> #[trigger] b@[i] == a@[i]) by {
        assert(forall|i: int|
            0 <= i < a@.len() ==> vstd::pervasive::cloned::<String>(a@[i], #[trigger] b@[i]));
        assert forall|i: int| 0 <= i < a@.len() implies #[trigger] b@[i] == a@[i] by {
            lemma_string_cloned(a@[i], b@[i]);
        }
    }
    assert(b@ =~= a@);
    assert(b.deep_view() =~= a.deep_view()) by {
        assert(forall|i: int| 0 <= i < a@.len() ==> #[trigger] b.deep_view()[i] == b@[i]@);
        assert(forall|i: int| 0 <= i < a@.len() ==> #[trigger] a.deep_view()[i] == a@[i]@);
    }
}

/// The decimal digit character for a value below ten.
pub open spec fn dec_digit(d: int) -> char {
    if d == 0 { '0' }
    else if d == 1 { '1' }
    else if d == 2 { '2' }
    else if d == 3 { '3' }
    else if d == 4 { '4' }
    else if d == 5 { '5' }
    else if d == 6 { '6' }
    else if d == 7 { '7' }
    else if d == 8 { '8' }
    else { '9' }
}

/// The usual decimal rendering of a non-negative integer, most significant
/// digit first, with no leading zeroes (except for zero itself).
pub open spec fn dec_chars(n: int) -> Seq<char>
    decreases n,
{
    if n < 10 {
        seq![dec_digit(n)]
    } else {
        dec_chars(n / 10).push(dec_digit(n % 10))
    }
}

fn dec_digit_char(d: u64) -> (c: char)
    requires
        d < 10,
    ensures
        c == dec_digit(d as int),
{
    match d {
        0 => '0',
        1 => '1',
        2 => '2',
        3 => '3',
        4 => '4',
        5 => '5',
        6 => '6',
        7 => '7',
        8 => '8',
        _ => '9',
    }
}

/// Appends the decimal rendering of `n` to `out`.
pub fn push_decimal(out: &mut String, n: u64)
    ensures
        final(out)@ == old(out)@ + dec_chars(n as int),
    decreases n,
{
    if n < 10 {
        push_char(out, dec_digit_char(n));
        proof {
            assert(old(out)@ + dec_chars(n as int) =~= old(out)@.push(dec_digit(n as int)));
        }
    } else {
        push_decimal(out, n / 10);
        push_char(out, dec_digit_char(n % 10));
        proof {
            assert(old(out)@ + dec_chars(n as int) =~= (old(out)@ + dec_chars(n as int / 10)).push(
                dec_digit(n as int % 10),
            ));
        }
    }
}

/// The decimal rendering of `n` as a fresh string.
pub fn decimal_string(n: u64) -> (r: String)
    ensures
        r@ == dec_chars(n as int),
{
    let mut out = String::new();
    push_decimal(&mut out, n);
    proof {
        assert(Seq::<char>::empty() + dec_chars(n as int) =~= dec_chars(n as int));
    }
    out
}

} // verus!
