//! Primitives of the persisted configuration document: quoted strings with
//! escaping, decimal numbers, and fixed tokens. Each value has one
//! canonical spelling; the decoder accepts exactly what the encoder
//! writes, and decoding what was encoded returns the value unchanged.

use vstd::prelude::*;

use crate::text::{dec_val, digit_val, is_digit};

verus! {

/// The canonical spelling of one string character: `"` and `\` get a
/// backslash, every other character stands for itself.
pub open spec fn esc_char(c: char) -> Seq<char> {
    if c == '"' || c == '\\' {
        seq!['\\', c]
    } else {
        seq![c]
    }
}

/// The canonical spelling of a string's characters.
pub open spec fn esc_chars(s: Seq<char>) -> Seq<char>
    decreases s.len(),
{
    if s.len() == 0 {
        Seq::empty()
    } else {
        esc_char(s[0]) + esc_chars(s.skip(1))
    }
}

/// A quoted string: its escaped characters between double quotes.
pub open spec fn enc_string(s: Seq<char>) -> Seq<char> {
    seq!['"'] + esc_chars(s) + seq!['"']
}

/// Escaping distributes over concatenation.
pub proof fn lemma_esc_chars_add(a: Seq<char>, b: Seq<char>)
    ensures
        esc_chars(a + b) == esc_chars(a) + esc_chars(b),
    decreases a.len(),
{
    if a.len() == 0 {
        assert(a + b =~= b);
        assert(esc_chars(a) + esc_chars(b) =~= esc_chars(b));
    } else {
        lemma_esc_chars_add(a.skip(1), b);
        assert((a + b).skip(1) =~= a.skip(1) + b);
        assert(esc_char((a + b)[0]) + (esc_chars(a.skip(1)) + esc_chars(b)) =~= (esc_char(a[0])
            + esc_chars(a.skip(1))) + esc_chars(b));
    }
}

/// What follows an opening quote: the string's characters up to the next
/// bare quote, unescaping as it goes; yields the content and how many
/// characters were read, the closing quote included.
pub open spec fn dec_string_body(s: Seq<char>) -> Option<(Seq<char>, int)>
    decreases s.len(),
{
    if s.len() == 0 {
        None
    } else if s[0] == '"' {
        Some((Seq::empty(), 1))
    } else if s[0] == '\\' {
        if s.len() < 2 {
            None
        } else {
            match dec_string_body(s.skip(2)) {
                Some(t) => Some((seq![s[1]] + t.0, t.1 + 2)),
                None => None,
            }
        }
    } else {
        match dec_string_body(s.skip(1)) {
            Some(t) => Some((seq![s[0]] + t.0, t.1 + 1)),
            None => None,
        }
    }
}

/// A quoted string read from the head of `s`: its content and how many
/// characters it occupied, quotes included.
pub open spec fn dec_string(s: Seq<char>) -> Option<(Seq<char>, int)> {
    if s.len() == 0 || s[0] != '"' {
        None
    } else {
        match dec_string_body(s.skip(1)) {
            Some(t) => Some((t.0, t.1 + 1)),
            None => None,
        }
    }
}

/// Reading a string body from an escaped string, a closing quote and a
/// rest gives back the string and stops at the rest.
pub proof fn lemma_dec_string_body_of_enc(v: Seq<char>, rest: Seq<char>)
    ensures
        dec_string_body(esc_chars(v) + seq!['"'] + rest) == Some::<(Seq<char>, int)>(
            (v, esc_chars(v).len() + 1 as int),
        ),
    decreases v.len(),
{
    let s = esc_chars(v) + seq!['"'] + rest;
    if v.len() == 0 {
        assert(s[0] == '"');
        assert(v =~= Seq::<char>::empty());
    } else {
        lemma_dec_string_body_of_enc(v.skip(1), rest);
        let tail = esc_chars(v.skip(1)) + seq!['"'] + rest;
        assert(esc_chars(v) == esc_char(v[0]) + esc_chars(v.skip(1)));
        if v[0] == '"' || v[0] == '\\' {
            assert(s[0] == '\\');
            assert(s.len() >= 2);
            assert(s[1] == v[0]);
            assert(s.skip(2) =~= tail);
            assert(seq![v[0]] + v.skip(1) =~= v);
        } else {
            assert(s[0] == v[0]);
            assert(s.skip(1) =~= tail);
            assert(seq![v[0]] + v.skip(1) =~= v);
        }
    }
}

/// Reading a string from its canonical spelling followed by a rest gives
/// back the string and stops at the rest.
pub proof fn lemma_dec_string_of_enc(v: Seq<char>, rest: Seq<char>)
    ensures
        dec_string(enc_string(v) + rest) == Some::<(Seq<char>, int)>((v, enc_string(v).len() as int)),
{
    let s = enc_string(v) + rest;
    assert(s[0] == '"');
    assert(s.skip(1) =~= esc_chars(v) + seq!['"'] + rest);
    lemma_dec_string_body_of_enc(v, rest);
}

/// The digit characters.
pub open spec fn digit_char(d: int) -> char {
    seq!['0', '1', '2', '3', '4', '5', '6', '7', '8', '9'][d]
}

/// The canonical decimal spelling of a non-negative number.
pub open spec fn dec_digits(n: int) -> Seq<char>
    decreases n,
{
    if n < 10 {
        seq![digit_char(n)]
    } else {
        dec_digits(n / 10) + seq![digit_char(n % 10)]
    }
}

/// A canonical decimal spelling holds only digits, is never empty, and
/// starts with `0` only for the number zero; its value is the number.
pub proof fn lemma_dec_digits_shape(n: int)
    requires
        n >= 0,
    ensures
        dec_digits(n).len() >= 1,
        forall|i: int| 0 <= i < dec_digits(n).len() ==> is_digit(#[trigger] dec_digits(n)[i]),
        dec_digits(n)[0] == '0' <==> n == 0,
        dec_val(dec_digits(n)) == n,
    decreases n,
{
    if n < 10 {
        assert(dec_digits(n) == seq![digit_char(n)]);
        assert(is_digit(digit_char(n)));
        assert(digit_val(digit_char(n)) == n);
        assert(dec_val(seq![digit_char(n)]) == dec_val(Seq::<char>::empty()) * 10 + digit_val(
            digit_char(n),
        )) by {
            assert(seq![digit_char(n)].drop_last() =~= Seq::<char>::empty());
        }
    } else {
        lemma_dec_digits_shape(n / 10);
        let a = dec_digits(n / 10);
        let w = a + seq![digit_char(n % 10)];
        assert(w[0] == a[0]);
        assert(n / 10 > 0);
        assert(is_digit(digit_char(n % 10)));
        assert(digit_val(digit_char(n % 10)) == n % 10);
        assert(w.drop_last() =~= a);
        assert(w.last() == digit_char(n % 10));
        assert(dec_val(w) == dec_val(a) * 10 + (n % 10));
        assert((n / 10) * 10 + (n % 10) == n) by {
            vstd::arithmetic::div_mod::lemma_fundamental_div_mod(n, 10);
        }
    }
}

/// How many leading digits `s` has.
pub open spec fn digit_run(s: Seq<char>) -> int
    decreases s.len(),
{
    if s.len() > 0 && is_digit(s[0]) {
        1 + digit_run(s.skip(1))
    } else {
        0
    }
}

/// The digit run covers exactly the digits before the first non-digit.
pub proof fn lemma_digit_run(s: Seq<char>)
    ensures
        0 <= digit_run(s) <= s.len(),
        forall|i: int| 0 <= i < digit_run(s) ==> is_digit(#[trigger] s[i]),
        digit_run(s) < s.len() ==> !is_digit(s[digit_run(s)]),
    decreases s.len(),
{
    if s.len() > 0 && is_digit(s[0]) {
        lemma_digit_run(s.skip(1));
        assert forall|i: int| 0 <= i < digit_run(s) implies is_digit(s[i]) by {
            if i >= 1 {
                assert(is_digit(s.skip(1)[i - 1]));
            }
        }
    }
}

/// A run of digits followed by a non-digit rest has exactly those digits.
pub proof fn lemma_digit_run_of(ds: Seq<char>, rest: Seq<char>)
    requires
        forall|i: int| 0 <= i < ds.len() ==> is_digit(#[trigger] ds[i]),
        rest.len() == 0 || !is_digit(rest[0]),
    ensures
        digit_run(ds + rest) == ds.len(),
    decreases ds.len(),
{
    let s = ds + rest;
    if ds.len() == 0 {
        assert(s =~= rest);
    } else {
        assert(is_digit(s[0]));
        lemma_digit_run_of(ds.skip(1), rest);
        assert(s.skip(1) =~= ds.skip(1) + rest);
    }
}

/// A decimal number read from the head of `s`: the digits before the
/// first non-digit, rejected when there are none, when a leading zero is
/// not the whole number, or when the value exceeds `bound`. Yields the
/// value and how many characters it occupied.
pub open spec fn dec_number(s: Seq<char>, bound: int) -> Option<(int, int)> {
    let k = digit_run(s);
    if k == 0 {
        None
    } else {
        let ds = s.subrange(0, k);
        if (ds[0] == '0' && k > 1) || dec_val(ds) > bound {
            None
        } else {
            Some((dec_val(ds), k))
        }
    }
}

/// Reading a number from its canonical spelling followed by anything that
/// does not begin with a digit gives back the number and stops there.
pub proof fn lemma_dec_number_of_enc(n: int, bound: int, rest: Seq<char>)
    requires
        0 <= n <= bound,
        rest.len() == 0 || !is_digit(rest[0]),
    ensures
        dec_number(dec_digits(n) + rest, bound) == Some::<(int, int)>(
            (n, dec_digits(n).len() as int),
        ),
{
    let ds = dec_digits(n);
    lemma_dec_digits_shape(n);
    lemma_digit_run_of(ds, rest);
    assert((ds + rest).subrange(0, ds.len() as int) =~= ds);
}

} // verus!
