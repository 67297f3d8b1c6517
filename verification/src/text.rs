//! Character and string utilities shared by the matcher, the header router
//! and the IP policy: ASCII-case-insensitive comparison, substring search,
//! splitting on a delimiter, and decimal digit strings.

use vstd::prelude::*;

verus! {

/// The ASCII-lowercase code of a character (letters `A`..`Z` map down, all
/// other characters keep their code).
pub open spec fn lower_u32(c: char) -> u32 {
    if 65 <= c as u32 && c as u32 <= 90 {
        (c as u32 + 32) as u32
    } else {
        c as u32
    }
}

/// ASCII-case-insensitive equality of two characters.
pub open spec fn chars_eq_ci(a: char, b: char) -> bool {
    lower_u32(a) == lower_u32(b)
}

/// ASCII-case-insensitive equality of two strings.
pub open spec fn str_eq_ci(a: Seq<char>, b: Seq<char>) -> bool {
    a.len() == b.len() && (forall|i: int| 0 <= i < a.len() ==> chars_eq_ci(a[i], b[i]))
}

/// ASCII-case-insensitive equality, executable.
pub fn chars_ci_equal(a: char, b: char) -> (r: bool)
    ensures
        r == chars_eq_ci(a, b),
{
    let ua: u32 = a as u32;
    let ub: u32 = b as u32;
    let la: u32 = if 65 <= ua && ua <= 90 { ua + 32 } else { ua };
    let lb: u32 = if 65 <= ub && ub <= 90 { ub + 32 } else { ub };
    la == lb
}

/// ASCII-case-insensitive equality of two strings, executable.
pub fn str_ci_equal(a: &str, b: &str) -> (r: bool)
    ensures
        r == str_eq_ci(a@, b@),
{
    let n = a.unicode_len();
    if n != b.unicode_len() {
        return false;
    }
    let mut i: usize = 0;
    while i < n
        invariant
            i <= n,
            n == a@.len(),
            n == b@.len(),
            forall|j: int| 0 <= j < i ==> chars_eq_ci(a@[j], b@[j]),
        decreases n - i,
    {
        if !chars_ci_equal(a.get_char(i), b.get_char(i)) {
            return false;
        }
        i = i + 1;
    }
    true
}

/// Exact equality of two strings, executable.
pub fn str_equal(a: &str, b: &str) -> (r: bool)
    ensures
        r == (a@ == b@),
{
    let n = a.unicode_len();
    if n != b.unicode_len() {
        return false;
    }
    let mut i: usize = 0;
    while i < n
        invariant
            i <= n,
            n == a@.len(),
            n == b@.len(),
            forall|j: int| 0 <= j < i ==> a@[j] == b@[j],
        decreases n - i,
    {
        if a.get_char(i) != b.get_char(i) {
            return false;
        }
        i = i + 1;
    }
    proof {
        assert(a@ =~= b@);
    }
    true
}

/// Whether the pattern `d` occurs in `s` starting at position `i`.
pub open spec fn matches_at(s: Seq<char>, d: Seq<char>, i: int) -> bool {
    0 <= i && i + d.len() <= s.len() && s.subrange(i, i + d.len()) == d
}

/// The position of the first occurrence of `d` in `s`, if any.
pub open spec fn first_index_of(s: Seq<char>, d: Seq<char>) -> Option<int>
    decreases s.len(),
{
    if d.len() > s.len() {
        None
    } else if s.subrange(0, d.len() as int) == d {
        Some(0)
    } else if s.len() == 0 {
        None
    } else {
        match first_index_of(s.skip(1), d) {
            Some(j) => Some(j + 1),
            None => None,
        }
    }
}

/// `first_index_of` finds exactly the least position at which `d` occurs.
pub proof fn lemma_first_index_of(s: Seq<char>, d: Seq<char>)
    ensures
        match first_index_of(s, d) {
            Some(i) => matches_at(s, d, i) && (forall|j: int| 0 <= j < i ==> !matches_at(s, d, j)),
            None => forall|j: int| !matches_at(s, d, j),
        },
    decreases s.len(),
{
    if d.len() > s.len() {
        assert(forall|j: int| !matches_at(s, d, j));
    } else if s.subrange(0, d.len() as int) == d {
        assert(matches_at(s, d, 0));
    } else if s.len() == 0 {
        assert(forall|j: int| !matches_at(s, d, j));
    } else {
        lemma_first_index_of(s.skip(1), d);
        assert forall|j: int| 1 <= j && matches_at(s, d, j) implies matches_at(
            s.skip(1),
            d,
            j - 1,
        ) by {
            assert(s.skip(1).subrange(j - 1, j - 1 + d.len()) =~= s.subrange(j, j + d.len()));
        }
        assert forall|j: int| 1 <= j && matches_at(s.skip(1), d, j - 1) implies matches_at(
            s,
            d,
            j,
        ) by {
            assert(s.subrange(j, j + d.len()) =~= s.skip(1).subrange(j - 1, j - 1 + d.len()));
        }
        assert(!matches_at(s, d, 0));
        match first_index_of(s.skip(1), d) {
            Some(j) => {
                assert(first_index_of(s, d) == Some(j + 1));
                assert(matches_at(s.skip(1), d, j));
                assert(matches_at(s, d, j + 1));
                assert forall|k: int| 0 <= k < j + 1 implies !matches_at(s, d, k) by {
                    if k >= 1 {
                        assert(!matches_at(s.skip(1), d, k - 1));
                    }
                }
            }
            None => {
                assert forall|j: int| true implies !matches_at(s, d, j) by {
                    if j >= 1 {
                        assert(!matches_at(s.skip(1), d, j - 1));
                    }
                }
            }
        }
    }
}

/// Whether `d` occurs in `s` starting at `i`, executable.
pub(crate) fn str_matches_at(s: &str, d: &str, i: usize) -> (r: bool)
    requires
        i + d@.len() <= s@.len(),
    ensures
        r == matches_at(s@, d@, i as int),
{
    let n = s.unicode_len();
    let m = d.unicode_len();
    let mut k: usize = 0;
    while k < m
        invariant
            k <= m,
            m == d@.len(),
            n == s@.len(),
            i + m <= n,
            forall|j: int| 0 <= j < k ==> s@[i + j] == d@[j],
        decreases m - k,
    {
        if s.get_char(i + k) != d.get_char(k) {
            assert(!matches_at(s@, d@, i as int)) by {
                assert(s@.subrange(i as int, i + d@.len())[k as int] == s@[i + k]);
            }
            return false;
        }
        k = k + 1;
    }
    assert(s@.subrange(i as int, i + d@.len()) =~= d@);
    true
}

/// The first occurrence of `d` in `s`, executable.
pub fn str_find(s: &str, d: &str) -> (r: Option<usize>)
    ensures
        match r {
            Some(i) => first_index_of(s@, d@) == Some(i as int),
            None => first_index_of(s@, d@) is None,
        },
{
    proof {
        lemma_first_index_of(s@, d@);
    }
    let n = s.unicode_len();
    let m = d.unicode_len();
    if m > n {
        return None;
    }
    if m == 0 {
        assert(s@.subrange(0, 0) =~= d@);
        return Some(0);
    }
    let mut i: usize = 0;
    while i <= n - m
        invariant
            1 <= m <= n,
            n == s@.len(),
            m == d@.len(),
            i <= n - m + 1,
            forall|j: int| 0 <= j < i ==> !matches_at(s@, d@, j),
        decreases n - i,
    {
        if str_matches_at(s, d, i) {
            proof {
                lemma_first_index_of(s@, d@);
                match first_index_of(s@, d@) {
                    Some(k) => {
                        if k > i {
                            assert(!matches_at(s@, d@, i as int));
                        }
                        if k < i {
                            assert(!matches_at(s@, d@, k));
                        }
                    }
                    None => {
                        assert(!matches_at(s@, d@, i as int));
                    }
                }
            }
            return Some(i);
        }
        i = i + 1;
    }
    proof {
        lemma_first_index_of(s@, d@);
        if first_index_of(s@, d@) is Some {
            let k = first_index_of(s@, d@)->Some_0;
            assert(matches_at(s@, d@, k));
            assert(k <= n - m);
            assert(!matches_at(s@, d@, k));
        }
    }
    None
}

/// Whether `p` is a prefix of `s`, executable.
pub fn str_starts_with(s: &str, p: &str) -> (r: bool)
    ensures
        r == p@.is_prefix_of(s@),
{
    let n = s.unicode_len();
    let m = p.unicode_len();
    if m > n {
        return false;
    }
    let r = str_matches_at(s, p, 0);
    proof {
        if r {
            assert(p@ =~= s@.subrange(0, p@.len() as int));
        } else {
            if p@.is_prefix_of(s@) {
                assert(s@.subrange(0, p@.len() as int) =~= p@);
            }
        }
    }
    r
}

/// The pieces of `s` cut at each occurrence of the delimiter `d`, scanned
/// from the left. An empty delimiter does not cut: the result is `s` whole.
pub open spec fn split_chars(s: Seq<char>, d: Seq<char>) -> Seq<Seq<char>>
    decreases s.len(),
{
    if d.len() == 0 {
        seq![s]
    } else {
        match first_index_of(s, d) {
            None => seq![s],
            Some(i) => if 0 <= i && i + d.len() <= s.len() {
                seq![s.subrange(0, i)] + split_chars(s.subrange(i + d.len(), s.len() as int), d)
            } else {
                seq![s]
            },
        }
    }
}

/// Split `s` at each occurrence of `d`, executable.
pub fn str_split(s: &String, d: &String) -> (r: Vec<String>)
    ensures
        r@.map_values(|p: String| p@) == split_chars(s@, d@),
{
    let mut out: Vec<String> = Vec::new();
    let mut rest: String = s.clone();
    if d.unicode_len() == 0 {
        out.push(rest);
        assert(out@.map_values(|p: String| p@) =~~= split_chars(s@, d@));
        return out;
    }
    loop
        invariant
            d@.len() > 0,
            split_chars(s@, d@) == out@.map_values(|p: String| p@) + split_chars(rest@, d@),
        decreases rest@.len(),
    {
        proof {
            lemma_first_index_of(rest@, d@);
        }
        match str_find(rest.as_str(), d.as_str()) {
            None => {
                let ghost prev = out@.map_values(|p: String| p@);
                let ghost last = rest@;
                out.push(rest);
                proof {
                    assert(out@.map_values(|p: String| p@) =~~= prev + seq![last]);
                    assert(split_chars(last, d@) == seq![last]);
                }
                return out;
            }
            Some(i) => {
                let m = d.unicode_len();
                let n = rest.unicode_len();
                let piece = String::from_str(rest.as_str().substring_char(0, i));
                let tail = String::from_str(rest.as_str().substring_char(i + m, n));
                let ghost prev = out@.map_values(|p: String| p@);
                let ghost whole = rest@;
                out.push(piece);
                rest = tail;
                proof {
                    assert(out@.map_values(|p: String| p@) =~~= prev + seq![
                        whole.subrange(0, i as int),
                    ]);
                    assert(split_chars(whole, d@) == seq![whole.subrange(0, i as int)]
                        + split_chars(whole.subrange(i + d@.len(), whole.len() as int), d@));
                    assert(prev + seq![whole.subrange(0, i as int)] + split_chars(rest@, d@)
                        =~~= prev + (seq![whole.subrange(0, i as int)] + split_chars(rest@, d@)));
                }
            }
        }
    }
}

/// Whether `c` is a decimal digit.
pub open spec fn is_digit(c: char) -> bool {
    48 <= c as u32 && c as u32 <= 57
}

/// The value of a decimal digit.
pub open spec fn digit_val(c: char) -> int {
    c as u32 - 48
}

/// Whether every character of `s` is a decimal digit.
pub open spec fn all_digits(s: Seq<char>) -> bool {
    forall|i: int| 0 <= i < s.len() ==> is_digit(#[trigger] s[i])
}

/// The numeric value of a digit string, most significant digit first.
pub open spec fn dec_val(s: Seq<char>) -> int
    decreases s.len(),
{
    if s.len() == 0 {
        0
    } else {
        dec_val(s.drop_last()) * 10 + digit_val(s.last())
    }
}

/// A digit string of at most three digits has a value between 0 and 999.
pub proof fn lemma_dec_val_bounds(s: Seq<char>)
    requires
        all_digits(s),
    ensures
        dec_val(s) >= 0,
        s.len() <= 3 ==> dec_val(s) <= 999,
        s.len() <= 2 ==> dec_val(s) <= 99,
        s.len() <= 1 ==> dec_val(s) <= 9,
    decreases s.len(),
{
    if s.len() > 0 {
        assert(all_digits(s.drop_last())) by {
            assert(forall|i: int| 0 <= i < s.len() - 1 ==> s.drop_last()[i] == s[i]);
        }
        lemma_dec_val_bounds(s.drop_last());
        assert(is_digit(s.last()));
    }
}

/// Parse a digit string of at most three digits, executable. Returns the
/// value exactly when `s` is non-empty and wholly made of digits.
pub fn parse_small_dec(s: &str) -> (r: Option<u16>)
    requires
        s@.len() <= 3,
    ensures
        match r {
            Some(v) => all_digits(s@) && s@.len() > 0 && v as int == dec_val(s@),
            None => s@.len() == 0 || !all_digits(s@),
        },
{
    let n = s.unicode_len();
    if n == 0 {
        return None;
    }
    let mut i: usize = 0;
    let mut acc: u16 = 0;
    while i < n
        invariant
            i <= n,
            n == s@.len(),
            1 <= n <= 3,
            forall|j: int| 0 <= j < i ==> is_digit(#[trigger] s@[j]),
            acc as int == dec_val(s@.subrange(0, i as int)),
            acc <= 999,
        decreases n - i,
    {
        let c = s.get_char(i);
        let u: u32 = c as u32;
        if !(48 <= u && u <= 57) {
            assert(!all_digits(s@));
            return None;
        }
        proof {
            assert(forall|j: int| 0 <= j < i ==> s@.subrange(0, i as int)[j] == s@[j]);
            assert(s@.subrange(0, i + 1).drop_last() =~= s@.subrange(0, i as int));
            assert(forall|j: int| 0 <= j < i + 1 ==> s@.subrange(0, i + 1)[j] == s@[j]);
            assert(all_digits(s@.subrange(0, i + 1)));
            lemma_dec_val_bounds(s@.subrange(0, i + 1));
        }
        acc = acc * 10 + ((u - 48) as u16);
        i = i + 1;
    }
    proof {
        assert(s@.subrange(0, n as int) =~= s@);
    }
    Some(acc)
}

} // verus!
