//! Lists and optional values of the persisted document: a list is its
//! elements between brackets, comma-separated; an absent value is `null`.
//! Both decoders are exact inverses of the encoders, for any element
//! codec that is itself an exact inverse.

use vstd::prelude::*;

verus! {

/// A list's elements between `[` and `]`, comma-separated.
pub open spec fn enc_list<T>(items: Seq<T>, fe: spec_fn(T) -> Seq<char>) -> Seq<char>
    decreases items.len(),
{
    if items.len() == 0 {
        seq!['[', ']']
    } else {
        seq!['['] + fe(items[0]) + enc_list_tail(items.skip(1), fe)
    }
}

/// The later elements of a list, each after a comma, then `]`.
pub open spec fn enc_list_tail<T>(items: Seq<T>, fe: spec_fn(T) -> Seq<char>) -> Seq<char>
    decreases items.len(),
{
    if items.len() == 0 {
        seq![']']
    } else {
        seq![','] + fe(items[0]) + enc_list_tail(items.skip(1), fe)
    }
}

/// One or more elements read up to and including the closing `]`.
pub open spec fn dec_list_items<T>(
    s: Seq<char>,
    fd: spec_fn(Seq<char>) -> Option<(T, int)>,
) -> Option<(Seq<T>, int)>
    decreases s.len(),
{
    match fd(s) {
        None => None,
        Some(t) => if t.1 < 1 || t.1 + 1 > s.len() {
            None
        } else if s[t.1] == ']' {
            Some((seq![t.0], t.1 + 1))
        } else if s[t.1] == ',' {
            match dec_list_items(s.skip(t.1 + 1), fd) {
                Some(u) => Some((seq![t.0] + u.0, t.1 + 1 + u.1)),
                None => None,
            }
        } else {
            None
        },
    }
}

/// A whole list read from the head of `s`.
pub open spec fn dec_list<T>(
    s: Seq<char>,
    fd: spec_fn(Seq<char>) -> Option<(T, int)>,
) -> Option<(Seq<T>, int)> {
    if s.len() >= 1 && s[0] == '[' {
        if s.len() >= 2 && s[1] == ']' {
            Some((Seq::empty(), 2))
        } else {
            match dec_list_items(s.skip(1), fd) {
                Some(t) => Some((t.0, t.1 + 1)),
                None => None,
            }
        }
    } else {
        None
    }
}

/// An element codec is exact when decoding an encoding, whatever follows,
/// yields the value and consumes exactly the encoding.
pub open spec fn exact_codec<T>(
    fe: spec_fn(T) -> Seq<char>,
    fd: spec_fn(Seq<char>) -> Option<(T, int)>,
) -> bool {
    (forall|v: T, r: Seq<char>|
        #[trigger] fd(fe(v) + r) == Some::<(T, int)>((v, fe(v).len() as int))) && (forall|v: T|
        (#[trigger] fe(v)).len() >= 1 && fe(v)[0] != 'n' && fe(v)[0] != ']' && fe(v)[0] != ',')
}

proof fn lemma_dec_list_items_of_enc<T>(
    items: Seq<T>,
    fe: spec_fn(T) -> Seq<char>,
    fd: spec_fn(Seq<char>) -> Option<(T, int)>,
    rest: Seq<char>,
)
    requires
        exact_codec(fe, fd),
        items.len() >= 1,
    ensures
        dec_list_items(fe(items[0]) + enc_list_tail(items.skip(1), fe) + rest, fd)
            == Some::<(Seq<T>, int)>(
            (items, (fe(items[0]) + enc_list_tail(items.skip(1), fe)).len() as int),
        ),
    decreases items.len(),
{
    let v = items[0];
    let tail = enc_list_tail(items.skip(1), fe);
    let s = fe(v) + tail + rest;
    assert(fd(fe(v) + (tail + rest)) == Some::<(T, int)>((v, fe(v).len() as int)));
    assert(s =~= fe(v) + (tail + rest));
    let k = fe(v).len() as int;
    assert(s[k] == (tail + rest)[0]);
    if items.len() == 1 {
        assert(items.skip(1).len() == 0);
        assert(s[k] == ']');
        assert(seq![v] =~= items);
        assert((fe(v) + tail).len() == k + 1);
    } else {
        assert(s[k] == ',');
        lemma_dec_list_items_of_enc(items.skip(1), fe, fd, rest);
        let inner = fe(items.skip(1)[0]) + enc_list_tail(items.skip(1).skip(1), fe);
        assert(tail =~= seq![','] + inner);
        assert(s.skip(k + 1) =~= inner + rest);
        assert(items.skip(1).skip(1) =~= items.skip(2));
        assert(seq![v] + items.skip(1) =~= items);
        assert((fe(v) + tail).len() == k + 1 + inner.len());
    }
}

/// Decoding an encoded list, whatever follows, yields the items and
/// consumes exactly the encoding.
pub proof fn lemma_dec_list_of_enc<T>(
    items: Seq<T>,
    fe: spec_fn(T) -> Seq<char>,
    fd: spec_fn(Seq<char>) -> Option<(T, int)>,
    rest: Seq<char>,
)
    requires
        exact_codec(fe, fd),
    ensures
        dec_list(enc_list(items, fe) + rest, fd) == Some::<(Seq<T>, int)>(
            (items, enc_list(items, fe).len() as int),
        ),
{
    let s = enc_list(items, fe) + rest;
    if items.len() == 0 {
        assert(s[0] == '[' && s[1] == ']');
    } else {
        assert(s[0] == '[');
        assert(fe(items[0]).len() >= 1 && fe(items[0])[0] != ']');
        assert(s[1] == fe(items[0])[0]);
        lemma_dec_list_items_of_enc(items, fe, fd, rest);
        assert(s.skip(1) =~= fe(items[0]) + enc_list_tail(items.skip(1), fe) + rest);
    }
}

/// An optional value: `null`, or the value itself.
pub open spec fn enc_opt<T>(o: Option<T>, fe: spec_fn(T) -> Seq<char>) -> Seq<char> {
    match o {
        None => seq!['n', 'u', 'l', 'l'],
        Some(v) => fe(v),
    }
}

/// An optional value read from the head of `s`.
pub open spec fn dec_opt<T>(
    s: Seq<char>,
    fd: spec_fn(Seq<char>) -> Option<(T, int)>,
) -> Option<(Option<T>, int)> {
    if seq!['n', 'u', 'l', 'l'].is_prefix_of(s) {
        Some((None, 4))
    } else {
        match fd(s) {
            Some(t) => Some((Some(t.0), t.1)),
            None => None,
        }
    }
}

/// Decoding an encoded optional value, whatever follows, yields the value
/// and consumes exactly the encoding.
pub proof fn lemma_dec_opt_of_enc<T>(
    o: Option<T>,
    fe: spec_fn(T) -> Seq<char>,
    fd: spec_fn(Seq<char>) -> Option<(T, int)>,
    rest: Seq<char>,
)
    requires
        exact_codec(fe, fd),
    ensures
        dec_opt(enc_opt(o, fe) + rest, fd) == Some::<(Option<T>, int)>(
            (o, enc_opt(o, fe).len() as int),
        ),
{
    let s = enc_opt(o, fe) + rest;
    match o {
        None => {
            assert(seq!['n', 'u', 'l', 'l'].is_prefix_of(s)) by {
                assert(s.subrange(0, 4) =~= seq!['n', 'u', 'l', 'l']);
            }
        },
        Some(v) => {
            assert(s[0] == fe(v)[0]);
            assert(!seq!['n', 'u', 'l', 'l'].is_prefix_of(s)) by {
                if seq!['n', 'u', 'l', 'l'].is_prefix_of(s) {
                    assert(s.subrange(0, 4)[0] == 'n');
                }
            }
            assert(fd(fe(v) + rest) == Some::<(T, int)>((v, fe(v).len() as int)));
        },
    }
}

} // verus!
