//! The persisted configuration document: every piece of the routing table
//! has one canonical spelling, and the decoder reads back exactly what the
//! encoder wrote. The document is a flow-style structured text that YAML
//! and JSON readers both accept.

use vstd::prelude::*;

use crate::allow_deny_ip::AllowType;
use crate::app_config::ServiceType;
use crate::persist::primitives::{dec_digits, dec_number, dec_string, enc_string,
    lemma_dec_digits_shape, lemma_dec_number_of_enc, lemma_dec_string_of_enc};
use crate::persist::seqs::{dec_list, dec_opt, enc_list, enc_opt, exact_codec, lemma_dec_list_of_enc,
    lemma_dec_opt_of_enc};
use crate::persist::views::{AllowDenyView, AppConfigView, ApiServiceView, BaseRouteView,
    HeaderItemView, HvView, MatcherView, RouteView, ServiceConfigView, StaticConfigView,
    StrategyView, WeightItemView};
use crate::text::is_digit;

verus! {

/// Consume a fixed token from the head of `s`.
pub open spec fn eat(s: Seq<char>, tok: Seq<char>) -> Option<int> {
    if tok.is_prefix_of(s) {
        Some(tok.len() as int)
    } else {
        None
    }
}

/// Eating a token from itself-plus-tail succeeds and leaves the tail.
pub proof fn lemma_eat_exact(tok: Seq<char>, tail: Seq<char>)
    ensures
        eat(tok + tail, tok) == Some(tok.len() as int),
        (tok + tail).skip(tok.len() as int) == tail,
{
    assert((tok + tail).subrange(0, tok.len() as int) =~= tok);
    assert((tok + tail).skip(tok.len() as int) =~= tail);
}

/// Skipping a sum is skipping twice.
pub proof fn lemma_skip_add(s: Seq<char>, a: int, b: int)
    requires
        0 <= a,
        0 <= b,
        a + b <= s.len(),
    ensures
        s.skip(a + b) == s.skip(a).skip(b),
{
    assert(s.skip(a + b) =~= s.skip(a).skip(b));
}

/// The canonical spelling of an unsigned number.
pub open spec fn enc_u64v(n: u64) -> Seq<char> {
    dec_digits(n as int)
}

/// An unsigned number read from the head of `s`.
pub open spec fn dec_u64v(s: Seq<char>) -> Option<(int, int)> {
    dec_number(s, u64::MAX as int)
}

/// Reading an unsigned number from its spelling, followed by anything not
/// starting with a digit, gives the number back.
pub proof fn lemma_dec_u64_of_enc(n: u64, rest: Seq<char>)
    requires
        rest.len() == 0 || !is_digit(rest[0]),
    ensures
        dec_u64v(enc_u64v(n) + rest) == Some::<(int, int)>((n as int, enc_u64v(n).len() as int)),
{
    lemma_dec_number_of_enc(n as int, u64::MAX as int, rest);
}

/// The canonical spelling of a signed 32-bit number.
pub open spec fn enc_i32v(n: int) -> Seq<char> {
    if n < 0 {
        seq!['-'] + dec_digits(-n)
    } else {
        dec_digits(n)
    }
}

/// A signed 32-bit number read from the head of `s`.
pub open spec fn dec_i32v(s: Seq<char>) -> Option<(int, int)> {
    if s.len() >= 1 && s[0] == '-' {
        match dec_number(s.skip(1), 0x80000000) {
            Some(t) => if t.0 > 0 {
                Some((0 - t.0, t.1 + 1))
            } else {
                None
            },
            None => None,
        }
    } else {
        dec_number(s, 0x7FFFFFFF)
    }
}

/// Reading a signed number from its spelling, followed by anything not
/// starting with a digit, gives the number back.
pub proof fn lemma_dec_i32_of_enc(n: int, rest: Seq<char>)
    requires
        -0x80000000 <= n <= 0x7FFFFFFF,
        rest.len() == 0 || !is_digit(rest[0]),
    ensures
        dec_i32v(enc_i32v(n) + rest) == Some::<(int, int)>((n, enc_i32v(n).len() as int)),
{
    let s = enc_i32v(n) + rest;
    if n < 0 {
        lemma_dec_digits_shape(-n);
        assert(s[0] == '-');
        assert(s.skip(1) =~= dec_digits(-n) + rest);
        lemma_dec_number_of_enc(-n, 0x80000000, rest);
    } else {
        lemma_dec_digits_shape(n);
        assert(s[0] == dec_digits(n)[0]);
        assert(is_digit(s[0]));
        assert(s[0] != '-');
        lemma_dec_number_of_enc(n, 0x7FFFFFFF, rest);
    }
}

/// An optional string: `null` or its quoted spelling.
pub open spec fn enc_opt_string(o: Option<Seq<char>>) -> Seq<char> {
    enc_opt(o, |t: Seq<char>| enc_string(t))
}

/// An optional string read from the head of `s`.
pub open spec fn dec_opt_string(s: Seq<char>) -> Option<(Option<Seq<char>>, int)> {
    dec_opt(s, |s2: Seq<char>| dec_string(s2))
}

/// The quoted string codec is exact.
pub proof fn lemma_string_codec_exact()
    ensures
        exact_codec(|t: Seq<char>| enc_string(t), |s2: Seq<char>| dec_string(s2)),
{
    let fe = |t: Seq<char>| enc_string(t);
    let fd = |s2: Seq<char>| dec_string(s2);
    assert forall|v: Seq<char>, r: Seq<char>| #[trigger] fd(fe(v) + r) == Some::<(Seq<char>, int)>(
        (v, fe(v).len() as int),
    ) by {
        lemma_dec_string_of_enc(v, r);
    }
    assert forall|v: Seq<char>| (#[trigger] fe(v)).len() >= 1 && fe(v)[0] != 'n' && fe(v)[0] != ']'
        && fe(v)[0] != ',' by {
        assert(enc_string(v)[0] == '"');
    }
}

/// Reading an optional string from its spelling gives it back.
pub proof fn lemma_dec_opt_string_of_enc(o: Option<Seq<char>>, rest: Seq<char>)
    ensures
        dec_opt_string(enc_opt_string(o) + rest) == Some::<(Option<Seq<char>>, int)>(
            (o, enc_opt_string(o).len() as int),
        ),
{
    lemma_string_codec_exact();
    lemma_dec_opt_of_enc(o, |t: Seq<char>| enc_string(t), |s2: Seq<char>| dec_string(s2), rest);
}

/// One upstream target: its endpoint, file fallback and identifier. The
/// runtime health state is not part of the document.
#[verifier::opaque]
pub open spec fn enc_base_route(b: BaseRouteView) -> Seq<char> {
    "{\"endpoint\":"@ + enc_string(b.endpoint) + ",\"try_file\":"@ + enc_opt_string(b.try_file)
        + ",\"base_route_id\":"@ + enc_string(b.base_route_id) + "}"@
}

/// One upstream target read from the head of `s`.
#[verifier::opaque]
pub open spec fn dec_base_route(s: Seq<char>) -> Option<(BaseRouteView, int)> {
    match eat(s, "{\"endpoint\":"@) {
        None => None,
        Some(k1) => match dec_string(s.skip(k1)) {
            None => None,
            Some(t1) => match eat(s.skip(k1 + t1.1), ",\"try_file\":"@) {
                None => None,
                Some(k2) => match dec_opt_string(s.skip(k1 + t1.1 + k2)) {
                    None => None,
                    Some(t2) => match eat(s.skip(k1 + t1.1 + k2 + t2.1), ",\"base_route_id\":"@) {
                        None => None,
                        Some(k3) => match dec_string(s.skip(k1 + t1.1 + k2 + t2.1 + k3)) {
                            None => None,
                            Some(t3) => match eat(
                                s.skip(k1 + t1.1 + k2 + t2.1 + k3 + t3.1),
                                "}"@,
                            ) {
                                None => None,
                                Some(k4) => Some(
                                    (
                                        BaseRouteView {
                                            endpoint: t1.0,
                                            try_file: t2.0,
                                            base_route_id: t3.0,
                                        },
                                        k1 + t1.1 + k2 + t2.1 + k3 + t3.1 + k4,
                                    ),
                                ),
                            },
                        },
                    },
                },
            },
        },
    }
}

/// Reading a target from its spelling gives it back.
#[verifier::rlimit(50)]
pub proof fn lemma_dec_base_route_of_enc(b: BaseRouteView, rest: Seq<char>)
    ensures
        dec_base_route(enc_base_route(b) + rest) == Some::<(BaseRouteView, int)>(
            (b, enc_base_route(b).len() as int),
        ),
{
    reveal(enc_base_route);
    reveal(dec_base_route);
    let t1 = "{\"endpoint\":"@;
    let t2 = ",\"try_file\":"@;
    let t3 = ",\"base_route_id\":"@;
    let t4 = "}"@;
    let e1 = enc_string(b.endpoint);
    let e2 = enc_opt_string(b.try_file);
    let e3 = enc_string(b.base_route_id);
    let s = enc_base_route(b) + rest;
    let r1 = e1 + (t2 + (e2 + (t3 + (e3 + (t4 + rest)))));
    assert(s =~= t1 + r1);
    lemma_eat_exact(t1, r1);
    let r2 = t2 + (e2 + (t3 + (e3 + (t4 + rest))));
    lemma_dec_string_of_enc(b.endpoint, r2);
    assert(s.skip(t1.len() as int) == r1);
    assert(r1.skip(e1.len() as int) =~= r2);
    assert(s.skip((t1.len() + e1.len()) as int) =~= r2);
    let r3 = e2 + (t3 + (e3 + (t4 + rest)));
    lemma_eat_exact(t2, r3);
    assert(s.skip((t1.len() + e1.len() + t2.len()) as int) =~= r3);
    let r4 = t3 + (e3 + (t4 + rest));
    lemma_dec_opt_string_of_enc(b.try_file, r4);
    assert(r3.skip(e2.len() as int) =~= r4);
    assert(s.skip((t1.len() + e1.len() + t2.len() + e2.len()) as int) =~= r4);
    let r5 = e3 + (t4 + rest);
    lemma_eat_exact(t3, r5);
    assert(s.skip((t1.len() + e1.len() + t2.len() + e2.len() + t3.len()) as int) =~= r5);
    let r6 = t4 + rest;
    lemma_dec_string_of_enc(b.base_route_id, r6);
    assert(r5.skip(e3.len() as int) =~= r6);
    assert(s.skip((t1.len() + e1.len() + t2.len() + e2.len() + t3.len() + e3.len()) as int) =~= r6);
    lemma_eat_exact(t4, rest);
}

/// A token differing from `s` at one position is no prefix of `s`.
pub proof fn lemma_not_prefix_at(tok: Seq<char>, s: Seq<char>, i: int)
    requires
        0 <= i < tok.len(),
        i < s.len(),
        tok[i] != s[i],
    ensures
        !tok.is_prefix_of(s),
{
    if tok.is_prefix_of(s) {
        assert(s.subrange(0, tok.len() as int)[i] == s[i]);
    }
}

/// The target codec is exact.
pub proof fn lemma_base_route_codec_exact()
    ensures
        exact_codec(|v: BaseRouteView| enc_base_route(v), |s2: Seq<char>| dec_base_route(s2)),
{
    reveal(enc_base_route);
    let fe = |v: BaseRouteView| enc_base_route(v);
    let fd = |s2: Seq<char>| dec_base_route(s2);
    assert forall|v: BaseRouteView, r: Seq<char>| #[trigger] fd(fe(v) + r) == Some::<
        (BaseRouteView, int),
    >((v, fe(v).len() as int)) by {
        lemma_dec_base_route_of_enc(v, r);
    }
    assert forall|v: BaseRouteView| (#[trigger] fe(v)).len() >= 1 && fe(v)[0] != 'n' && fe(v)[0]
        != ']' && fe(v)[0] != ',' by {
        reveal_strlit("{\"endpoint\":");
        assert(enc_base_route(v)[0] == '{');
    }
}

/// One weighted target: the target and its weight.
#[verifier::opaque]
pub open spec fn enc_weight_item(w: WeightItemView) -> Seq<char> {
    "{\"base_route\":"@ + enc_base_route(w.base_route) + ",\"weight\":"@ + enc_u64v(w.weight)
        + "}"@
}

/// One weighted target read from the head of `s`.
#[verifier::opaque]
pub open spec fn dec_weight_item(s: Seq<char>) -> Option<(WeightItemView, int)> {
    match eat(s, "{\"base_route\":"@) {
        None => None,
        Some(k1) => match dec_base_route(s.skip(k1)) {
            None => None,
            Some(t1) => match eat(s.skip(k1 + t1.1), ",\"weight\":"@) {
                None => None,
                Some(k2) => match dec_u64v(s.skip(k1 + t1.1 + k2)) {
                    None => None,
                    Some(t2) => match eat(s.skip(k1 + t1.1 + k2 + t2.1), "}"@) {
                        None => None,
                        Some(k3) => if 0 <= t2.0 <= u64::MAX {
                            Some(
                                (
                                    WeightItemView {
                                        base_route: t1.0,
                                        weight: t2.0 as u64,
                                    },
                                    k1 + t1.1 + k2 + t2.1 + k3,
                                ),
                            )
                        } else {
                            None
                        },
                    },
                },
            },
        },
    }
}

/// Reading a weighted target from its spelling gives it back.
#[verifier::rlimit(50)]
pub proof fn lemma_dec_weight_item_of_enc(w: WeightItemView, rest: Seq<char>)
    ensures
        dec_weight_item(enc_weight_item(w) + rest) == Some::<(WeightItemView, int)>(
            (w, enc_weight_item(w).len() as int),
        ),
{
    reveal(enc_weight_item);
    reveal(dec_weight_item);
    let t1 = "{\"base_route\":"@;
    let t2 = ",\"weight\":"@;
    let t3 = "}"@;
    let e1 = enc_base_route(w.base_route);
    let e2 = enc_u64v(w.weight);
    let s = enc_weight_item(w) + rest;
    let r1 = e1 + (t2 + (e2 + (t3 + rest)));
    assert(s =~= t1 + r1);
    lemma_eat_exact(t1, r1);
    let r2 = t2 + (e2 + (t3 + rest));
    lemma_dec_base_route_of_enc(w.base_route, r2);
    assert(r1.skip(e1.len() as int) =~= r2);
    assert(s.skip((t1.len() + e1.len()) as int) =~= r2);
    let r3 = e2 + (t3 + rest);
    lemma_eat_exact(t2, r3);
    assert(s.skip((t1.len() + e1.len() + t2.len()) as int) =~= r3);
    let r4 = t3 + rest;
    assert(r4.len() > 0 && r4[0] == '}') by {
        reveal_strlit("}");
    }
    assert(!is_digit(r4[0])) by {
        reveal_strlit("}");
    }
    lemma_dec_u64_of_enc(w.weight, r4);
    assert(r3.skip(e2.len() as int) =~= r4);
    assert(s.skip((t1.len() + e1.len() + t2.len() + e2.len()) as int) =~= r4);
    lemma_eat_exact(t3, rest);
}

/// The weighted-target codec is exact.
pub proof fn lemma_weight_item_codec_exact()
    ensures
        exact_codec(|v: WeightItemView| enc_weight_item(v), |s2: Seq<char>| dec_weight_item(s2)),
{
    reveal(enc_weight_item);
    let fe = |v: WeightItemView| enc_weight_item(v);
    let fd = |s2: Seq<char>| dec_weight_item(s2);
    assert forall|v: WeightItemView, r: Seq<char>| #[trigger] fd(fe(v) + r) == Some::<
        (WeightItemView, int),
    >((v, fe(v).len() as int)) by {
        lemma_dec_weight_item_of_enc(v, r);
    }
    assert forall|v: WeightItemView| (#[trigger] fe(v)).len() >= 1 && fe(v)[0] != 'n' && fe(v)[0]
        != ']' && fe(v)[0] != ',' by {
        reveal_strlit("{\"base_route\":");
        assert(enc_weight_item(v)[0] == '{');
    }
}

/// A header rule: its kind tag and its pattern, text, or delimiter and
/// token list.
#[verifier::opaque]
pub open spec fn enc_hv(h: HvView) -> Seq<char> {
    match h {
        HvView::Regex(v) => "{\"type\":\"Regex\",\"value\":"@ + enc_string(v) + "}"@,
        HvView::Text(v) => "{\"type\":\"Text\",\"value\":"@ + enc_string(v) + "}"@,
        HvView::Split(by, toks) => "{\"type\":\"Split\",\"split_by\":"@ + enc_string(by)
            + ",\"split_list\":"@ + enc_list(toks, |t: Seq<char>| enc_string(t)) + "}"@,
    }
}

/// A header rule read from the head of `s`.
#[verifier::opaque]
pub open spec fn dec_hv(s: Seq<char>) -> Option<(HvView, int)> {
    match eat(s, "{\"type\":\"Regex\",\"value\":"@) {
        Some(k1) => match dec_string(s.skip(k1)) {
            None => None,
            Some(t1) => match eat(s.skip(k1 + t1.1), "}"@) {
                None => None,
                Some(k2) => Some((HvView::Regex(t1.0), k1 + t1.1 + k2)),
            },
        },
        None => match eat(s, "{\"type\":\"Text\",\"value\":"@) {
            Some(k1) => match dec_string(s.skip(k1)) {
                None => None,
                Some(t1) => match eat(s.skip(k1 + t1.1), "}"@) {
                    None => None,
                    Some(k2) => Some((HvView::Text(t1.0), k1 + t1.1 + k2)),
                },
            },
            None => match eat(s, "{\"type\":\"Split\",\"split_by\":"@) {
                None => None,
                Some(k1) => match dec_string(s.skip(k1)) {
                    None => None,
                    Some(t1) => match eat(s.skip(k1 + t1.1), ",\"split_list\":"@) {
                        None => None,
                        Some(k2) => match dec_list(
                            s.skip(k1 + t1.1 + k2),
                            |s2: Seq<char>| dec_string(s2),
                        ) {
                            None => None,
                            Some(t2) => match eat(s.skip(k1 + t1.1 + k2 + t2.1), "}"@) {
                                None => None,
                                Some(k3) => Some(
                                    (HvView::Split(t1.0, t2.0), k1 + t1.1 + k2 + t2.1 + k3),
                                ),
                            },
                        },
                    },
                },
            },
        },
    }
}

/// Reading a header rule from its spelling gives it back.
#[verifier::rlimit(80)]
pub proof fn lemma_dec_hv_of_enc(h: HvView, rest: Seq<char>)
    ensures
        dec_hv(enc_hv(h) + rest) == Some::<(HvView, int)>((h, enc_hv(h).len() as int)),
{
    reveal(enc_hv);
    reveal(dec_hv);
    reveal_strlit("{\"type\":\"Regex\",\"value\":");
    reveal_strlit("{\"type\":\"Text\",\"value\":");
    reveal_strlit("{\"type\":\"Split\",\"split_by\":");
    let tr = "{\"type\":\"Regex\",\"value\":"@;
    let tt = "{\"type\":\"Text\",\"value\":"@;
    let ts = "{\"type\":\"Split\",\"split_by\":"@;
    let s = enc_hv(h) + rest;
    match h {
        HvView::Regex(v) => {
            let r1 = enc_string(v) + ("}"@ + rest);
            assert(s =~= tr + r1);
            lemma_eat_exact(tr, r1);
            lemma_dec_string_of_enc(v, "}"@ + rest);
            assert(r1.skip(enc_string(v).len() as int) =~= "}"@ + rest);
            assert(s.skip((tr.len() + enc_string(v).len()) as int) =~= "}"@ + rest);
            lemma_eat_exact("}"@, rest);
        },
        HvView::Text(v) => {
            assert(s[9] == tt[9]);
            lemma_not_prefix_at(tr, s, 9);
            let r1 = enc_string(v) + ("}"@ + rest);
            assert(s =~= tt + r1);
            lemma_eat_exact(tt, r1);
            lemma_dec_string_of_enc(v, "}"@ + rest);
            assert(r1.skip(enc_string(v).len() as int) =~= "}"@ + rest);
            assert(s.skip((tt.len() + enc_string(v).len()) as int) =~= "}"@ + rest);
            lemma_eat_exact("}"@, rest);
        },
        HvView::Split(by, toks) => {
            assert(s[9] == ts[9]);
            lemma_not_prefix_at(tr, s, 9);
            lemma_not_prefix_at(tt, s, 9);
            let t2 = ",\"split_list\":"@;
            let e1 = enc_string(by);
            let e2 = enc_list(toks, |t: Seq<char>| enc_string(t));
            let r1 = e1 + (t2 + (e2 + ("}"@ + rest)));
            assert(s =~= ts + r1);
            lemma_eat_exact(ts, r1);
            let r2 = t2 + (e2 + ("}"@ + rest));
            lemma_dec_string_of_enc(by, r2);
            assert(r1.skip(e1.len() as int) =~= r2);
            assert(s.skip((ts.len() + e1.len()) as int) =~= r2);
            let r3 = e2 + ("}"@ + rest);
            lemma_eat_exact(t2, r3);
            assert(s.skip((ts.len() + e1.len() + t2.len()) as int) =~= r3);
            lemma_string_codec_exact();
            lemma_dec_list_of_enc(
                toks,
                |t: Seq<char>| enc_string(t),
                |s2: Seq<char>| dec_string(s2),
                "}"@ + rest,
            );
            assert(r3.skip(e2.len() as int) =~= "}"@ + rest);
            assert(s.skip((ts.len() + e1.len() + t2.len() + e2.len()) as int) =~= "}"@ + rest);
            lemma_eat_exact("}"@, rest);
        },
    }
}

/// One header-routed target: its target, the header it reads, and its rule.
#[verifier::opaque]
pub open spec fn enc_header_item(h: HeaderItemView) -> Seq<char> {
    "{\"base_route\":"@ + enc_base_route(h.base_route) + ",\"header_key\":"@ + enc_string(
        h.header_key,
    ) + ",\"header_value_mapping_type\":"@ + enc_hv(h.rule) + "}"@
}

/// One header-routed target read from the head of `s`.
#[verifier::opaque]
pub open spec fn dec_header_item(s: Seq<char>) -> Option<(HeaderItemView, int)> {
    match eat(s, "{\"base_route\":"@) {
        None => None,
        Some(k1) => match dec_base_route(s.skip(k1)) {
            None => None,
            Some(t1) => match eat(s.skip(k1 + t1.1), ",\"header_key\":"@) {
                None => None,
                Some(k2) => match dec_string(s.skip(k1 + t1.1 + k2)) {
                    None => None,
                    Some(t2) => match eat(
                        s.skip(k1 + t1.1 + k2 + t2.1),
                        ",\"header_value_mapping_type\":"@,
                    ) {
                        None => None,
                        Some(k3) => match dec_hv(s.skip(k1 + t1.1 + k2 + t2.1 + k3)) {
                            None => None,
                            Some(t3) => match eat(
                                s.skip(k1 + t1.1 + k2 + t2.1 + k3 + t3.1),
                                "}"@,
                            ) {
                                None => None,
                                Some(k4) => Some(
                                    (
                                        HeaderItemView {
                                            base_route: t1.0,
                                            header_key: t2.0,
                                            rule: t3.0,
                                        },
                                        k1 + t1.1 + k2 + t2.1 + k3 + t3.1 + k4,
                                    ),
                                ),
                            },
                        },
                    },
                },
            },
        },
    }
}

/// Reading a header-routed target from its spelling gives it back.
#[verifier::rlimit(80)]
pub proof fn lemma_dec_header_item_of_enc(h: HeaderItemView, rest: Seq<char>)
    ensures
        dec_header_item(enc_header_item(h) + rest) == Some::<(HeaderItemView, int)>(
            (h, enc_header_item(h).len() as int),
        ),
{
    reveal(enc_header_item);
    reveal(dec_header_item);
    let t1 = "{\"base_route\":"@;
    let t2 = ",\"header_key\":"@;
    let t3 = ",\"header_value_mapping_type\":"@;
    let t4 = "}"@;
    let e1 = enc_base_route(h.base_route);
    let e2 = enc_string(h.header_key);
    let e3 = enc_hv(h.rule);
    let s = enc_header_item(h) + rest;
    let r1 = e1 + (t2 + (e2 + (t3 + (e3 + (t4 + rest)))));
    assert(s =~= t1 + r1);
    lemma_eat_exact(t1, r1);
    let r2 = t2 + (e2 + (t3 + (e3 + (t4 + rest))));
    lemma_dec_base_route_of_enc(h.base_route, r2);
    assert(r1.skip(e1.len() as int) =~= r2);
    assert(s.skip((t1.len() + e1.len()) as int) =~= r2);
    let r3 = e2 + (t3 + (e3 + (t4 + rest)));
    lemma_eat_exact(t2, r3);
    assert(s.skip((t1.len() + e1.len() + t2.len()) as int) =~= r3);
    let r4 = t3 + (e3 + (t4 + rest));
    lemma_dec_string_of_enc(h.header_key, r4);
    assert(r3.skip(e2.len() as int) =~= r4);
    assert(s.skip((t1.len() + e1.len() + t2.len() + e2.len()) as int) =~= r4);
    let r5 = e3 + (t4 + rest);
    lemma_eat_exact(t3, r5);
    assert(s.skip((t1.len() + e1.len() + t2.len() + e2.len() + t3.len()) as int) =~= r5);
    let r6 = t4 + rest;
    lemma_dec_hv_of_enc(h.rule, r6);
    assert(r5.skip(e3.len() as int) =~= r6);
    assert(s.skip((t1.len() + e1.len() + t2.len() + e2.len() + t3.len() + e3.len()) as int)
        =~= r6);
    lemma_eat_exact(t4, rest);
}

/// The header-routed-target codec is exact.
pub proof fn lemma_header_item_codec_exact()
    ensures
        exact_codec(|v: HeaderItemView| enc_header_item(v), |s2: Seq<char>| dec_header_item(s2)),
{
    reveal(enc_header_item);
    let fe = |v: HeaderItemView| enc_header_item(v);
    let fd = |s2: Seq<char>| dec_header_item(s2);
    assert forall|v: HeaderItemView, r: Seq<char>| #[trigger] fd(fe(v) + r) == Some::<
        (HeaderItemView, int),
    >((v, fe(v).len() as int)) by {
        lemma_dec_header_item_of_enc(v, r);
    }
    assert forall|v: HeaderItemView| (#[trigger] fe(v)).len() >= 1 && fe(v)[0] != 'n' && fe(v)[0]
        != ']' && fe(v)[0] != ',' by {
        reveal_strlit("{\"base_route\":");
        assert(enc_header_item(v)[0] == '{');
    }
}

/// A service type's tag.
#[verifier::opaque]
pub open spec fn enc_service_type(t: ServiceType) -> Seq<char> {
    match t {
        ServiceType::Http => "\"Http\""@,
        ServiceType::Https => "\"Https\""@,
        ServiceType::Tcp => "\"Tcp\""@,
        ServiceType::Http2 => "\"Http2\""@,
        ServiceType::Http2Tls => "\"Http2Tls\""@,
    }
}

/// A service type read from the head of `s`.
#[verifier::opaque]
pub open spec fn dec_service_type(s: Seq<char>) -> Option<(ServiceType, int)> {
    match eat(s, "\"Http\""@) {
        Some(k) => Some((ServiceType::Http, k)),
        None => match eat(s, "\"Https\""@) {
            Some(k) => Some((ServiceType::Https, k)),
            None => match eat(s, "\"Tcp\""@) {
                Some(k) => Some((ServiceType::Tcp, k)),
                None => match eat(s, "\"Http2\""@) {
                    Some(k) => Some((ServiceType::Http2, k)),
                    None => match eat(s, "\"Http2Tls\""@) {
                        Some(k) => Some((ServiceType::Http2Tls, k)),
                        None => None,
                    },
                },
            },
        },
    }
}

/// Reading a service type from its tag gives it back.
pub proof fn lemma_dec_service_type_of_enc(t: ServiceType, rest: Seq<char>)
    ensures
        dec_service_type(enc_service_type(t) + rest) == Some::<(ServiceType, int)>(
            (t, enc_service_type(t).len() as int),
        ),
{
    reveal(enc_service_type);
    reveal(dec_service_type);
    reveal_strlit("\"Http\"");
    reveal_strlit("\"Https\"");
    reveal_strlit("\"Tcp\"");
    reveal_strlit("\"Http2\"");
    reveal_strlit("\"Http2Tls\"");
    let s = enc_service_type(t) + rest;
    lemma_eat_exact(enc_service_type(t), rest);
    match t {
        ServiceType::Http => {},
        ServiceType::Https => {
            assert(s[5] == 's');
            lemma_not_prefix_at("\"Http\""@, s, 5);
        },
        ServiceType::Tcp => {
            assert(s[1] == 'T');
            lemma_not_prefix_at("\"Http\""@, s, 1);
            lemma_not_prefix_at("\"Https\""@, s, 1);
        },
        ServiceType::Http2 => {
            assert(s[5] == '2');
            lemma_not_prefix_at("\"Http\""@, s, 5);
            lemma_not_prefix_at("\"Https\""@, s, 5);
            assert(s[1] == 'H');
            lemma_not_prefix_at("\"Tcp\""@, s, 1);
        },
        ServiceType::Http2Tls => {
            assert(s[5] == '2');
            lemma_not_prefix_at("\"Http\""@, s, 5);
            lemma_not_prefix_at("\"Https\""@, s, 5);
            assert(s[1] == 'H');
            lemma_not_prefix_at("\"Tcp\""@, s, 1);
            assert(s[6] == 'T');
            lemma_not_prefix_at("\"Http2\""@, s, 6);
        },
    }
}

/// An allow/deny rule kind's tag.
#[verifier::opaque]
pub open spec fn enc_allow_type(t: AllowType) -> Seq<char> {
    match t {
        AllowType::AllowAll => "\"AllowAll\""@,
        AllowType::DenyAll => "\"DenyAll\""@,
        AllowType::Allow => "\"Allow\""@,
        AllowType::Deny => "\"Deny\""@,
    }
}

/// An allow/deny rule kind read from the head of `s`.
#[verifier::opaque]
pub open spec fn dec_allow_type(s: Seq<char>) -> Option<(AllowType, int)> {
    match eat(s, "\"AllowAll\""@) {
        Some(k) => Some((AllowType::AllowAll, k)),
        None => match eat(s, "\"DenyAll\""@) {
            Some(k) => Some((AllowType::DenyAll, k)),
            None => match eat(s, "\"Allow\""@) {
                Some(k) => Some((AllowType::Allow, k)),
                None => match eat(s, "\"Deny\""@) {
                    Some(k) => Some((AllowType::Deny, k)),
                    None => None,
                },
            },
        },
    }
}

/// Reading a rule kind from its tag gives it back.
pub proof fn lemma_dec_allow_type_of_enc(t: AllowType, rest: Seq<char>)
    ensures
        dec_allow_type(enc_allow_type(t) + rest) == Some::<(AllowType, int)>(
            (t, enc_allow_type(t).len() as int),
        ),
{
    reveal(enc_allow_type);
    reveal(dec_allow_type);
    reveal_strlit("\"AllowAll\"");
    reveal_strlit("\"DenyAll\"");
    reveal_strlit("\"Allow\"");
    reveal_strlit("\"Deny\"");
    let s = enc_allow_type(t) + rest;
    lemma_eat_exact(enc_allow_type(t), rest);
    match t {
        AllowType::AllowAll => {},
        AllowType::DenyAll => {
            assert(s[1] == 'D');
            lemma_not_prefix_at("\"AllowAll\""@, s, 1);
        },
        AllowType::Allow => {
            assert(s[6] == '"');
            lemma_not_prefix_at("\"AllowAll\""@, s, 6);
            assert(s[1] == 'A');
            lemma_not_prefix_at("\"DenyAll\""@, s, 1);
        },
        AllowType::Deny => {
            assert(s[1] == 'D');
            lemma_not_prefix_at("\"AllowAll\""@, s, 1);
            assert(s[5] == '"');
            lemma_not_prefix_at("\"DenyAll\""@, s, 5);
            lemma_not_prefix_at("\"Allow\""@, s, 1);
        },
    }
}

/// A matcher: its prefix and prefix rewrite.
#[verifier::opaque]
pub open spec fn enc_matcher(m: MatcherView) -> Seq<char> {
    "{\"prefix\":"@ + enc_string(m.prefix) + ",\"prefix_rewrite\":"@ + enc_string(m.prefix_rewrite)
        + "}"@
}

/// A matcher read from the head of `s`.
#[verifier::opaque]
pub open spec fn dec_matcher(s: Seq<char>) -> Option<(MatcherView, int)> {
    match eat(s, "{\"prefix\":"@) {
        None => None,
        Some(k1) => match dec_string(s.skip(k1)) {
            None => None,
            Some(t1) => match eat(s.skip(k1 + t1.1), ",\"prefix_rewrite\":"@) {
                None => None,
                Some(k2) => match dec_string(s.skip(k1 + t1.1 + k2)) {
                    None => None,
                    Some(t2) => match eat(s.skip(k1 + t1.1 + k2 + t2.1), "}"@) {
                        None => None,
                        Some(k3) => Some(
                            (
                                MatcherView { prefix: t1.0, prefix_rewrite: t2.0 },
                                k1 + t1.1 + k2 + t2.1 + k3,
                            ),
                        ),
                    },
                },
            },
        },
    }
}

/// Reading a matcher from its spelling gives it back.
#[verifier::rlimit(50)]
pub proof fn lemma_dec_matcher_of_enc(m: MatcherView, rest: Seq<char>)
    ensures
        dec_matcher(enc_matcher(m) + rest) == Some::<(MatcherView, int)>(
            (m, enc_matcher(m).len() as int),
        ),
{
    reveal(enc_matcher);
    reveal(dec_matcher);
    let t1 = "{\"prefix\":"@;
    let t2 = ",\"prefix_rewrite\":"@;
    let t3 = "}"@;
    let e1 = enc_string(m.prefix);
    let e2 = enc_string(m.prefix_rewrite);
    let s = enc_matcher(m) + rest;
    let r1 = e1 + (t2 + (e2 + (t3 + rest)));
    assert(s =~= t1 + r1);
    lemma_eat_exact(t1, r1);
    let r2 = t2 + (e2 + (t3 + rest));
    lemma_dec_string_of_enc(m.prefix, r2);
    assert(r1.skip(e1.len() as int) =~= r2);
    assert(s.skip((t1.len() + e1.len()) as int) =~= r2);
    let r3 = e2 + (t3 + rest);
    lemma_eat_exact(t2, r3);
    assert(s.skip((t1.len() + e1.len() + t2.len()) as int) =~= r3);
    let r4 = t3 + rest;
    lemma_dec_string_of_enc(m.prefix_rewrite, r4);
    assert(r3.skip(e2.len() as int) =~= r4);
    assert(s.skip((t1.len() + e1.len() + t2.len() + e2.len()) as int) =~= r4);
    lemma_eat_exact(t3, rest);
}

/// The matcher codec is exact.
pub proof fn lemma_matcher_codec_exact()
    ensures
        exact_codec(|v: MatcherView| enc_matcher(v), |s2: Seq<char>| dec_matcher(s2)),
{
    reveal(enc_matcher);
    let fe = |v: MatcherView| enc_matcher(v);
    let fd = |s2: Seq<char>| dec_matcher(s2);
    assert forall|v: MatcherView, r: Seq<char>| #[trigger] fd(fe(v) + r) == Some::<
        (MatcherView, int),
    >((v, fe(v).len() as int)) by {
        lemma_dec_matcher_of_enc(v, r);
    }
    assert forall|v: MatcherView| (#[trigger] fe(v)).len() >= 1 && fe(v)[0] != 'n' && fe(v)[0]
        != ']' && fe(v)[0] != ',' by {
        reveal_strlit("{\"prefix\":");
        assert(enc_matcher(v)[0] == '{');
    }
}

/// A liveness requirement: its minimum alive count.
#[verifier::opaque]
pub open spec fn enc_liveness_config(n: i32) -> Seq<char> {
    "{\"min_liveness_count\":"@ + enc_i32v(n as int) + "}"@
}

/// A liveness requirement read from the head of `s`.
#[verifier::opaque]
pub open spec fn dec_liveness_config(s: Seq<char>) -> Option<(i32, int)> {
    match eat(s, "{\"min_liveness_count\":"@) {
        None => None,
        Some(k1) => match dec_i32v(s.skip(k1)) {
            None => None,
            Some(t1) => match eat(s.skip(k1 + t1.1), "}"@) {
                None => None,
                Some(k2) => Some((t1.0 as i32, k1 + t1.1 + k2)),
            },
        },
    }
}

/// Reading a liveness requirement from its spelling gives it back.
pub proof fn lemma_dec_liveness_config_of_enc(n: i32, rest: Seq<char>)
    ensures
        dec_liveness_config(enc_liveness_config(n) + rest) == Some::<(i32, int)>(
            (n, enc_liveness_config(n).len() as int),
        ),
{
    reveal(enc_liveness_config);
    reveal(dec_liveness_config);
    let t1 = "{\"min_liveness_count\":"@;
    let t2 = "}"@;
    let e1 = enc_i32v(n as int);
    let s = enc_liveness_config(n) + rest;
    let r1 = e1 + (t2 + rest);
    assert(s =~= t1 + r1);
    lemma_eat_exact(t1, r1);
    let r2 = t2 + rest;
    assert(r2.len() > 0 && r2[0] == '}' && !is_digit(r2[0])) by {
        reveal_strlit("}");
    }
    lemma_dec_i32_of_enc(n as int, r2);
    assert(r1.skip(e1.len() as int) =~= r2);
    assert(s.skip((t1.len() + e1.len()) as int) =~= r2);
    lemma_eat_exact(t2, rest);
}

/// The liveness-requirement codec is exact.
pub proof fn lemma_liveness_config_codec_exact()
    ensures
        exact_codec(|v: i32| enc_liveness_config(v), |s2: Seq<char>| dec_liveness_config(s2)),
{
    reveal(enc_liveness_config);
    let fe = |v: i32| enc_liveness_config(v);
    let fd = |s2: Seq<char>| dec_liveness_config(s2);
    assert forall|v: i32, r: Seq<char>| #[trigger] fd(fe(v) + r) == Some::<(i32, int)>(
        (v, fe(v).len() as int),
    ) by {
        lemma_dec_liveness_config_of_enc(v, r);
    }
    assert forall|v: i32| (#[trigger] fe(v)).len() >= 1 && fe(v)[0] != 'n' && fe(v)[0] != ']'
        && fe(v)[0] != ',' by {
        reveal_strlit("{\"min_liveness_count\":");
        assert(enc_liveness_config(v)[0] == '{');
    }
}

/// One allow/deny rule: its kind and its optional value.
#[verifier::opaque]
pub open spec fn enc_allow_deny(a: AllowDenyView) -> Seq<char> {
    "{\"limit_type\":"@ + enc_allow_type(a.limit_type) + ",\"value\":"@ + enc_opt_string(a.value)
        + "}"@
}

/// One allow/deny rule read from the head of `s`.
#[verifier::opaque]
pub open spec fn dec_allow_deny(s: Seq<char>) -> Option<(AllowDenyView, int)> {
    match eat(s, "{\"limit_type\":"@) {
        None => None,
        Some(k1) => match dec_allow_type(s.skip(k1)) {
            None => None,
            Some(t1) => match eat(s.skip(k1 + t1.1), ",\"value\":"@) {
                None => None,
                Some(k2) => match dec_opt_string(s.skip(k1 + t1.1 + k2)) {
                    None => None,
                    Some(t2) => match eat(s.skip(k1 + t1.1 + k2 + t2.1), "}"@) {
                        None => None,
                        Some(k3) => Some(
                            (
                                AllowDenyView { limit_type: t1.0, value: t2.0 },
                                k1 + t1.1 + k2 + t2.1 + k3,
                            ),
                        ),
                    },
                },
            },
        },
    }
}

/// Reading an allow/deny rule from its spelling gives it back.
#[verifier::rlimit(100)]
pub proof fn lemma_dec_allow_deny_of_enc(a: AllowDenyView, rest: Seq<char>)
    ensures
        dec_allow_deny(enc_allow_deny(a) + rest) == Some::<(AllowDenyView, int)>(
            (a, enc_allow_deny(a).len() as int),
        ),
{
    reveal(enc_allow_deny);
    reveal(dec_allow_deny);
    let t1 = "{\"limit_type\":"@;
    let t2 = ",\"value\":"@;
    let t3 = "}"@;
    let e1 = enc_allow_type(a.limit_type);
    let e2 = enc_opt_string(a.value);
    let s = enc_allow_deny(a) + rest;
    let r1 = e1 + (t2 + (e2 + (t3 + rest)));
    assert(s =~= t1 + r1);
    lemma_eat_exact(t1, r1);
    let r2 = t2 + (e2 + (t3 + rest));
    lemma_dec_allow_type_of_enc(a.limit_type, r2);
    assert(r1.skip(e1.len() as int) =~= r2);
    assert(s.skip((t1.len() + e1.len()) as int) =~= r2);
    let r3 = e2 + (t3 + rest);
    lemma_eat_exact(t2, r3);
    assert(s.skip((t1.len() + e1.len() + t2.len()) as int) =~= r3);
    let r4 = t3 + rest;
    lemma_dec_opt_string_of_enc(a.value, r4);
    assert(r3.skip(e2.len() as int) =~= r4);
    assert(s.skip((t1.len() + e1.len() + t2.len() + e2.len()) as int) =~= r4);
    lemma_eat_exact(t3, rest);
}

/// The allow/deny-rule codec is exact.
pub proof fn lemma_allow_deny_codec_exact()
    ensures
        exact_codec(|v: AllowDenyView| enc_allow_deny(v), |s2: Seq<char>| dec_allow_deny(s2)),
{
    reveal(enc_allow_deny);
    let fe = |v: AllowDenyView| enc_allow_deny(v);
    let fd = |s2: Seq<char>| dec_allow_deny(s2);
    assert forall|v: AllowDenyView, r: Seq<char>| #[trigger] fd(fe(v) + r) == Some::<
        (AllowDenyView, int),
    >((v, fe(v).len() as int)) by {
        lemma_dec_allow_deny_of_enc(v, r);
    }
    assert forall|v: AllowDenyView| (#[trigger] fe(v)).len() >= 1 && fe(v)[0] != 'n' && fe(v)[0]
        != ']' && fe(v)[0] != ',' by {
        reveal_strlit("{\"limit_type\":");
        assert(enc_allow_deny(v)[0] == '{');
    }
}


/// An optional matcher.
pub open spec fn enc_opt_matcher(o: Option<MatcherView>) -> Seq<char> {
    enc_opt(o, |v: MatcherView| enc_matcher(v))
}

/// An optional matcher read from the head of `s`.
pub open spec fn dec_opt_matcher(s: Seq<char>) -> Option<(Option<MatcherView>, int)> {
    dec_opt(s, |s2: Seq<char>| dec_matcher(s2))
}

/// Reading an optional matcher from its spelling gives it back.
pub proof fn lemma_dec_opt_matcher_of_enc(o: Option<MatcherView>, rest: Seq<char>)
    ensures
        dec_opt_matcher(enc_opt_matcher(o) + rest) == Some::<(Option<MatcherView>, int)>(
            (o, enc_opt_matcher(o).len() as int),
        ),
{
    lemma_matcher_codec_exact();
    lemma_dec_opt_of_enc(o, |v: MatcherView| enc_matcher(v), |s2: Seq<char>| dec_matcher(s2), rest);
}

/// An allow/deny rule list.
pub open spec fn enc_adl(l: Seq<AllowDenyView>) -> Seq<char> {
    enc_list(l, |v: AllowDenyView| enc_allow_deny(v))
}

/// An allow/deny rule list read from the head of `s`.
pub open spec fn dec_adl(s: Seq<char>) -> Option<(Seq<AllowDenyView>, int)> {
    dec_list(s, |s2: Seq<char>| dec_allow_deny(s2))
}

/// The allow/deny-list codec is exact.
pub proof fn lemma_adl_codec_exact()
    ensures
        exact_codec(|l: Seq<AllowDenyView>| enc_adl(l), |s2: Seq<char>| dec_adl(s2)),
{
    let fe = |l: Seq<AllowDenyView>| enc_adl(l);
    let fd = |s2: Seq<char>| dec_adl(s2);
    assert forall|v: Seq<AllowDenyView>, r: Seq<char>| #[trigger] fd(fe(v) + r) == Some::<
        (Seq<AllowDenyView>, int),
    >((v, fe(v).len() as int)) by {
        lemma_allow_deny_codec_exact();
        lemma_dec_list_of_enc(v, |v2: AllowDenyView| enc_allow_deny(v2), |s3: Seq<char>| dec_allow_deny(s3), r);
    }
    assert forall|v: Seq<AllowDenyView>| (#[trigger] fe(v)).len() >= 1 && fe(v)[0] != 'n'
        && fe(v)[0] != ']' && fe(v)[0] != ',' by {
        assert(enc_adl(v)[0] == '[');
    }
}

/// An optional allow/deny rule list.
pub open spec fn enc_opt_adl(o: Option<Seq<AllowDenyView>>) -> Seq<char> {
    enc_opt(o, |l: Seq<AllowDenyView>| enc_adl(l))
}

/// An optional allow/deny rule list read from the head of `s`.
pub open spec fn dec_opt_adl(s: Seq<char>) -> Option<(Option<Seq<AllowDenyView>>, int)> {
    dec_opt(s, |s2: Seq<char>| dec_adl(s2))
}

/// Reading an optional rule list from its spelling gives it back.
pub proof fn lemma_dec_opt_adl_of_enc(o: Option<Seq<AllowDenyView>>, rest: Seq<char>)
    ensures
        dec_opt_adl(enc_opt_adl(o) + rest) == Some::<(Option<Seq<AllowDenyView>>, int)>(
            (o, enc_opt_adl(o).len() as int),
        ),
{
    lemma_adl_codec_exact();
    lemma_dec_opt_of_enc(o, |l: Seq<AllowDenyView>| enc_adl(l), |s2: Seq<char>| dec_adl(s2), rest);
}

/// An optional liveness requirement.
pub open spec fn enc_opt_lc(o: Option<i32>) -> Seq<char> {
    enc_opt(o, |v: i32| enc_liveness_config(v))
}

/// An optional liveness requirement read from the head of `s`.
pub open spec fn dec_opt_lc(s: Seq<char>) -> Option<(Option<i32>, int)> {
    dec_opt(s, |s2: Seq<char>| dec_liveness_config(s2))
}

/// Reading an optional liveness requirement from its spelling gives it
/// back.
pub proof fn lemma_dec_opt_lc_of_enc(o: Option<i32>, rest: Seq<char>)
    ensures
        dec_opt_lc(enc_opt_lc(o) + rest) == Some::<(Option<i32>, int)>(
            (o, enc_opt_lc(o).len() as int),
        ),
{
    lemma_liveness_config_codec_exact();
    lemma_dec_opt_of_enc(o, |v: i32| enc_liveness_config(v), |s2: Seq<char>| dec_liveness_config(s2), rest);
}

/// A strategy: its kind tag, its cursors where they are part of the
/// configured schedule, and its targets.
#[verifier::opaque]
pub open spec fn enc_strategy(v: StrategyView) -> Seq<char> {
    match v {
        StrategyView::Poll(ts) => "{\"type\":\"PollRoute\",\"routes\":"@ + enc_list(
            ts,
            |b: BaseRouteView| enc_base_route(b),
        ) + "}"@,
        StrategyView::Header(items) => "{\"type\":\"HeaderRoute\",\"routes\":"@ + enc_list(
            items,
            |h: HeaderItemView| enc_header_item(h),
        ) + "}"@,
        StrategyView::Random(ts) => "{\"type\":\"RandomRoute\",\"routes\":"@ + enc_list(
            ts,
            |b: BaseRouteView| enc_base_route(b),
        ) + "}"@,
        StrategyView::Weight(i, o, items) => "{\"type\":\"WeightRoute\",\"index\":"@ + enc_u64v(i)
            + ",\"offset\":"@ + enc_u64v(o) + ",\"routes\":"@ + enc_list(
            items,
            |w: WeightItemView| enc_weight_item(w),
        ) + "}"@,
    }
}

/// A strategy read from the head of `s`.
#[verifier::opaque]
pub open spec fn dec_strategy(s: Seq<char>) -> Option<(StrategyView, int)> {
    match eat(s, "{\"type\":\"PollRoute\",\"routes\":"@) {
        Some(k1) => match dec_list(s.skip(k1), |s2: Seq<char>| dec_base_route(s2)) {
            None => None,
            Some(t1) => match eat(s.skip(k1 + t1.1), "}"@) {
                None => None,
                Some(k2) => Some((StrategyView::Poll(t1.0), k1 + t1.1 + k2)),
            },
        },
        None => match eat(s, "{\"type\":\"HeaderRoute\",\"routes\":"@) {
            Some(k1) => match dec_list(s.skip(k1), |s2: Seq<char>| dec_header_item(s2)) {
                None => None,
                Some(t1) => match eat(s.skip(k1 + t1.1), "}"@) {
                    None => None,
                    Some(k2) => Some((StrategyView::Header(t1.0), k1 + t1.1 + k2)),
                },
            },
            None => match eat(s, "{\"type\":\"RandomRoute\",\"routes\":"@) {
                Some(k1) => match dec_list(s.skip(k1), |s2: Seq<char>| dec_base_route(s2)) {
                    None => None,
                    Some(t1) => match eat(s.skip(k1 + t1.1), "}"@) {
                        None => None,
                        Some(k2) => Some((StrategyView::Random(t1.0), k1 + t1.1 + k2)),
                    },
                },
                None => match eat(s, "{\"type\":\"WeightRoute\",\"index\":"@) {
                    None => None,
                    Some(k1) => match dec_u64v(s.skip(k1)) {
                        None => None,
                        Some(t1) => match eat(s.skip(k1 + t1.1), ",\"offset\":"@) {
                            None => None,
                            Some(k2) => match dec_u64v(s.skip(k1 + t1.1 + k2)) {
                                None => None,
                                Some(t2) => match eat(s.skip(k1 + t1.1 + k2 + t2.1), ",\"routes\":"@) {
                                    None => None,
                                    Some(k3) => match dec_list(
                                        s.skip(k1 + t1.1 + k2 + t2.1 + k3),
                                        |s2: Seq<char>| dec_weight_item(s2),
                                    ) {
                                        None => None,
                                        Some(t3) => match eat(
                                            s.skip(k1 + t1.1 + k2 + t2.1 + k3 + t3.1),
                                            "}"@,
                                        ) {
                                            None => None,
                                            Some(k4) => Some(
                                                (
                                                    StrategyView::Weight(
                                                        t1.0 as u64,
                                                        t2.0 as u64,
                                                        t3.0,
                                                    ),
                                                    k1 + t1.1 + k2 + t2.1 + k3 + t3.1 + k4,
                                                ),
                                            ),
                                        },
                                    },
                                },
                            },
                        },
                    },
                },
            },
        },
    }
}

/// Reading a list-kind strategy (round-robin, header or random) from its
/// spelling, once its tag is known: the tag, then the target list, then
/// the closing brace.
#[verifier::rlimit(100)]
#[verifier::spinoff_prover]
proof fn lemma_dec_strategy_list_part<T>(
    tag: Seq<char>,
    items: Seq<T>,
    fe: spec_fn(T) -> Seq<char>,
    fd: spec_fn(Seq<char>) -> Option<(T, int)>,
    rest: Seq<char>,
)
    requires
        exact_codec(fe, fd),
    ensures
        ({
            let s = tag + (enc_list(items, fe) + ("}"@ + rest));
            let e1 = enc_list(items, fe);
            eat(s, tag) == Some(tag.len() as int) && s.skip(tag.len() as int) == e1 + ("}"@
                + rest) && dec_list(s.skip(tag.len() as int), fd) == Some::<(Seq<T>, int)>(
                (items, e1.len() as int),
            ) && eat(s.skip((tag.len() + e1.len()) as int), "}"@) == Some("}"@.len() as int)
        }),
{
    let e1 = enc_list(items, fe);
    let r1 = e1 + ("}"@ + rest);
    let s = tag + r1;
    lemma_eat_exact(tag, r1);
    lemma_dec_list_of_enc(items, fe, fd, "}"@ + rest);
    lemma_skip_add(s, tag.len() as int, e1.len() as int);
    assert(r1.skip(e1.len() as int) =~= "}"@ + rest);
    lemma_eat_exact("}"@, rest);
}

/// Reading a list-kind strategy: glue for one arm.
#[verifier::rlimit(100)]
#[verifier::spinoff_prover]
proof fn lemma_dec_strategy_poll(ts: Seq<BaseRouteView>, rest: Seq<char>)
    ensures
        dec_strategy(enc_strategy(StrategyView::Poll(ts)) + rest) == Some::<(StrategyView, int)>(
            (StrategyView::Poll(ts), enc_strategy(StrategyView::Poll(ts)).len() as int),
        ),
{
    reveal(enc_strategy);
    reveal(dec_strategy);
    reveal_strlit("{\"type\":\"PollRoute\",\"routes\":");
    let tp = "{\"type\":\"PollRoute\",\"routes\":"@;
    let s = enc_strategy(StrategyView::Poll(ts)) + rest;
    lemma_base_route_codec_exact();
    lemma_dec_strategy_list_part(
        tp,
        ts,
        |b: BaseRouteView| enc_base_route(b),
        |s2: Seq<char>| dec_base_route(s2),
        rest,
    );
    assert(s =~= tp + (enc_list(ts, |b: BaseRouteView| enc_base_route(b)) + ("}"@ + rest)));
}

/// Reading a header strategy, once the round-robin tag has been ruled out.
#[verifier::rlimit(100)]
#[verifier::spinoff_prover]
proof fn lemma_dec_strategy_header(items: Seq<HeaderItemView>, rest: Seq<char>)
    requires
        !"{\"type\":\"PollRoute\",\"routes\":"@.is_prefix_of(
            enc_strategy(StrategyView::Header(items)) + rest,
        ),
    ensures
        dec_strategy(enc_strategy(StrategyView::Header(items)) + rest) == Some::<
            (StrategyView, int),
        >(
            (StrategyView::Header(items), enc_strategy(StrategyView::Header(items)).len() as int),
        ),
{
    reveal(enc_strategy);
    reveal(dec_strategy);
    reveal_strlit("{\"type\":\"HeaderRoute\",\"routes\":");
    let th = "{\"type\":\"HeaderRoute\",\"routes\":"@;
    let s = enc_strategy(StrategyView::Header(items)) + rest;
    lemma_header_item_codec_exact();
    lemma_dec_strategy_list_part(
        th,
        items,
        |h: HeaderItemView| enc_header_item(h),
        |s2: Seq<char>| dec_header_item(s2),
        rest,
    );
    assert(s =~= th + (enc_list(items, |h: HeaderItemView| enc_header_item(h)) + ("}"@ + rest)));
}

/// Reading a random strategy, once the earlier tags have been ruled out.
#[verifier::rlimit(100)]
#[verifier::spinoff_prover]
proof fn lemma_dec_strategy_random(ts: Seq<BaseRouteView>, rest: Seq<char>)
    requires
        !"{\"type\":\"PollRoute\",\"routes\":"@.is_prefix_of(
            enc_strategy(StrategyView::Random(ts)) + rest,
        ),
        !"{\"type\":\"HeaderRoute\",\"routes\":"@.is_prefix_of(
            enc_strategy(StrategyView::Random(ts)) + rest,
        ),
    ensures
        dec_strategy(enc_strategy(StrategyView::Random(ts)) + rest) == Some::<(StrategyView, int)>(
            (StrategyView::Random(ts), enc_strategy(StrategyView::Random(ts)).len() as int),
        ),
{
    reveal(enc_strategy);
    reveal(dec_strategy);
    reveal_strlit("{\"type\":\"RandomRoute\",\"routes\":");
    let tr2 = "{\"type\":\"RandomRoute\",\"routes\":"@;
    let s = enc_strategy(StrategyView::Random(ts)) + rest;
    lemma_base_route_codec_exact();
    lemma_dec_strategy_list_part(
        tr2,
        ts,
        |b: BaseRouteView| enc_base_route(b),
        |s2: Seq<char>| dec_base_route(s2),
        rest,
    );
    assert(s =~= tr2 + (enc_list(ts, |b: BaseRouteView| enc_base_route(b)) + ("}"@ + rest)));
}

/// Reading a strategy from its spelling gives it back.
#[verifier::rlimit(100)]
#[verifier::spinoff_prover]
pub proof fn lemma_dec_strategy_of_enc(v: StrategyView, rest: Seq<char>)
    ensures
        dec_strategy(enc_strategy(v) + rest) == Some::<(StrategyView, int)>(
            (v, enc_strategy(v).len() as int),
        ),
{
    reveal(enc_strategy);
    reveal(dec_strategy);
    reveal_strlit("{\"type\":\"PollRoute\",\"routes\":");
    reveal_strlit("{\"type\":\"HeaderRoute\",\"routes\":");
    reveal_strlit("{\"type\":\"RandomRoute\",\"routes\":");
    reveal_strlit("{\"type\":\"WeightRoute\",\"index\":");
    let tp = "{\"type\":\"PollRoute\",\"routes\":"@;
    let th = "{\"type\":\"HeaderRoute\",\"routes\":"@;
    let tr2 = "{\"type\":\"RandomRoute\",\"routes\":"@;
    let tw = "{\"type\":\"WeightRoute\",\"index\":"@;
    let s = enc_strategy(v) + rest;
    match v {
        StrategyView::Poll(ts) => {
            lemma_dec_strategy_poll(ts, rest);
        },
        StrategyView::Header(items) => {
            assert(s[9] == th[9]);
            lemma_not_prefix_at(tp, s, 9);
            lemma_dec_strategy_header(items, rest);
        },
        StrategyView::Random(ts) => {
            assert(s[9] == tr2[9]);
            lemma_not_prefix_at(tp, s, 9);
            lemma_not_prefix_at(th, s, 9);
            lemma_dec_strategy_random(ts, rest);
        },
        StrategyView::Weight(wi, wo, items) => {
            assert(s[9] == tw[9]);
            lemma_not_prefix_at(tp, s, 9);
            lemma_not_prefix_at(th, s, 9);
            lemma_not_prefix_at(tr2, s, 9);
            lemma_dec_strategy_weight(wi, wo, items, rest);
        },
    }
}

/// Reading a weighted strategy from its spelling, once its tag is known.
#[verifier::rlimit(100)]
#[verifier::spinoff_prover]
proof fn lemma_dec_strategy_weight(wi: u64, wo: u64, items: Seq<WeightItemView>, rest: Seq<char>)
    requires
        !"{\"type\":\"PollRoute\",\"routes\":"@.is_prefix_of(
            enc_strategy(StrategyView::Weight(wi, wo, items)) + rest,
        ),
        !"{\"type\":\"HeaderRoute\",\"routes\":"@.is_prefix_of(
            enc_strategy(StrategyView::Weight(wi, wo, items)) + rest,
        ),
        !"{\"type\":\"RandomRoute\",\"routes\":"@.is_prefix_of(
            enc_strategy(StrategyView::Weight(wi, wo, items)) + rest,
        ),
    ensures
        dec_strategy(enc_strategy(StrategyView::Weight(wi, wo, items)) + rest) == Some::<
            (StrategyView, int),
        >(
            (
                StrategyView::Weight(wi, wo, items),
                enc_strategy(StrategyView::Weight(wi, wo, items)).len() as int,
            ),
        ),
{
    reveal(enc_strategy);
    reveal(dec_strategy);
    let v = StrategyView::Weight(wi, wo, items);
    let tw = "{\"type\":\"WeightRoute\",\"index\":"@;
    let t2 = ",\"offset\":"@;
    let t3 = ",\"routes\":"@;
    let e1 = enc_u64v(wi);
    let e2 = enc_u64v(wo);
    let e3 = enc_list(items, |w: WeightItemView| enc_weight_item(w));
    let s = enc_strategy(v) + rest;
    let r4 = "}"@ + rest;
    let r3e = e3 + r4;
    let r3 = t3 + r3e;
    let r2e = e2 + r3;
    let r2 = t2 + r2e;
    let r1e = e1 + r2;
    assert(s =~= tw + r1e);
    lemma_eat_exact(tw, r1e);
    assert(r2.len() > 0 && !is_digit(r2[0])) by {
        reveal_strlit(",\"offset\":");
    }
    lemma_dec_u64_of_enc(wi, r2);
    lemma_skip_add(s, tw.len() as int, e1.len() as int);
    assert(r1e.skip(e1.len() as int) =~= r2);
    lemma_eat_exact(t2, r2e);
    lemma_skip_add(s, (tw.len() + e1.len()) as int, t2.len() as int);
    assert(r3.len() > 0 && !is_digit(r3[0])) by {
        reveal_strlit(",\"routes\":");
    }
    lemma_dec_u64_of_enc(wo, r3);
    lemma_skip_add(s, (tw.len() + e1.len() + t2.len()) as int, e2.len() as int);
    assert(r2e.skip(e2.len() as int) =~= r3);
    lemma_eat_exact(t3, r3e);
    lemma_skip_add(s, (tw.len() + e1.len() + t2.len() + e2.len()) as int, t3.len() as int);
    lemma_weight_item_codec_exact();
    lemma_dec_list_of_enc(
        items,
        |w: WeightItemView| enc_weight_item(w),
        |s2: Seq<char>| dec_weight_item(s2),
        r4,
    );
    lemma_skip_add(
        s,
        (tw.len() + e1.len() + t2.len() + e2.len() + t3.len()) as int,
        e3.len() as int,
    );
    assert(r3e.skip(e3.len() as int) =~= r4);
    lemma_eat_exact("}"@, rest);
}


/// One route: its identifier, host rule, matcher, policy list, liveness
/// numbers and strategy.
#[verifier::opaque]
pub open spec fn enc_route(r: RouteView) -> Seq<char> {
    "{\"route_id\":"@ + enc_string(r.route_id) + ",\"host_name\":"@ + enc_opt_string(r.host_name)
        + ",\"matcher\":"@ + enc_opt_matcher(r.matcher) + ",\"allow_deny_list\":"@ + enc_opt_adl(
        r.allow_deny_list,
    ) + enc_route_back(r)
}

/// The back half of a route, read once the identifier, host, matcher and
/// policy list are known: the liveness numbers and the strategy.
#[verifier::opaque]
pub open spec fn dec_route_back(
    s: Seq<char>,
    rid: Seq<char>,
    host: Option<Seq<char>>,
    m: Option<MatcherView>,
    adl: Option<Seq<AllowDenyView>>,
) -> Option<(RouteView, int)> {
    match eat(s, ",\"liveness_status\":{\"current_liveness_count\":"@) {
        None => None,
        Some(k5) => match dec_i32v(s.skip(k5)) {
            None => None,
            Some(t5) => match eat(s.skip(k5 + t5.1), "},\"liveness_config\":"@) {
                None => None,
                Some(k6) => match dec_opt_lc(s.skip(k5 + t5.1 + k6)) {
                    None => None,
                    Some(t6) => match eat(s.skip(k5 + t5.1 + k6 + t6.1), ",\"route_cluster\":"@) {
                        None => None,
                        Some(k7) => match dec_strategy(s.skip(k5 + t5.1 + k6 + t6.1 + k7)) {
                            None => None,
                            Some(t7) => match eat(
                                s.skip(k5 + t5.1 + k6 + t6.1 + k7 + t7.1),
                                "}"@,
                            ) {
                                None => None,
                                Some(k8) => Some(
                                    (
                                        RouteView {
                                            route_id: rid,
                                            host_name: host,
                                            matcher: m,
                                            allow_deny_list: adl,
                                            liveness_status: (t5.0) as i32,
                                            liveness_config: t6.0,
                                            route_cluster: t7.0,
                                        },
                                        k5 + t5.1 + k6 + t6.1 + k7 + t7.1 + k8,
                                    ),
                                ),
                            },
                        },
                    },
                },
            },
        },
    }
}

/// One route read from the head of `s`.
#[verifier::opaque]
pub open spec fn dec_route(s: Seq<char>) -> Option<(RouteView, int)> {
    match eat(s, "{\"route_id\":"@) {
        None => None,
        Some(k1) => match dec_string(s.skip(k1)) {
            None => None,
            Some(t1) => match eat(s.skip(k1 + t1.1), ",\"host_name\":"@) {
                None => None,
                Some(k2) => match dec_opt_string(s.skip(k1 + t1.1 + k2)) {
                    None => None,
                    Some(t2) => match eat(s.skip(k1 + t1.1 + k2 + t2.1), ",\"matcher\":"@) {
                        None => None,
                        Some(k3) => match dec_opt_matcher(s.skip(k1 + t1.1 + k2 + t2.1 + k3)) {
                            None => None,
                            Some(t3) => match eat(
                                s.skip(k1 + t1.1 + k2 + t2.1 + k3 + t3.1),
                                ",\"allow_deny_list\":"@,
                            ) {
                                None => None,
                                Some(k4) => match dec_opt_adl(
                                    s.skip(k1 + t1.1 + k2 + t2.1 + k3 + t3.1 + k4),
                                ) {
                                    None => None,
                                    Some(t4) => match dec_route_back(
                                        s.skip(k1 + t1.1 + k2 + t2.1 + k3 + t3.1 + k4 + t4.1),
                                        t1.0,
                                        t2.0,
                                        t3.0,
                                        t4.0,
                                    ) {
                                        None => None,
                                        Some(u) => Some(
                                            (
                                                u.0,
                                                k1 + t1.1 + k2 + t2.1 + k3 + t3.1 + k4 + t4.1
                                                    + u.1,
                                            ),
                                        ),
                                    },
                                },
                            },
                        },
                    },
                },
            },
        },
    }
}

/// The back half of a route's spelling.
#[verifier::opaque]
pub open spec fn enc_route_back(r: RouteView) -> Seq<char> {
    ",\"liveness_status\":{\"current_liveness_count\":"@ + enc_i32v(r.liveness_status as int)
        + "},\"liveness_config\":"@ + enc_opt_lc(r.liveness_config) + ",\"route_cluster\":"@
        + enc_strategy(r.route_cluster) + "}"@
}

/// Reading a route's back half from its spelling gives the route back.
#[verifier::rlimit(100)]
#[verifier::spinoff_prover]
proof fn lemma_dec_route_back_of_enc(r: RouteView, rest: Seq<char>)
    ensures
        dec_route_back(
            enc_route_back(r) + rest,
            r.route_id,
            r.host_name,
            r.matcher,
            r.allow_deny_list,
        ) == Some::<(RouteView, int)>((r, enc_route_back(r).len() as int)),
{
    reveal(enc_route_back);
    reveal(dec_route_back);
    reveal(dec_route_back);
    let t5 = ",\"liveness_status\":{\"current_liveness_count\":"@;
    let t6 = "},\"liveness_config\":"@;
    let t7 = ",\"route_cluster\":"@;
    let t8 = "}"@;
    let e5 = enc_i32v(r.liveness_status as int);
    let e6 = enc_opt_lc(r.liveness_config);
    let e7 = enc_strategy(r.route_cluster);
    let s = enc_route_back(r) + rest;
    let r8 = t8 + rest;
    let r7e = e7 + r8;
    let r7 = t7 + r7e;
    let r6e = e6 + r7;
    let r6 = t6 + r6e;
    let r5e = e5 + r6;
    assert(s =~= t5 + r5e);
    lemma_eat_exact(t5, r5e);
    let p1 = t5.len() as int;
    assert(r6.len() > 0 && !is_digit(r6[0])) by {
        reveal_strlit("},\"liveness_config\":");
    }
    lemma_dec_i32_of_enc(r.liveness_status as int, r6);
    lemma_skip_add(s, p1, e5.len() as int);
    assert(r5e.skip(e5.len() as int) =~= r6);
    let p2 = p1 + e5.len() as int;
    lemma_eat_exact(t6, r6e);
    lemma_skip_add(s, p2, t6.len() as int);
    let p3 = p2 + t6.len() as int;
    lemma_dec_opt_lc_of_enc(r.liveness_config, r7);
    lemma_skip_add(s, p3, e6.len() as int);
    assert(r6e.skip(e6.len() as int) =~= r7);
    let p4 = p3 + e6.len() as int;
    lemma_eat_exact(t7, r7e);
    lemma_skip_add(s, p4, t7.len() as int);
    let p5 = p4 + t7.len() as int;
    lemma_dec_strategy_of_enc(r.route_cluster, r8);
    lemma_skip_add(s, p5, e7.len() as int);
    assert(r7e.skip(e7.len() as int) =~= r8);
    lemma_eat_exact(t8, rest);
}

/// Reading a route from its spelling gives it back.
#[verifier::rlimit(100)]
#[verifier::spinoff_prover]
pub proof fn lemma_dec_route_of_enc(r: RouteView, rest: Seq<char>)
    ensures
        dec_route(enc_route(r) + rest) == Some::<(RouteView, int)>(
            (r, enc_route(r).len() as int),
        ),
{
    reveal(enc_route);
    reveal(dec_route);
    let t1 = "{\"route_id\":"@;
    let t2 = ",\"host_name\":"@;
    let t3 = ",\"matcher\":"@;
    let t4 = ",\"allow_deny_list\":"@;
    let e1 = enc_string(r.route_id);
    let e2 = enc_opt_string(r.host_name);
    let e3 = enc_opt_matcher(r.matcher);
    let e4 = enc_opt_adl(r.allow_deny_list);
    let eb = enc_route_back(r);
    let s = enc_route(r) + rest;
    let rb = eb + rest;
    let r4e = e4 + rb;
    let r4 = t4 + r4e;
    let r3e = e3 + r4;
    let r3 = t3 + r3e;
    let r2e = e2 + r3;
    let r2 = t2 + r2e;
    let r1e = e1 + r2;
    assert(s =~= t1 + r1e);
    lemma_eat_exact(t1, r1e);
    let p1 = t1.len() as int;
    lemma_dec_string_of_enc(r.route_id, r2);
    lemma_skip_add(s, p1, e1.len() as int);
    assert(r1e.skip(e1.len() as int) =~= r2);
    let p2 = p1 + e1.len() as int;
    lemma_eat_exact(t2, r2e);
    lemma_skip_add(s, p2, t2.len() as int);
    let p3 = p2 + t2.len() as int;
    lemma_dec_opt_string_of_enc(r.host_name, r3);
    lemma_skip_add(s, p3, e2.len() as int);
    assert(r2e.skip(e2.len() as int) =~= r3);
    let p4 = p3 + e2.len() as int;
    lemma_eat_exact(t3, r3e);
    lemma_skip_add(s, p4, t3.len() as int);
    let p5 = p4 + t3.len() as int;
    lemma_dec_opt_matcher_of_enc(r.matcher, r4);
    lemma_skip_add(s, p5, e3.len() as int);
    assert(r3e.skip(e3.len() as int) =~= r4);
    let p6 = p5 + e3.len() as int;
    lemma_eat_exact(t4, r4e);
    lemma_skip_add(s, p6, t4.len() as int);
    let p7 = p6 + t4.len() as int;
    lemma_dec_opt_adl_of_enc(r.allow_deny_list, rb);
    lemma_skip_add(s, p7, e4.len() as int);
    assert(r4e.skip(e4.len() as int) =~= rb);
    lemma_dec_route_back_of_enc(r, rest);
}

/// The route codec is exact.
pub proof fn lemma_route_codec_exact()
    ensures
        exact_codec(|v: RouteView| enc_route(v), |s2: Seq<char>| dec_route(s2)),
{
    let fe = |v: RouteView| enc_route(v);
    let fd = |s2: Seq<char>| dec_route(s2);
    assert forall|v: RouteView, r: Seq<char>| #[trigger] fd(fe(v) + r) == Some::<(RouteView, int)>(
        (v, fe(v).len() as int),
    ) by {
        lemma_dec_route_of_enc(v, r);
    }
    assert forall|v: RouteView| (#[trigger] fe(v)).len() >= 1 && fe(v)[0] != 'n' && fe(v)[0] != ']'
        && fe(v)[0] != ',' by {
        reveal(enc_route);
        reveal_strlit("{\"route_id\":");
        assert(enc_route(v)[0] == '{');
    }
}


/// The route codec is exact.
pub proof fn lemma_route_list_codec_exact()
    ensures
        exact_codec(|v: RouteView| enc_route(v), |s2: Seq<char>| dec_route(s2)),
{
    let fe = |v: RouteView| enc_route(v);
    let fd = |s2: Seq<char>| dec_route(s2);
    assert forall|v: RouteView, r: Seq<char>| #[trigger] fd(fe(v) + r) == Some::<(RouteView, int)>(
        (v, fe(v).len() as int),
    ) by {
        lemma_dec_route_of_enc(v, r);
    }
    assert forall|v: RouteView| (#[trigger] fe(v)).len() >= 1 && fe(v)[0] != 'n' && fe(v)[0] != ']'
        && fe(v)[0] != ',' by {
        reveal(enc_route);
        reveal_strlit("{\"route_id\":");
        assert(enc_route(v)[0] == '{');
    }
}

/// One service's configuration: its type, certificate material and routes.
#[verifier::opaque]
pub open spec fn enc_service_config(c: ServiceConfigView) -> Seq<char> {
    "{\"server_type\":"@ + enc_service_type(c.server_type) + ",\"cert_str\":"@ + enc_opt_string(
        c.cert_str,
    ) + ",\"key_str\":"@ + enc_opt_string(c.key_str) + ",\"routes\":"@ + enc_list(
        c.routes,
        |r: RouteView| enc_route(r),
    ) + "}"@
}

/// One service's configuration read from the head of `s`.
#[verifier::opaque]
pub open spec fn dec_service_config(s: Seq<char>) -> Option<(ServiceConfigView, int)> {
    match eat(s, "{\"server_type\":"@) {
        None => None,
        Some(k1) => match dec_service_type(s.skip(k1)) {
            None => None,
            Some(t1) => match eat(s.skip(k1 + t1.1), ",\"cert_str\":"@) {
                None => None,
                Some(k2) => match dec_opt_string(s.skip(k1 + t1.1 + k2)) {
                    None => None,
                    Some(t2) => match eat(s.skip(k1 + t1.1 + k2 + t2.1), ",\"key_str\":"@) {
                        None => None,
                        Some(k3) => match dec_opt_string(s.skip(k1 + t1.1 + k2 + t2.1 + k3)) {
                            None => None,
                            Some(t3) => match eat(
                                s.skip(k1 + t1.1 + k2 + t2.1 + k3 + t3.1),
                                ",\"routes\":"@,
                            ) {
                                None => None,
                                Some(k4) => match dec_list(
                                    s.skip(k1 + t1.1 + k2 + t2.1 + k3 + t3.1 + k4),
                                    |s2: Seq<char>| dec_route(s2),
                                ) {
                                    None => None,
                                    Some(t4) => match eat(
                                        s.skip(k1 + t1.1 + k2 + t2.1 + k3 + t3.1 + k4 + t4.1),
                                        "}"@,
                                    ) {
                                        None => None,
                                        Some(k5) => Some(
                                            (
                                                ServiceConfigView {
                                                    server_type: t1.0,
                                                    cert_str: t2.0,
                                                    key_str: t3.0,
                                                    routes: t4.0,
                                                },
                                                k1 + t1.1 + k2 + t2.1 + k3 + t3.1 + k4 + t4.1
                                                    + k5,
                                            ),
                                        ),
                                    },
                                },
                            },
                        },
                    },
                },
            },
        },
    }
}

/// Reading a service configuration from its spelling gives it back.
#[verifier::rlimit(100)]
#[verifier::spinoff_prover]
pub proof fn lemma_dec_service_config_of_enc(c: ServiceConfigView, rest: Seq<char>)
    ensures
        dec_service_config(enc_service_config(c) + rest) == Some::<(ServiceConfigView, int)>(
            (c, enc_service_config(c).len() as int),
        ),
{
    reveal(enc_service_config);
    reveal(dec_service_config);
    let t1 = "{\"server_type\":"@;
    let t2 = ",\"cert_str\":"@;
    let t3 = ",\"key_str\":"@;
    let t4 = ",\"routes\":"@;
    let t5 = "}"@;
    let e1 = enc_service_type(c.server_type);
    let e2 = enc_opt_string(c.cert_str);
    let e3 = enc_opt_string(c.key_str);
    let e4 = enc_list(c.routes, |r: RouteView| enc_route(r));
    let s = enc_service_config(c) + rest;
    let r5 = t5 + rest;
    let r4e = e4 + r5;
    let r4 = t4 + r4e;
    let r3e = e3 + r4;
    let r3 = t3 + r3e;
    let r2e = e2 + r3;
    let r2 = t2 + r2e;
    let r1e = e1 + r2;
    assert(s =~= t1 + r1e);
    lemma_eat_exact(t1, r1e);
    let p1 = t1.len() as int;
    lemma_dec_service_type_of_enc(c.server_type, r2);
    lemma_skip_add(s, p1, e1.len() as int);
    assert(r1e.skip(e1.len() as int) =~= r2);
    let p2 = p1 + e1.len() as int;
    lemma_eat_exact(t2, r2e);
    lemma_skip_add(s, p2, t2.len() as int);
    let p3 = p2 + t2.len() as int;
    lemma_dec_opt_string_of_enc(c.cert_str, r3);
    lemma_skip_add(s, p3, e2.len() as int);
    assert(r2e.skip(e2.len() as int) =~= r3);
    let p4 = p3 + e2.len() as int;
    lemma_eat_exact(t3, r3e);
    lemma_skip_add(s, p4, t3.len() as int);
    let p5 = p4 + t3.len() as int;
    lemma_dec_opt_string_of_enc(c.key_str, r4);
    lemma_skip_add(s, p5, e3.len() as int);
    assert(r3e.skip(e3.len() as int) =~= r4);
    let p6 = p5 + e3.len() as int;
    lemma_eat_exact(t4, r4e);
    lemma_skip_add(s, p6, t4.len() as int);
    let p7 = p6 + t4.len() as int;
    lemma_route_list_codec_exact();
    lemma_dec_list_of_enc(c.routes, |r: RouteView| enc_route(r), |s2: Seq<char>| dec_route(s2), r5);
    lemma_skip_add(s, p7, e4.len() as int);
    assert(r4e.skip(e4.len() as int) =~= r5);
    lemma_eat_exact(t5, rest);
}

/// One service: its port, identifier and configuration.
#[verifier::opaque]
pub open spec fn enc_api_service(a: ApiServiceView) -> Seq<char> {
    "{\"listen_port\":"@ + enc_i32v(a.listen_port as int) + ",\"api_service_id\":"@ + enc_string(
        a.api_service_id,
    ) + ",\"service_config\":"@ + enc_service_config(a.service_config) + "}"@
}

/// One service read from the head of `s`.
#[verifier::opaque]
pub open spec fn dec_api_service(s: Seq<char>) -> Option<(ApiServiceView, int)> {
    match eat(s, "{\"listen_port\":"@) {
        None => None,
        Some(k1) => match dec_i32v(s.skip(k1)) {
            None => None,
            Some(t1) => match eat(s.skip(k1 + t1.1), ",\"api_service_id\":"@) {
                None => None,
                Some(k2) => match dec_string(s.skip(k1 + t1.1 + k2)) {
                    None => None,
                    Some(t2) => match eat(s.skip(k1 + t1.1 + k2 + t2.1), ",\"service_config\":"@) {
                        None => None,
                        Some(k3) => match dec_service_config(s.skip(k1 + t1.1 + k2 + t2.1 + k3)) {
                            None => None,
                            Some(t3) => match eat(
                                s.skip(k1 + t1.1 + k2 + t2.1 + k3 + t3.1),
                                "}"@,
                            ) {
                                None => None,
                                Some(k4) => Some(
                                    (
                                        ApiServiceView {
                                            listen_port: (t1.0) as i32,
                                            api_service_id: t2.0,
                                            service_config: t3.0,
                                        },
                                        k1 + t1.1 + k2 + t2.1 + k3 + t3.1 + k4,
                                    ),
                                ),
                            },
                        },
                    },
                },
            },
        },
    }
}

/// Reading a service from its spelling gives it back.
#[verifier::rlimit(100)]
#[verifier::spinoff_prover]
pub proof fn lemma_dec_api_service_of_enc(a: ApiServiceView, rest: Seq<char>)
    ensures
        dec_api_service(enc_api_service(a) + rest) == Some::<(ApiServiceView, int)>(
            (a, enc_api_service(a).len() as int),
        ),
{
    reveal(enc_api_service);
    reveal(dec_api_service);
    let t1 = "{\"listen_port\":"@;
    let t2 = ",\"api_service_id\":"@;
    let t3 = ",\"service_config\":"@;
    let t4 = "}"@;
    let e1 = enc_i32v(a.listen_port as int);
    let e2 = enc_string(a.api_service_id);
    let e3 = enc_service_config(a.service_config);
    let s = enc_api_service(a) + rest;
    let r4 = t4 + rest;
    let r3e = e3 + r4;
    let r3 = t3 + r3e;
    let r2e = e2 + r3;
    let r2 = t2 + r2e;
    let r1e = e1 + r2;
    assert(s =~= t1 + r1e);
    lemma_eat_exact(t1, r1e);
    let p1 = t1.len() as int;
    assert(r2.len() > 0 && !is_digit(r2[0])) by {
        reveal_strlit(",\"api_service_id\":");
    }
    lemma_dec_i32_of_enc(a.listen_port as int, r2);
    lemma_skip_add(s, p1, e1.len() as int);
    assert(r1e.skip(e1.len() as int) =~= r2);
    let p2 = p1 + e1.len() as int;
    lemma_eat_exact(t2, r2e);
    lemma_skip_add(s, p2, t2.len() as int);
    let p3 = p2 + t2.len() as int;
    lemma_dec_string_of_enc(a.api_service_id, r3);
    lemma_skip_add(s, p3, e2.len() as int);
    assert(r2e.skip(e2.len() as int) =~= r3);
    let p4 = p3 + e2.len() as int;
    lemma_eat_exact(t3, r3e);
    lemma_skip_add(s, p4, t3.len() as int);
    let p5 = p4 + t3.len() as int;
    lemma_dec_service_config_of_enc(a.service_config, r4);
    lemma_skip_add(s, p5, e3.len() as int);
    assert(r3e.skip(e3.len() as int) =~= r4);
    lemma_eat_exact(t4, rest);
}

/// The service codec is exact.
pub proof fn lemma_api_service_codec_exact()
    ensures
        exact_codec(|v: ApiServiceView| enc_api_service(v), |s2: Seq<char>| dec_api_service(s2)),
{
    let fe = |v: ApiServiceView| enc_api_service(v);
    let fd = |s2: Seq<char>| dec_api_service(s2);
    assert forall|v: ApiServiceView, r: Seq<char>| #[trigger] fd(fe(v) + r) == Some::<
        (ApiServiceView, int),
    >((v, fe(v).len() as int)) by {
        lemma_dec_api_service_of_enc(v, r);
    }
    assert forall|v: ApiServiceView| (#[trigger] fe(v)).len() >= 1 && fe(v)[0] != 'n' && fe(v)[0]
        != ']' && fe(v)[0] != ',' by {
        reveal(enc_api_service);
        reveal_strlit("{\"listen_port\":");
        assert(enc_api_service(v)[0] == '{');
    }
}

/// The static settings.
#[verifier::opaque]
pub open spec fn enc_static_config(c: StaticConfigView) -> Seq<char> {
    "{\"access_log\":"@ + enc_opt_string(c.access_log) + ",\"database_url\":"@ + enc_opt_string(
        c.database_url,
    ) + ",\"admin_port\":"@ + enc_string(c.admin_port) + ",\"config_file_path\":"@
        + enc_opt_string(c.config_file_path) + "}"@
}

/// The static settings read from the head of `s`.
#[verifier::opaque]
pub open spec fn dec_static_config(s: Seq<char>) -> Option<(StaticConfigView, int)> {
    match eat(s, "{\"access_log\":"@) {
        None => None,
        Some(k1) => match dec_opt_string(s.skip(k1)) {
            None => None,
            Some(t1) => match eat(s.skip(k1 + t1.1), ",\"database_url\":"@) {
                None => None,
                Some(k2) => match dec_opt_string(s.skip(k1 + t1.1 + k2)) {
                    None => None,
                    Some(t2) => match eat(s.skip(k1 + t1.1 + k2 + t2.1), ",\"admin_port\":"@) {
                        None => None,
                        Some(k3) => match dec_string(s.skip(k1 + t1.1 + k2 + t2.1 + k3)) {
                            None => None,
                            Some(t3) => match eat(
                                s.skip(k1 + t1.1 + k2 + t2.1 + k3 + t3.1),
                                ",\"config_file_path\":"@,
                            ) {
                                None => None,
                                Some(k4) => match dec_opt_string(
                                    s.skip(k1 + t1.1 + k2 + t2.1 + k3 + t3.1 + k4),
                                ) {
                                    None => None,
                                    Some(t4) => match eat(
                                        s.skip(k1 + t1.1 + k2 + t2.1 + k3 + t3.1 + k4 + t4.1),
                                        "}"@,
                                    ) {
                                        None => None,
                                        Some(k5) => Some(
                                            (
                                                StaticConfigView {
                                                    access_log: t1.0,
                                                    database_url: t2.0,
                                                    admin_port: t3.0,
                                                    config_file_path: t4.0,
                                                },
                                                k1 + t1.1 + k2 + t2.1 + k3 + t3.1 + k4 + t4.1
                                                    + k5,
                                            ),
                                        ),
                                    },
                                },
                            },
                        },
                    },
                },
            },
        },
    }
}

/// Reading the static settings from their spelling gives them back.
#[verifier::rlimit(100)]
#[verifier::spinoff_prover]
pub proof fn lemma_dec_static_config_of_enc(c: StaticConfigView, rest: Seq<char>)
    ensures
        dec_static_config(enc_static_config(c) + rest) == Some::<(StaticConfigView, int)>(
            (c, enc_static_config(c).len() as int),
        ),
{
    reveal(enc_static_config);
    reveal(dec_static_config);
    let t1 = "{\"access_log\":"@;
    let t2 = ",\"database_url\":"@;
    let t3 = ",\"admin_port\":"@;
    let t4 = ",\"config_file_path\":"@;
    let t5 = "}"@;
    let e1 = enc_opt_string(c.access_log);
    let e2 = enc_opt_string(c.database_url);
    let e3 = enc_string(c.admin_port);
    let e4 = enc_opt_string(c.config_file_path);
    let s = enc_static_config(c) + rest;
    let r5 = t5 + rest;
    let r4e = e4 + r5;
    let r4 = t4 + r4e;
    let r3e = e3 + r4;
    let r3 = t3 + r3e;
    let r2e = e2 + r3;
    let r2 = t2 + r2e;
    let r1e = e1 + r2;
    assert(s =~= t1 + r1e);
    lemma_eat_exact(t1, r1e);
    let p1 = t1.len() as int;
    lemma_dec_opt_string_of_enc(c.access_log, r2);
    lemma_skip_add(s, p1, e1.len() as int);
    assert(r1e.skip(e1.len() as int) =~= r2);
    let p2 = p1 + e1.len() as int;
    lemma_eat_exact(t2, r2e);
    lemma_skip_add(s, p2, t2.len() as int);
    let p3 = p2 + t2.len() as int;
    lemma_dec_opt_string_of_enc(c.database_url, r3);
    lemma_skip_add(s, p3, e2.len() as int);
    assert(r2e.skip(e2.len() as int) =~= r3);
    let p4 = p3 + e2.len() as int;
    lemma_eat_exact(t3, r3e);
    lemma_skip_add(s, p4, t3.len() as int);
    let p5 = p4 + t3.len() as int;
    lemma_dec_string_of_enc(c.admin_port, r4);
    lemma_skip_add(s, p5, e3.len() as int);
    assert(r3e.skip(e3.len() as int) =~= r4);
    let p6 = p5 + e3.len() as int;
    lemma_eat_exact(t4, r4e);
    lemma_skip_add(s, p6, t4.len() as int);
    let p7 = p6 + t4.len() as int;
    lemma_dec_opt_string_of_enc(c.config_file_path, r5);
    lemma_skip_add(s, p7, e4.len() as int);
    assert(r4e.skip(e4.len() as int) =~= r5);
    lemma_eat_exact(t5, rest);
}

/// The whole configuration document.
#[verifier::opaque]
pub open spec fn enc_app_config(c: AppConfigView) -> Seq<char> {
    "{\"static_config\":"@ + enc_static_config(c.static_config) + ",\"api_service_config\":"@
        + enc_list(c.api_service_config, |a: ApiServiceView| enc_api_service(a)) + "}"@
}

/// The whole configuration read from the head of `s`.
#[verifier::opaque]
pub open spec fn dec_app_config(s: Seq<char>) -> Option<(AppConfigView, int)> {
    match eat(s, "{\"static_config\":"@) {
        None => None,
        Some(k1) => match dec_static_config(s.skip(k1)) {
            None => None,
            Some(t1) => match eat(s.skip(k1 + t1.1), ",\"api_service_config\":"@) {
                None => None,
                Some(k2) => match dec_list(
                    s.skip(k1 + t1.1 + k2),
                    |s2: Seq<char>| dec_api_service(s2),
                ) {
                    None => None,
                    Some(t2) => match eat(s.skip(k1 + t1.1 + k2 + t2.1), "}"@) {
                        None => None,
                        Some(k3) => Some(
                            (
                                AppConfigView {
                                    static_config: t1.0,
                                    api_service_config: t2.0,
                                },
                                k1 + t1.1 + k2 + t2.1 + k3,
                            ),
                        ),
                    },
                },
            },
        },
    }
}

/// Reading a whole configuration document, whatever follows it, gives the
/// configuration back and consumes exactly the document.
#[verifier::rlimit(100)]
#[verifier::spinoff_prover]
pub proof fn lemma_dec_app_config_of_enc(c: AppConfigView, rest: Seq<char>)
    ensures
        dec_app_config(enc_app_config(c) + rest) == Some::<(AppConfigView, int)>(
            (c, enc_app_config(c).len() as int),
        ),
{
    reveal(enc_app_config);
    reveal(dec_app_config);
    let t1 = "{\"static_config\":"@;
    let t2 = ",\"api_service_config\":"@;
    let t3 = "}"@;
    let e1 = enc_static_config(c.static_config);
    let e2 = enc_list(c.api_service_config, |a: ApiServiceView| enc_api_service(a));
    let s = enc_app_config(c) + rest;
    let r3 = t3 + rest;
    let r2e = e2 + r3;
    let r2 = t2 + r2e;
    let r1e = e1 + r2;
    assert(s =~= t1 + r1e);
    lemma_eat_exact(t1, r1e);
    let p1 = t1.len() as int;
    lemma_dec_static_config_of_enc(c.static_config, r2);
    lemma_skip_add(s, p1, e1.len() as int);
    assert(r1e.skip(e1.len() as int) =~= r2);
    let p2 = p1 + e1.len() as int;
    lemma_eat_exact(t2, r2e);
    lemma_skip_add(s, p2, t2.len() as int);
    let p3 = p2 + t2.len() as int;
    lemma_api_service_codec_exact();
    lemma_dec_list_of_enc(
        c.api_service_config,
        |a: ApiServiceView| enc_api_service(a),
        |s2: Seq<char>| dec_api_service(s2),
        r3,
    );
    lemma_skip_add(s, p3, e2.len() as int);
    assert(r2e.skip(e2.len() as int) =~= r3);
    lemma_eat_exact(t3, rest);
}

/// Round trip: the persisted document of any configuration reads back as
/// exactly that configuration's routing table — the same services, routes,
/// policies, targets and weights, with runtime health and the round-robin
/// cursor starting fresh.
pub proof fn lemma_config_round_trip(c: AppConfigView)
    ensures
        dec_app_config(enc_app_config(c)) == Some::<(AppConfigView, int)>(
            (c, enc_app_config(c).len() as int),
        ),
{
    lemma_dec_app_config_of_enc(c, Seq::empty());
    assert(enc_app_config(c) + Seq::<char>::empty() =~= enc_app_config(c));
}

} // verus!



