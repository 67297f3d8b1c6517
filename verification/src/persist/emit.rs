//! The executable writer of the persisted configuration document: it
//! produces exactly the canonical spelling that the document codec
//! defines, piece by piece.

use vstd::prelude::*;

use crate::allow_deny_ip::{AllowDenyObject, AllowType};
use crate::app_config::{ApiService, AppConfig, Matcher, Route, ServiceConfig, ServiceType,
    StaticConifg};
use crate::persist::doc::{enc_allow_deny, enc_allow_type, enc_api_service, enc_app_config,
    enc_base_route, enc_header_item, enc_hv, enc_i32v, enc_liveness_config, enc_matcher,
    enc_opt_string, enc_route, enc_route_back, enc_service_config, enc_service_type,
    enc_static_config, enc_strategy, enc_u64v, enc_weight_item};
use crate::persist::primitives::{dec_digits, digit_char, enc_string, esc_char, esc_chars,
    lemma_dec_digits_shape, lemma_esc_chars_add};
use crate::persist::seqs::{enc_list, enc_list_tail, enc_opt};
use crate::persist::views::{allow_deny_view, api_service_view, app_config_view, base_route_view,
    header_item_view, hv_view, opt_str_view, route_view, service_config_view, static_config_view,
    strategy_view, weight_item_view, AllowDenyView, ApiServiceView, BaseRouteView, HeaderItemView,
    MatcherView, RouteView, WeightItemView};
use crate::route::{BaseRoute, HeaderRouteNestedItem, HeaderValueMappingType, LoadbalancerStrategy,
    PollBaseRoute, RandomBaseRoute, WeightRouteNestedItem};

verus! {

/// Write a string in its quoted, escaped spelling.
pub fn emit_string(s: &String) -> (r: String)
    ensures
        r@ == enc_string(s@),
{
    let mut out = String::from_str("\"");
    proof {
        reveal_strlit("\"");
        assert(out@ =~= seq!['"']);
        assert(s@.subrange(0, 0) =~= Seq::<char>::empty());
        assert(out@ =~= seq!['"'] + esc_chars(s@.subrange(0, 0)));
    }
    let n = s.unicode_len();
    let mut i: usize = 0;
    while i < n
        invariant
            i <= n,
            n == s@.len(),
            out@ == seq!['"'] + esc_chars(s@.subrange(0, i as int)),
        decreases n - i,
    {
        let c = s.as_str().get_char(i);
        let piece = s.as_str().substring_char(i, i + 1);
        if c == '"' || c == '\\' {
            out.append("\\");
            proof {
                reveal_strlit("\\");
            }
        }
        out.append(piece);
        proof {
            lemma_esc_chars_add(s@.subrange(0, i as int), s@.subrange(i as int, i + 1));
            assert(s@.subrange(0, i + 1) =~= s@.subrange(0, i as int) + s@.subrange(
                i as int,
                i + 1,
            ));
            assert(s@.subrange(i as int, i + 1) =~= seq![s@[i as int]]);
            assert(seq![s@[i as int]].skip(1) =~= Seq::<char>::empty());
            assert(esc_chars(Seq::<char>::empty()) =~= Seq::<char>::empty());
            assert(esc_chars(seq![s@[i as int]]) =~= esc_char(s@[i as int]));
            assert(out@ =~= seq!['"'] + esc_chars(s@.subrange(0, i + 1)));
        }
        i = i + 1;
    }
    out.append("\"");
    proof {
        reveal_strlit("\"");
        assert(s@.subrange(0, n as int) =~= s@);
        assert(out@ =~= enc_string(s@));
    }
    out
}

/// The characters of a digit stack, least significant digit first in the
/// stack, most significant first in the text.
pub open spec fn lsb_chars(digs: Seq<u8>) -> Seq<char>
    decreases digs.len(),
{
    if digs.len() == 0 {
        Seq::empty()
    } else {
        lsb_chars(digs.skip(1)) + seq![digit_char(digs[0] as int)]
    }
}

/// Pushing a more significant digit puts its character in front.
proof fn lemma_lsb_chars_push(digs: Seq<u8>, d: u8)
    ensures
        lsb_chars(digs.push(d)) == seq![digit_char(d as int)] + lsb_chars(digs),
    decreases digs.len(),
{
    if digs.len() == 0 {
        assert(digs.push(d).skip(1) =~= Seq::<u8>::empty());
        assert(lsb_chars(Seq::<u8>::empty()) =~= Seq::<char>::empty());
        assert(digs.push(d)[0] == d);
        assert(lsb_chars(digs.push(d)) =~= seq![digit_char(d as int)] + lsb_chars(digs));
    } else {
        lemma_lsb_chars_push(digs.skip(1), d);
        assert(digs.push(d).skip(1) =~= digs.skip(1).push(d));
        assert(lsb_chars(digs.push(d)) =~= seq![digit_char(d as int)] + lsb_chars(digs));
    }
}

/// Write an unsigned number in decimal.
pub fn emit_u64(n: u64) -> (r: String)
    ensures
        r@ == enc_u64v(n),
{
    let digits_lit = "0123456789";
    proof {
        reveal_strlit("0123456789");
        assert(digits_lit@ =~= seq!['0', '1', '2', '3', '4', '5', '6', '7', '8', '9']);
    }
    if n == 0 {
        let r = String::from_str(digits_lit.substring_char(0, 1));
        proof {
            assert(r@ =~= dec_digits(0));
        }
        return r;
    }
    let mut digs: Vec<u8> = Vec::new();
    let mut m: u64 = n;
    proof {
        assert(lsb_chars(digs@) =~= Seq::<char>::empty());
        assert(dec_digits(n as int) =~= dec_digits(m as int) + lsb_chars(digs@));
    }
    while m > 0
        invariant
            m > 0 ==> dec_digits(n as int) == dec_digits(m as int) + lsb_chars(digs@),
            m == 0 ==> dec_digits(n as int) == lsb_chars(digs@),
            forall|j: int| 0 <= j < digs@.len() ==> #[trigger] digs@[j] < 10,
        decreases m,
    {
        let d = (m % 10) as u8;
        let ghost old_digs = digs@;
        digs.push(d);
        proof {
            lemma_lsb_chars_push(old_digs, d);
            if m >= 10 {
                assert(dec_digits(m as int) == dec_digits(m as int / 10) + seq![
                    digit_char(m as int % 10),
                ]);
                assert(dec_digits(m as int / 10) + (seq![digit_char(d as int)] + lsb_chars(
                    old_digs,
                )) =~= (dec_digits(m as int / 10) + seq![digit_char(d as int)]) + lsb_chars(
                    old_digs,
                ));
            } else {
                assert(dec_digits(m as int) == seq![digit_char(m as int)]);
                assert(seq![digit_char(d as int)] + lsb_chars(old_digs) =~= dec_digits(m as int)
                    + lsb_chars(old_digs));
            }
        }
        m = m / 10;
    }
    let mut out = String::new();
    proof {
        assert(out@ + lsb_chars(digs@) =~= lsb_chars(digs@));
    }
    while digs.len() > 0
        invariant
            out@ + lsb_chars(digs@) == dec_digits(n as int),
            forall|j: int| 0 <= j < digs@.len() ==> #[trigger] digs@[j] < 10,
        decreases digs@.len(),
    {
        let digits_lit = "0123456789";
        let ghost before = digs@;
        let d = match digs.pop() {
            Some(d) => d,
            None => 0,
        };
        proof {
            reveal_strlit("0123456789");
            assert(digits_lit@ =~= seq!['0', '1', '2', '3', '4', '5', '6', '7', '8', '9']);
            assert(digs@ == before.drop_last());
            assert(d == before.last());
            assert(before[before.len() - 1] < 10);
            assert(d < 10);
            assert(before =~= before.drop_last().push(before.last()));
            lemma_lsb_chars_push(before.drop_last(), before.last());
        }
        let piece = digits_lit.substring_char(d as usize, d as usize + 1);
        out.append(piece);
        proof {
            assert(piece@ =~= seq![digits_lit@[d as int]]);
            assert(piece@ =~= seq![digit_char(d as int)]);
            assert(out@ + lsb_chars(digs@) =~= dec_digits(n as int));
        }
    }
    proof {
        assert(out@ =~= dec_digits(n as int));
    }
    out
}

/// Write a signed 32-bit number in decimal.
pub fn emit_i32(n: i32) -> (r: String)
    ensures
        r@ == enc_i32v(n as int),
{
    if n >= 0 {
        let r = emit_u64(n as u64);
        proof {
            assert(enc_u64v(n as u64) =~= enc_i32v(n as int));
        }
        r
    } else {
        let mut out = String::from_str("-");
        let mag: u64 = (-(n as i64)) as u64;
        let digits = emit_u64(mag);
        out.append(digits.as_str());
        proof {
            reveal_strlit("-");
            assert(out@ =~= enc_i32v(n as int));
        }
        out
    }
}

/// Write an optional string: `null` or the quoted string.
pub fn emit_opt_string(o: &Option<String>) -> (r: String)
    ensures
        r@ == enc_opt_string(opt_str_view(*o)),
{
    match o {
        None => {
            let r = String::from_str("null");
            proof {
                reveal_strlit("null");
                assert(r@ =~= enc_opt_string(opt_str_view(*o)));
            }
            r
        },
        Some(s) => {
            let r = emit_string(s);
            r
        },
    }
}


/// Write one upstream target.
pub fn emit_base_route(b: &BaseRoute) -> (r: String)
    ensures
        r@ == enc_base_route(base_route_view(*b)),
{
    let mut out = String::from_str("{\"endpoint\":");
    out.append(emit_string(&b.endpoint).as_str());
    out.append(",\"try_file\":");
    out.append(emit_opt_string(&b.try_file).as_str());
    out.append(",\"base_route_id\":");
    out.append(emit_string(&b.base_route_id).as_str());
    out.append("}");
    proof {
        reveal(enc_base_route);
        reveal_strlit("{\"endpoint\":");
        reveal_strlit(",\"try_file\":");
        reveal_strlit(",\"base_route_id\":");
        reveal_strlit("}");
        assert(out@ =~= enc_base_route(base_route_view(*b)));
    }
    out
}

/// Write one weighted target.
pub fn emit_weight_item(w: &WeightRouteNestedItem) -> (r: String)
    ensures
        r@ == enc_weight_item(crate::persist::views::weight_item_view(*w)),
{
    let mut out = String::from_str("{\"base_route\":");
    out.append(emit_base_route(&w.base_route).as_str());
    out.append(",\"weight\":");
    out.append(emit_u64(w.weight).as_str());
    out.append("}");
    proof {
        reveal(enc_weight_item);
        reveal_strlit("{\"base_route\":");
        reveal_strlit(",\"weight\":");
        reveal_strlit("}");
        assert(out@ =~= enc_weight_item(crate::persist::views::weight_item_view(*w)));
    }
    out
}

/// Write a list of strings.
pub fn emit_string_list(items: &Vec<String>) -> (r: String)
    ensures
        r@ == enc_list(items@.map_values(|x: String| x@), (|t: Seq<char>| enc_string(t))),
{
    let ghost vs = items@.map_values(|x: String| x@);
    let ghost fe = (|t: Seq<char>| enc_string(t));
    let mut out = String::from_str("[");
    let n = items.len();
    if n == 0 {
        out.append("]");
        proof {
            reveal_strlit("[");
            reveal_strlit("]");
            assert(out@ =~= enc_list(vs, fe));
        }
        return out;
    }
    out.append(emit_string(&items[0]).as_str());
    proof {
        reveal_strlit("[");
        assert(out@ =~= seq!['['] + fe(vs[0]));
        assert(out@ + enc_list_tail(vs.skip(1), fe) =~= enc_list(vs, fe));
    }
    let mut i: usize = 1;
    while i < n
        invariant
            1 <= i <= n,
            n == items@.len(),
            vs == items@.map_values(|x: String| x@),
            fe == (|t: Seq<char>| enc_string(t)),
            out@ + enc_list_tail(vs.skip(i as int), fe) == enc_list(vs, fe),
        decreases n - i,
    {
        out.append(",");
        out.append(emit_string(&items[i]).as_str());
        proof {
            reveal_strlit(",");
            assert(vs.skip(i as int)[0] == vs[i as int]);
            assert(vs.skip(i as int).skip(1) =~= vs.skip(i + 1));
            assert(out@ + enc_list_tail(vs.skip(i + 1), fe) =~= enc_list(vs, fe));
        }
        i = i + 1;
    }
    out.append("]");
    proof {
        reveal_strlit("]");
        assert(vs.skip(n as int) =~= Seq::<Seq<char>>::empty());
        assert(out@ =~= enc_list(vs, fe));
    }
    out
}

/// Write one header rule.
pub fn emit_hv(h: &HeaderValueMappingType) -> (r: String)
    ensures
        r@ == enc_hv(hv_view(*h)),
{
    match h {
        HeaderValueMappingType::Regex(rm) => {
            let mut out = String::from_str("{\"type\":\"Regex\",\"value\":");
            out.append(emit_string(&rm.value).as_str());
            out.append("}");
            proof {
                reveal(enc_hv);
                reveal_strlit("{\"type\":\"Regex\",\"value\":");
                reveal_strlit("}");
                assert(out@ =~= enc_hv(hv_view(*h)));
            }
            out
        },
        HeaderValueMappingType::Text(tm) => {
            let mut out = String::from_str("{\"type\":\"Text\",\"value\":");
            out.append(emit_string(&tm.value).as_str());
            out.append("}");
            proof {
                reveal(enc_hv);
                reveal_strlit("{\"type\":\"Text\",\"value\":");
                reveal_strlit("}");
                assert(out@ =~= enc_hv(hv_view(*h)));
            }
            out
        },
        HeaderValueMappingType::Split(seg) => {
            let mut out = String::from_str("{\"type\":\"Split\",\"split_by\":");
            out.append(emit_string(&seg.split_by).as_str());
            out.append(",\"split_list\":");
            out.append(emit_string_list(&seg.split_list).as_str());
            out.append("}");
            proof {
                reveal(enc_hv);
                reveal_strlit("{\"type\":\"Split\",\"split_by\":");
                reveal_strlit(",\"split_list\":");
                reveal_strlit("}");
                assert(out@ =~= enc_hv(hv_view(*h)));
            }
            out
        },
    }
}

/// Write one header-routed target.
pub fn emit_header_item(t: &HeaderRouteNestedItem) -> (r: String)
    ensures
        r@ == enc_header_item(header_item_view(*t)),
{
    let mut out = String::from_str("{\"base_route\":");
    out.append(emit_base_route(&t.base_route).as_str());
    out.append(",\"header_key\":");
    out.append(emit_string(&t.header_key).as_str());
    out.append(",\"header_value_mapping_type\":");
    out.append(emit_hv(&t.header_value_mapping_type).as_str());
    out.append("}");
    proof {
        reveal(enc_header_item);
        reveal_strlit("{\"base_route\":");
        reveal_strlit(",\"header_key\":");
        reveal_strlit(",\"header_value_mapping_type\":");
        reveal_strlit("}");
        assert(out@ =~= enc_header_item(header_item_view(*t)));
    }
    out
}

/// Write a service type tag.
pub fn emit_service_type(t: &ServiceType) -> (r: String)
    ensures
        r@ == enc_service_type(*t),
{
    let text = match t {
        ServiceType::Http => "\"Http\"",
        ServiceType::Https => "\"Https\"",
        ServiceType::Tcp => "\"Tcp\"",
        ServiceType::Http2 => "\"Http2\"",
        ServiceType::Http2Tls => "\"Http2Tls\"",
    };
    let r = String::from_str(text);
    proof {
        reveal(enc_service_type);
    }
    r
}

/// Write an allow/deny kind tag.
pub fn emit_allow_type(t: &AllowType) -> (r: String)
    ensures
        r@ == enc_allow_type(*t),
{
    let text = match t {
        AllowType::AllowAll => "\"AllowAll\"",
        AllowType::DenyAll => "\"DenyAll\"",
        AllowType::Allow => "\"Allow\"",
        AllowType::Deny => "\"Deny\"",
    };
    let r = String::from_str(text);
    proof {
        reveal(enc_allow_type);
    }
    r
}

/// Write one allow/deny rule.
pub fn emit_allow_deny(o: &AllowDenyObject) -> (r: String)
    ensures
        r@ == enc_allow_deny(allow_deny_view(*o)),
{
    let mut out = String::from_str("{\"limit_type\":");
    out.append(emit_allow_type(&o.limit_type).as_str());
    out.append(",\"value\":");
    out.append(emit_opt_string(&o.value).as_str());
    out.append("}");
    proof {
        reveal(enc_allow_deny);
        reveal_strlit("{\"limit_type\":");
        reveal_strlit(",\"value\":");
        reveal_strlit("}");
        assert(out@ =~= enc_allow_deny(allow_deny_view(*o)));
    }
    out
}

/// Write a matcher.
pub fn emit_matcher(m: &Matcher) -> (r: String)
    ensures
        r@ == enc_matcher(MatcherView { prefix: m.prefix@, prefix_rewrite: m.prefix_rewrite@ }),
{
    let mut out = String::from_str("{\"prefix\":");
    out.append(emit_string(&m.prefix).as_str());
    out.append(",\"prefix_rewrite\":");
    out.append(emit_string(&m.prefix_rewrite).as_str());
    out.append("}");
    proof {
        reveal(enc_matcher);
        reveal_strlit("{\"prefix\":");
        reveal_strlit(",\"prefix_rewrite\":");
        reveal_strlit("}");
        assert(out@ =~= enc_matcher(MatcherView { prefix: m.prefix@, prefix_rewrite: m.prefix_rewrite@ }));
    }
    out
}


/// Write a list of round-robin targets.
pub fn emit_poll_targets(items: &Vec<PollBaseRoute>) -> (r: String)
    ensures
        r@ == enc_list(items@.map_values(|t: PollBaseRoute| base_route_view(t.base_route)), (|b: BaseRouteView| enc_base_route(b))),
{
    let ghost vs = items@.map_values(|t: PollBaseRoute| base_route_view(t.base_route));
    let ghost fe = (|b: BaseRouteView| enc_base_route(b));
    let mut out = String::from_str("[");
    let n = items.len();
    if n == 0 {
        out.append("]");
        proof {
            reveal_strlit("[");
            reveal_strlit("]");
            assert(out@ =~= enc_list(vs, fe));
        }
        return out;
    }
    out.append(emit_base_route(&items[0].base_route).as_str());
    proof {
        reveal_strlit("[");
        assert(out@ =~= seq!['['] + fe(vs[0]));
        assert(out@ + enc_list_tail(vs.skip(1), fe) =~= enc_list(vs, fe));
    }
    let mut i: usize = 1;
    while i < n
        invariant
            1 <= i <= n,
            n == items@.len(),
            vs == items@.map_values(|t: PollBaseRoute| base_route_view(t.base_route)),
            fe == (|b: BaseRouteView| enc_base_route(b)),
            out@ + enc_list_tail(vs.skip(i as int), fe) == enc_list(vs, fe),
        decreases n - i,
    {
        out.append(",");
        out.append(emit_base_route(&items[i].base_route).as_str());
        proof {
            reveal_strlit(",");
            assert(vs.skip(i as int)[0] == vs[i as int]);
            assert(vs.skip(i as int).skip(1) =~= vs.skip(i + 1));
            assert(out@ + enc_list_tail(vs.skip(i + 1), fe) =~= enc_list(vs, fe));
        }
        i = i + 1;
    }
    out.append("]");
    proof {
        reveal_strlit("]");
        assert(vs.skip(n as int) =~= Seq::<BaseRouteView>::empty());
        assert(out@ =~= enc_list(vs, fe));
    }
    out
}

/// Write a list of random targets.
pub fn emit_random_targets(items: &Vec<RandomBaseRoute>) -> (r: String)
    ensures
        r@ == enc_list(items@.map_values(|t: RandomBaseRoute| base_route_view(t.base_route)), (|b: BaseRouteView| enc_base_route(b))),
{
    let ghost vs = items@.map_values(|t: RandomBaseRoute| base_route_view(t.base_route));
    let ghost fe = (|b: BaseRouteView| enc_base_route(b));
    let mut out = String::from_str("[");
    let n = items.len();
    if n == 0 {
        out.append("]");
        proof {
            reveal_strlit("[");
            reveal_strlit("]");
            assert(out@ =~= enc_list(vs, fe));
        }
        return out;
    }
    out.append(emit_base_route(&items[0].base_route).as_str());
    proof {
        reveal_strlit("[");
        assert(out@ =~= seq!['['] + fe(vs[0]));
        assert(out@ + enc_list_tail(vs.skip(1), fe) =~= enc_list(vs, fe));
    }
    let mut i: usize = 1;
    while i < n
        invariant
            1 <= i <= n,
            n == items@.len(),
            vs == items@.map_values(|t: RandomBaseRoute| base_route_view(t.base_route)),
            fe == (|b: BaseRouteView| enc_base_route(b)),
            out@ + enc_list_tail(vs.skip(i as int), fe) == enc_list(vs, fe),
        decreases n - i,
    {
        out.append(",");
        out.append(emit_base_route(&items[i].base_route).as_str());
        proof {
            reveal_strlit(",");
            assert(vs.skip(i as int)[0] == vs[i as int]);
            assert(vs.skip(i as int).skip(1) =~= vs.skip(i + 1));
            assert(out@ + enc_list_tail(vs.skip(i + 1), fe) =~= enc_list(vs, fe));
        }
        i = i + 1;
    }
    out.append("]");
    proof {
        reveal_strlit("]");
        assert(vs.skip(n as int) =~= Seq::<BaseRouteView>::empty());
        assert(out@ =~= enc_list(vs, fe));
    }
    out
}

/// Write a list of weighted targets.
pub fn emit_weight_items(items: &Vec<WeightRouteNestedItem>) -> (r: String)
    ensures
        r@ == enc_list(items@.map_values(|t: WeightRouteNestedItem| weight_item_view(t)), (|w: WeightItemView| enc_weight_item(w))),
{
    let ghost vs = items@.map_values(|t: WeightRouteNestedItem| weight_item_view(t));
    let ghost fe = (|w: WeightItemView| enc_weight_item(w));
    let mut out = String::from_str("[");
    let n = items.len();
    if n == 0 {
        out.append("]");
        proof {
            reveal_strlit("[");
            reveal_strlit("]");
            assert(out@ =~= enc_list(vs, fe));
        }
        return out;
    }
    out.append(emit_weight_item(&items[0]).as_str());
    proof {
        reveal_strlit("[");
        assert(out@ =~= seq!['['] + fe(vs[0]));
        assert(out@ + enc_list_tail(vs.skip(1), fe) =~= enc_list(vs, fe));
    }
    let mut i: usize = 1;
    while i < n
        invariant
            1 <= i <= n,
            n == items@.len(),
            vs == items@.map_values(|t: WeightRouteNestedItem| weight_item_view(t)),
            fe == (|w: WeightItemView| enc_weight_item(w)),
            out@ + enc_list_tail(vs.skip(i as int), fe) == enc_list(vs, fe),
        decreases n - i,
    {
        out.append(",");
        out.append(emit_weight_item(&items[i]).as_str());
        proof {
            reveal_strlit(",");
            assert(vs.skip(i as int)[0] == vs[i as int]);
            assert(vs.skip(i as int).skip(1) =~= vs.skip(i + 1));
            assert(out@ + enc_list_tail(vs.skip(i + 1), fe) =~= enc_list(vs, fe));
        }
        i = i + 1;
    }
    out.append("]");
    proof {
        reveal_strlit("]");
        assert(vs.skip(n as int) =~= Seq::<WeightItemView>::empty());
        assert(out@ =~= enc_list(vs, fe));
    }
    out
}

/// Write a list of header-routed targets.
pub fn emit_header_items(items: &Vec<HeaderRouteNestedItem>) -> (r: String)
    ensures
        r@ == enc_list(items@.map_values(|t: HeaderRouteNestedItem| header_item_view(t)), (|h: HeaderItemView| enc_header_item(h))),
{
    let ghost vs = items@.map_values(|t: HeaderRouteNestedItem| header_item_view(t));
    let ghost fe = (|h: HeaderItemView| enc_header_item(h));
    let mut out = String::from_str("[");
    let n = items.len();
    if n == 0 {
        out.append("]");
        proof {
            reveal_strlit("[");
            reveal_strlit("]");
            assert(out@ =~= enc_list(vs, fe));
        }
        return out;
    }
    out.append(emit_header_item(&items[0]).as_str());
    proof {
        reveal_strlit("[");
        assert(out@ =~= seq!['['] + fe(vs[0]));
        assert(out@ + enc_list_tail(vs.skip(1), fe) =~= enc_list(vs, fe));
    }
    let mut i: usize = 1;
    while i < n
        invariant
            1 <= i <= n,
            n == items@.len(),
            vs == items@.map_values(|t: HeaderRouteNestedItem| header_item_view(t)),
            fe == (|h: HeaderItemView| enc_header_item(h)),
            out@ + enc_list_tail(vs.skip(i as int), fe) == enc_list(vs, fe),
        decreases n - i,
    {
        out.append(",");
        out.append(emit_header_item(&items[i]).as_str());
        proof {
            reveal_strlit(",");
            assert(vs.skip(i as int)[0] == vs[i as int]);
            assert(vs.skip(i as int).skip(1) =~= vs.skip(i + 1));
            assert(out@ + enc_list_tail(vs.skip(i + 1), fe) =~= enc_list(vs, fe));
        }
        i = i + 1;
    }
    out.append("]");
    proof {
        reveal_strlit("]");
        assert(vs.skip(n as int) =~= Seq::<HeaderItemView>::empty());
        assert(out@ =~= enc_list(vs, fe));
    }
    out
}

/// Write a list of allow/deny rules.
pub fn emit_allow_deny_list(items: &Vec<AllowDenyObject>) -> (r: String)
    ensures
        r@ == enc_list(items@.map_values(|o: AllowDenyObject| allow_deny_view(o)), (|v: AllowDenyView| enc_allow_deny(v))),
{
    let ghost vs = items@.map_values(|o: AllowDenyObject| allow_deny_view(o));
    let ghost fe = (|v: AllowDenyView| enc_allow_deny(v));
    let mut out = String::from_str("[");
    let n = items.len();
    if n == 0 {
        out.append("]");
        proof {
            reveal_strlit("[");
            reveal_strlit("]");
            assert(out@ =~= enc_list(vs, fe));
        }
        return out;
    }
    out.append(emit_allow_deny(&items[0]).as_str());
    proof {
        reveal_strlit("[");
        assert(out@ =~= seq!['['] + fe(vs[0]));
        assert(out@ + enc_list_tail(vs.skip(1), fe) =~= enc_list(vs, fe));
    }
    let mut i: usize = 1;
    while i < n
        invariant
            1 <= i <= n,
            n == items@.len(),
            vs == items@.map_values(|o: AllowDenyObject| allow_deny_view(o)),
            fe == (|v: AllowDenyView| enc_allow_deny(v)),
            out@ + enc_list_tail(vs.skip(i as int), fe) == enc_list(vs, fe),
        decreases n - i,
    {
        out.append(",");
        out.append(emit_allow_deny(&items[i]).as_str());
        proof {
            reveal_strlit(",");
            assert(vs.skip(i as int)[0] == vs[i as int]);
            assert(vs.skip(i as int).skip(1) =~= vs.skip(i + 1));
            assert(out@ + enc_list_tail(vs.skip(i + 1), fe) =~= enc_list(vs, fe));
        }
        i = i + 1;
    }
    out.append("]");
    proof {
        reveal_strlit("]");
        assert(vs.skip(n as int) =~= Seq::<AllowDenyView>::empty());
        assert(out@ =~= enc_list(vs, fe));
    }
    out
}

/// Write a strategy.
pub fn emit_strategy(v: &LoadbalancerStrategy) -> (r: String)
    ensures
        r@ == enc_strategy(strategy_view(*v)),
{
    match v {
        LoadbalancerStrategy::PollRoute(p) => {
            let mut out = String::from_str("{\"type\":\"PollRoute\",\"routes\":");
            out.append(emit_poll_targets(&p.routes).as_str());
            out.append("}");
            proof {
                reveal(enc_strategy);
                reveal_strlit("{\"type\":\"PollRoute\",\"routes\":");
                reveal_strlit("}");
                assert(out@ =~= enc_strategy(strategy_view(*v)));
            }
            out
        },
        LoadbalancerStrategy::HeaderRoute(h) => {
            let mut out = String::from_str("{\"type\":\"HeaderRoute\",\"routes\":");
            out.append(emit_header_items(&h.routes).as_str());
            out.append("}");
            proof {
                reveal(enc_strategy);
                reveal_strlit("{\"type\":\"HeaderRoute\",\"routes\":");
                reveal_strlit("}");
                assert(out@ =~= enc_strategy(strategy_view(*v)));
            }
            out
        },
        LoadbalancerStrategy::RandomRoute(rr) => {
            let mut out = String::from_str("{\"type\":\"RandomRoute\",\"routes\":");
            out.append(emit_random_targets(&rr.routes).as_str());
            out.append("}");
            proof {
                reveal(enc_strategy);
                reveal_strlit("{\"type\":\"RandomRoute\",\"routes\":");
                reveal_strlit("}");
                assert(out@ =~= enc_strategy(strategy_view(*v)));
            }
            out
        },
        LoadbalancerStrategy::WeightRoute(w) => {
            let mut out = String::from_str("{\"type\":\"WeightRoute\",\"index\":");
            out.append(emit_u64(w.index).as_str());
            out.append(",\"offset\":");
            out.append(emit_u64(w.offset).as_str());
            out.append(",\"routes\":");
            out.append(emit_weight_items(&w.routes).as_str());
            out.append("}");
            proof {
                reveal(enc_strategy);
                reveal_strlit("{\"type\":\"WeightRoute\",\"index\":");
                reveal_strlit(",\"offset\":");
                reveal_strlit(",\"routes\":");
                reveal_strlit("}");
                assert(out@ =~= enc_strategy(strategy_view(*v)));
            }
            out
        },
    }
}

/// Write one route.
#[verifier::rlimit(50)]
pub fn emit_route(r: &Route) -> (res: String)
    ensures
        res@ == enc_route(route_view(*r)),
{
    let mut out = String::from_str("{\"route_id\":");
    out.append(emit_string(&r.route_id).as_str());
    out.append(",\"host_name\":");
    out.append(emit_opt_string(&r.host_name).as_str());
    out.append(",\"matcher\":");
    match &r.matcher {
        None => {
            out.append("null");
            proof {
                reveal_strlit("null");
            }
        },
        Some(m) => {
            out.append(emit_matcher(m).as_str());
        },
    }
    out.append(",\"allow_deny_list\":");
    match &r.allow_deny_list {
        None => {
            out.append("null");
            proof {
                reveal_strlit("null");
            }
        },
        Some(l) => {
            out.append(emit_allow_deny_list(l).as_str());
        },
    }
    out.append(",\"liveness_status\":{\"current_liveness_count\":");
    out.append(emit_i32(r.liveness_status.current_liveness_count).as_str());
    out.append("},\"liveness_config\":");
    match &r.liveness_config {
        None => {
            out.append("null");
            proof {
                reveal_strlit("null");
            }
        },
        Some(c) => {
            out.append("{\"min_liveness_count\":");
            out.append(emit_i32(c.min_liveness_count).as_str());
            out.append("}");
            proof {
                reveal(enc_liveness_config);
                reveal_strlit("{\"min_liveness_count\":");
                reveal_strlit("}");
                assert(out@.subrange(
                    out@.len() - enc_liveness_config(c.min_liveness_count).len(),
                    out@.len() as int,
                ) =~= enc_liveness_config(c.min_liveness_count));
            }
        },
    }
    out.append(",\"route_cluster\":");
    out.append(emit_strategy(&r.route_cluster).as_str());
    out.append("}");
    proof {
        reveal(enc_route);
        reveal(enc_route_back);
        reveal_strlit("{\"route_id\":");
        reveal_strlit(",\"host_name\":");
        reveal_strlit(",\"matcher\":");
        reveal_strlit(",\"allow_deny_list\":");
        reveal_strlit(",\"liveness_status\":{\"current_liveness_count\":");
        reveal_strlit("},\"liveness_config\":");
        reveal_strlit(",\"route_cluster\":");
        reveal_strlit("}");
        reveal_strlit("null");
        reveal(enc_liveness_config);
        assert(out@ =~= enc_route(route_view(*r)));
    }
    out
}

/// Write a list of routes.
pub fn emit_routes(items: &Vec<Route>) -> (r: String)
    ensures
        r@ == enc_list(items@.map_values(|r2: Route| route_view(r2)), (|r2: RouteView| enc_route(r2))),
{
    let ghost vs = items@.map_values(|r2: Route| route_view(r2));
    let ghost fe = (|r2: RouteView| enc_route(r2));
    let mut out = String::from_str("[");
    let n = items.len();
    if n == 0 {
        out.append("]");
        proof {
            reveal_strlit("[");
            reveal_strlit("]");
            assert(out@ =~= enc_list(vs, fe));
        }
        return out;
    }
    out.append(emit_route(&items[0]).as_str());
    proof {
        reveal_strlit("[");
        assert(out@ =~= seq!['['] + fe(vs[0]));
        assert(out@ + enc_list_tail(vs.skip(1), fe) =~= enc_list(vs, fe));
    }
    let mut i: usize = 1;
    while i < n
        invariant
            1 <= i <= n,
            n == items@.len(),
            vs == items@.map_values(|r2: Route| route_view(r2)),
            fe == (|r2: RouteView| enc_route(r2)),
            out@ + enc_list_tail(vs.skip(i as int), fe) == enc_list(vs, fe),
        decreases n - i,
    {
        out.append(",");
        out.append(emit_route(&items[i]).as_str());
        proof {
            reveal_strlit(",");
            assert(vs.skip(i as int)[0] == vs[i as int]);
            assert(vs.skip(i as int).skip(1) =~= vs.skip(i + 1));
            assert(out@ + enc_list_tail(vs.skip(i + 1), fe) =~= enc_list(vs, fe));
        }
        i = i + 1;
    }
    out.append("]");
    proof {
        reveal_strlit("]");
        assert(vs.skip(n as int) =~= Seq::<RouteView>::empty());
        assert(out@ =~= enc_list(vs, fe));
    }
    out
}

/// Write a service configuration.
pub fn emit_service_config(c: &ServiceConfig) -> (r: String)
    ensures
        r@ == enc_service_config(service_config_view(*c)),
{
    let mut out = String::from_str("{\"server_type\":");
    out.append(emit_service_type(&c.server_type).as_str());
    out.append(",\"cert_str\":");
    out.append(emit_opt_string(&c.cert_str).as_str());
    out.append(",\"key_str\":");
    out.append(emit_opt_string(&c.key_str).as_str());
    out.append(",\"routes\":");
    out.append(emit_routes(&c.routes).as_str());
    out.append("}");
    proof {
        reveal(enc_service_config);
        reveal_strlit("{\"server_type\":");
        reveal_strlit(",\"cert_str\":");
        reveal_strlit(",\"key_str\":");
        reveal_strlit(",\"routes\":");
        reveal_strlit("}");
        assert(out@ =~= enc_service_config(service_config_view(*c)));
    }
    out
}

/// Write one service.
pub fn emit_api_service(a: &ApiService) -> (r: String)
    ensures
        r@ == enc_api_service(api_service_view(*a)),
{
    let mut out = String::from_str("{\"listen_port\":");
    out.append(emit_i32(a.listen_port).as_str());
    out.append(",\"api_service_id\":");
    out.append(emit_string(&a.api_service_id).as_str());
    out.append(",\"service_config\":");
    out.append(emit_service_config(&a.service_config).as_str());
    out.append("}");
    proof {
        reveal(enc_api_service);
        reveal_strlit("{\"listen_port\":");
        reveal_strlit(",\"api_service_id\":");
        reveal_strlit(",\"service_config\":");
        reveal_strlit("}");
        assert(out@ =~= enc_api_service(api_service_view(*a)));
    }
    out
}

/// Write a list of services.
pub fn emit_services(items: &Vec<ApiService>) -> (r: String)
    ensures
        r@ == enc_list(items@.map_values(|a: ApiService| api_service_view(a)), (|a: ApiServiceView| enc_api_service(a))),
{
    let ghost vs = items@.map_values(|a: ApiService| api_service_view(a));
    let ghost fe = (|a: ApiServiceView| enc_api_service(a));
    let mut out = String::from_str("[");
    let n = items.len();
    if n == 0 {
        out.append("]");
        proof {
            reveal_strlit("[");
            reveal_strlit("]");
            assert(out@ =~= enc_list(vs, fe));
        }
        return out;
    }
    out.append(emit_api_service(&items[0]).as_str());
    proof {
        reveal_strlit("[");
        assert(out@ =~= seq!['['] + fe(vs[0]));
        assert(out@ + enc_list_tail(vs.skip(1), fe) =~= enc_list(vs, fe));
    }
    let mut i: usize = 1;
    while i < n
        invariant
            1 <= i <= n,
            n == items@.len(),
            vs == items@.map_values(|a: ApiService| api_service_view(a)),
            fe == (|a: ApiServiceView| enc_api_service(a)),
            out@ + enc_list_tail(vs.skip(i as int), fe) == enc_list(vs, fe),
        decreases n - i,
    {
        out.append(",");
        out.append(emit_api_service(&items[i]).as_str());
        proof {
            reveal_strlit(",");
            assert(vs.skip(i as int)[0] == vs[i as int]);
            assert(vs.skip(i as int).skip(1) =~= vs.skip(i + 1));
            assert(out@ + enc_list_tail(vs.skip(i + 1), fe) =~= enc_list(vs, fe));
        }
        i = i + 1;
    }
    out.append("]");
    proof {
        reveal_strlit("]");
        assert(vs.skip(n as int) =~= Seq::<ApiServiceView>::empty());
        assert(out@ =~= enc_list(vs, fe));
    }
    out
}

/// Write the static settings.
pub fn emit_static_config(c: &StaticConifg) -> (r: String)
    ensures
        r@ == enc_static_config(static_config_view(*c)),
{
    let mut out = String::from_str("{\"access_log\":");
    out.append(emit_opt_string(&c.access_log).as_str());
    out.append(",\"database_url\":");
    out.append(emit_opt_string(&c.database_url).as_str());
    out.append(",\"admin_port\":");
    out.append(emit_string(&c.admin_port).as_str());
    out.append(",\"config_file_path\":");
    out.append(emit_opt_string(&c.config_file_path).as_str());
    out.append("}");
    proof {
        reveal(enc_static_config);
        reveal_strlit("{\"access_log\":");
        reveal_strlit(",\"database_url\":");
        reveal_strlit(",\"admin_port\":");
        reveal_strlit(",\"config_file_path\":");
        reveal_strlit("}");
        assert(out@ =~= enc_static_config(static_config_view(*c)));
    }
    out
}

/// Write the persisted document of a whole configuration: the canonical
/// text that `dec_app_config` reads back as exactly this routing table.
pub fn emit_app_config(c: &AppConfig) -> (r: String)
    ensures
        r@ == enc_app_config(app_config_view(*c)),
{
    let mut out = String::from_str("{\"static_config\":");
    out.append(emit_static_config(&c.static_config).as_str());
    out.append(",\"api_service_config\":");
    out.append(emit_services(&c.api_service_config).as_str());
    out.append("}");
    proof {
        reveal(enc_app_config);
        reveal_strlit("{\"static_config\":");
        reveal_strlit(",\"api_service_config\":");
        reveal_strlit("}");
        assert(out@ =~= enc_app_config(app_config_view(*c)));
    }
    out
}

} // verus!


