//! The executable reader of the persisted configuration document: it
//! accepts exactly the canonical spelling that the document codec defines
//! and rebuilds the configuration the document describes.

use vstd::prelude::*;

use crate::allow_deny_ip::AllowType;
use crate::app_config::ServiceType;
use crate::allow_deny_ip::AllowDenyObject;
use crate::app_config::{ApiService, AppConfig, Matcher, Route, ServiceConfig, LivenessConfig,
    LivenessStatus, StaticConifg};
use crate::persist::doc::{dec_adl, dec_allow_deny, dec_allow_type, dec_api_service,
    dec_app_config, dec_base_route, dec_header_item, dec_hv, dec_i32v, dec_liveness_config,
    dec_matcher, dec_opt_adl, dec_opt_lc, dec_opt_matcher, dec_opt_string, dec_route,
    dec_route_back, dec_service_config, dec_service_type, dec_static_config, dec_strategy,
    dec_u64v, dec_weight_item, eat, lemma_skip_add};
use crate::persist::primitives::{dec_number, dec_string, dec_string_body, digit_run};
use crate::persist::seqs::{dec_list, dec_list_items};
use crate::persist::views::{allow_deny_view, api_service_view, app_config_view, base_route_view,
    header_item_view, hv_view, opt_str_view, route_view, service_config_view, static_config_view,
    strategy_view, weight_item_view, AllowDenyView, ApiServiceView, AppConfigView, BaseRouteView,
    HeaderItemView, HvView, MatcherView, RouteView, ServiceConfigView, StaticConfigView,
    StrategyView, WeightItemView};
use crate::route::{AnomalyDetectionStatus, BaseRoute, HeaderRoute, HeaderRouteNestedItem,
    HeaderValueMappingType, LoadbalancerStrategy, PollBaseRoute, PollRoute, RandomBaseRoute,
    RandomRoute, RegexMatch, SplitSegment, TextMatch, WeightRoute, WeightRouteNestedItem};
use crate::text::{dec_val, digit_val, is_digit, str_matches_at};

verus! {

/// Consume a fixed token at `pos`.
pub(crate) fn parse_eat(s: &str, pos: usize, tok: &str) -> (r: Option<usize>)
    requires
        pos <= s@.len(),
    ensures
        match r {
            Some(p2) => p2 - pos == tok@.len() && p2 <= s@.len() && eat(
                s@.skip(pos as int),
                tok@,
            ) == Some(tok@.len() as int),
            None => eat(s@.skip(pos as int), tok@) is None,
        },
{
    let n = s.unicode_len();
    let m = tok.unicode_len();
    if m > n - pos {
        proof {
            if tok@.is_prefix_of(s@.skip(pos as int)) {
                assert(tok@.len() <= s@.skip(pos as int).len());
            }
        }
        return None;
    }
    let matched = str_matches_at(s, tok, pos);
    proof {
        if matched {
            assert(s@.skip(pos as int).subrange(0, tok@.len() as int) =~= s@.subrange(
                pos as int,
                pos + tok@.len(),
            ));
        } else {
            if tok@.is_prefix_of(s@.skip(pos as int)) {
                assert(s@.subrange(pos as int, pos + tok@.len()) =~= s@.skip(
                    pos as int,
                ).subrange(0, tok@.len() as int));
            }
        }
    }
    if matched {
        Some(pos + m)
    } else {
        None
    }
}

/// Read a quoted string at `pos`, unescaping it.
pub(crate) fn parse_quoted(s: &str, pos: usize) -> (r: Option<(String, usize)>)
    requires
        pos <= s@.len(),
    ensures
        match r {
            Some(t) => pos < t.1 <= s@.len() && dec_string(s@.skip(pos as int)) == Some(
                (t.0@, t.1 - pos as int),
            ),
            None => dec_string(s@.skip(pos as int)) is None,
        },
{
    let n = s.unicode_len();
    if pos >= n || s.get_char(pos) != '"' {
        proof {
            if pos < n {
                assert(s@.skip(pos as int)[0] == s@[pos as int]);
            }
        }
        return None;
    }
    proof {
        assert(s@.skip(pos as int)[0] == '"');
        assert(s@.skip(pos as int).skip(1) =~= s@.skip(pos + 1));
    }
    let mut out = String::new();
    let mut p: usize = pos + 1;
    loop
        invariant
            pos + 1 <= p <= n,
            n == s@.len(),
            pos < n,
            s@.skip(pos as int)[0] == '"',
            s@.skip(pos as int).skip(1) == s@.skip(pos + 1),
            match dec_string_body(s@.skip(p as int)) {
                Some(t) => dec_string_body(s@.skip(pos + 1)) == Some::<(Seq<char>, int)>(
                    (out@ + t.0, (p - pos - 1) + t.1),
                ),
                None => dec_string_body(s@.skip(pos + 1)) is None,
            },
        decreases n - p,
    {
        if p >= n {
            proof {
                assert(s@.skip(p as int).len() == 0);
            }
            return None;
        }
        let c = s.get_char(p);
        proof {
            assert(s@.skip(p as int)[0] == s@[p as int]);
        }
        if c == '"' {
            proof {
                assert(dec_string_body(s@.skip(p as int)) == Some::<(Seq<char>, int)>(
                    (Seq::empty(), 1int),
                ));
                assert(out@ + Seq::<char>::empty() =~= out@);
            }
            return Some((out, p + 1));
        } else if c == '\\' {
            if p + 1 >= n {
                proof {
                    assert(s@.skip(p as int).len() < 2);
                }
                return None;
            }
            let lit = s.substring_char(p + 1, p + 2);
            let ghost prev = out@;
            out.append(lit);
            proof {
                assert(s@.skip(p as int).skip(2) =~= s@.skip(p + 2));
                assert(lit@ =~= seq![s@[p + 1]]);
                assert(s@.skip(p as int)[1] == s@[p + 1]);
                assert(out@ =~= prev + seq![s@[p + 1]]);
                match dec_string_body(s@.skip(p + 2)) {
                    Some(t) => {
                        assert(prev + (seq![s@[p + 1]] + t.0) =~= out@ + t.0);
                    },
                    None => {},
                }
            }
            p = p + 2;
        } else {
            let lit = s.substring_char(p, p + 1);
            let ghost prev = out@;
            out.append(lit);
            proof {
                assert(s@.skip(p as int).skip(1) =~= s@.skip(p + 1));
                assert(lit@ =~= seq![s@[p as int]]);
                assert(out@ =~= prev + seq![s@[p as int]]);
                match dec_string_body(s@.skip(p + 1)) {
                    Some(t) => {
                        assert(prev + (seq![s@[p as int]] + t.0) =~= out@ + t.0);
                    },
                    None => {},
                }
            }
            p = p + 1;
        }
    }
}

/// Whether the character at `k` is a decimal digit.
fn is_digit_char_at(s: &str, k: usize) -> (r: bool)
    requires
        k < s@.len(),
    ensures
        r == is_digit(s@[k as int]),
{
    let u = s.get_char(k) as u32;
    48 <= u && u <= 57
}

/// Read an unsigned decimal number of at most `bound` at `pos`.
pub(crate) fn parse_number(s: &str, pos: usize, bound: u64) -> (r: Option<(u64, usize)>)
    requires
        pos <= s@.len(),
    ensures
        match r {
            Some(t) => pos < t.1 <= s@.len() && t.0 <= bound && dec_number(
                s@.skip(pos as int),
                bound as int,
            ) == Some((t.0 as int, t.1 - pos as int)),
            None => dec_number(s@.skip(pos as int), bound as int) is None,
        },
{
    let n = s.unicode_len();
    let mut k: usize = pos;
    let mut acc: u64 = 0;
    let mut over: bool = false;
    while k < n && is_digit_char_at(s, k)
        invariant
            pos <= k <= n,
            n == s@.len(),
            forall|j: int| pos <= j < k ==> is_digit(#[trigger] s@[j]),
            digit_run(s@.skip(pos as int)) == (k - pos) + digit_run(s@.skip(k as int)),
            !over ==> acc as int == dec_val(s@.subrange(pos as int, k as int)) && acc <= bound,
            over ==> dec_val(s@.subrange(pos as int, k as int)) > bound,
        decreases n - k,
    {
        let c = s.get_char(k);
        let d: u64 = (c as u32 - 48) as u64;
        proof {
            assert(is_digit(s@[k as int]));
            assert(s@.skip(k as int)[0] == s@[k as int]);
            assert(s@.skip(k as int).skip(1) =~= s@.skip(k + 1));
            assert(s@.subrange(pos as int, k + 1).drop_last() =~= s@.subrange(
                pos as int,
                k as int,
            ));
            assert(s@.subrange(pos as int, k + 1).last() == s@[k as int]);
            assert(digit_val(s@[k as int]) == d as int);
        }
        if over {
            proof {
                assert(dec_val(s@.subrange(pos as int, k + 1)) == dec_val(
                    s@.subrange(pos as int, k as int),
                ) * 10 + d as int);
            }
        } else {
            let wide: u128 = (acc as u128) * 10 + (d as u128);
            if wide > bound as u128 {
                over = true;
            } else {
                acc = wide as u64;
            }
        }
        k = k + 1;
    }
    proof {
        if k < n {
            assert(s@.skip(k as int)[0] == s@[k as int]);
            assert(!is_digit(s@[k as int]));
        }
        assert(digit_run(s@.skip(k as int)) == 0);
        assert(digit_run(s@.skip(pos as int)) == k - pos);
        assert(s@.skip(pos as int).subrange(0, (k - pos) as int) =~= s@.subrange(
            pos as int,
            k as int,
        ));
    }
    if k == pos {
        return None;
    }
    if s.get_char(pos) == '0' && k - pos > 1 {
        proof {
            assert(s@.skip(pos as int)[0] == s@[pos as int]);
        }
        return None;
    }
    proof {
        assert(s@.skip(pos as int)[0] == s@[pos as int]);
    }
    if over {
        return None;
    }
    Some((acc, k))
}

/// Read a signed 32-bit decimal number at `pos`.
pub(crate) fn parse_i32_at(s: &str, pos: usize) -> (r: Option<(i32, usize)>)
    requires
        pos <= s@.len(),
    ensures
        match r {
            Some(t) => pos < t.1 <= s@.len() && dec_i32v(s@.skip(pos as int)) == Some(
                (t.0 as int, t.1 - pos as int),
            ),
            None => dec_i32v(s@.skip(pos as int)) is None,
        },
{
    let n = s.unicode_len();
    if pos < n && s.get_char(pos) == '-' {
        proof {
            assert(s@.skip(pos as int)[0] == '-');
            assert(s@.skip(pos as int).skip(1) =~= s@.skip(pos + 1));
        }
        match parse_number(s, pos + 1, 0x80000000) {
            Some(t) => {
                if t.0 > 0 {
                    let value: i32 = (0 - (t.0 as i64)) as i32;
                    Some((value, t.1))
                } else {
                    None
                }
            },
            None => None,
        }
    } else {
        proof {
            if pos < n {
                assert(s@.skip(pos as int)[0] == s@[pos as int]);
            }
        }
        match parse_number(s, pos, 0x7FFFFFFF) {
            Some(t) => Some((t.0 as i32, t.1)),
            None => None,
        }
    }
}


/// Read an optional string at `pos`: `null` or a quoted string.
pub(crate) fn parse_opt_string(s: &str, pos: usize) -> (r: Option<(Option<String>, usize)>)
    requires
        pos <= s@.len(),
    ensures
        match r {
            Some(t) => pos < t.1 <= s@.len() && dec_opt_string(s@.skip(pos as int)) == Some(
                (opt_str_view(t.0), t.1 - pos as int),
            ),
            None => dec_opt_string(s@.skip(pos as int)) is None,
        },
{
    match parse_eat(s, pos, "null") {
        Some(p2) => {
            proof {
                reveal_strlit("null");
                assert("null"@ =~= seq!['n', 'u', 'l', 'l']);
            }
            Some((None, p2))
        },
        None => {
            proof {
                reveal_strlit("null");
                assert("null"@ =~= seq!['n', 'u', 'l', 'l']);
            }
            match parse_quoted(s, pos) {
                Some(t) => Some((Some(t.0), t.1)),
                None => None,
            }
        },
    }
}

/// Read a service type tag at `pos`.
pub(crate) fn parse_service_type(s: &str, pos: usize) -> (r: Option<(ServiceType, usize)>)
    requires
        pos <= s@.len(),
    ensures
        match r {
            Some(t) => pos < t.1 <= s@.len() && dec_service_type(s@.skip(pos as int)) == Some(
                (t.0, t.1 - pos as int),
            ),
            None => dec_service_type(s@.skip(pos as int)) is None,
        },
{
    if let Some(p2) = parse_eat(s, pos, "\"Http\"") {
        proof {
            reveal(dec_service_type);
            reveal_strlit("\"Http\"");
            assert(dec_service_type(s@.skip(pos as int)) == Some::<(ServiceType, int)>(
                (ServiceType::Http, (p2 - pos) as int),
            ));
        }
        return Some((ServiceType::Http, p2));
    }
    if let Some(p2) = parse_eat(s, pos, "\"Https\"") {
        proof {
            reveal(dec_service_type);
            reveal_strlit("\"Https\"");
            assert(dec_service_type(s@.skip(pos as int)) == Some::<(ServiceType, int)>(
                (ServiceType::Https, (p2 - pos) as int),
            ));
        }
        return Some((ServiceType::Https, p2));
    }
    if let Some(p2) = parse_eat(s, pos, "\"Tcp\"") {
        proof {
            reveal(dec_service_type);
            reveal_strlit("\"Tcp\"");
            assert(dec_service_type(s@.skip(pos as int)) == Some::<(ServiceType, int)>(
                (ServiceType::Tcp, (p2 - pos) as int),
            ));
        }
        return Some((ServiceType::Tcp, p2));
    }
    if let Some(p2) = parse_eat(s, pos, "\"Http2\"") {
        proof {
            reveal(dec_service_type);
            reveal_strlit("\"Http2\"");
            assert(dec_service_type(s@.skip(pos as int)) == Some::<(ServiceType, int)>(
                (ServiceType::Http2, (p2 - pos) as int),
            ));
        }
        return Some((ServiceType::Http2, p2));
    }
    if let Some(p2) = parse_eat(s, pos, "\"Http2Tls\"") {
        proof {
            reveal(dec_service_type);
            reveal_strlit("\"Http2Tls\"");
            assert(dec_service_type(s@.skip(pos as int)) == Some::<(ServiceType, int)>(
                (ServiceType::Http2Tls, (p2 - pos) as int),
            ));
        }
        return Some((ServiceType::Http2Tls, p2));
    }
    proof {
        reveal(dec_service_type);
        assert(dec_service_type(s@.skip(pos as int)) is None);
    }
    None
}

/// Read an allow/deny kind tag at `pos`.
pub(crate) fn parse_allow_type(s: &str, pos: usize) -> (r: Option<(AllowType, usize)>)
    requires
        pos <= s@.len(),
    ensures
        match r {
            Some(t) => pos < t.1 <= s@.len() && dec_allow_type(s@.skip(pos as int)) == Some(
                (t.0, t.1 - pos as int),
            ),
            None => dec_allow_type(s@.skip(pos as int)) is None,
        },
{
    if let Some(p2) = parse_eat(s, pos, "\"AllowAll\"") {
        proof {
            reveal(dec_allow_type);
            reveal_strlit("\"AllowAll\"");
            assert(dec_allow_type(s@.skip(pos as int)) == Some::<(AllowType, int)>(
                (AllowType::AllowAll, (p2 - pos) as int),
            ));
        }
        return Some((AllowType::AllowAll, p2));
    }
    if let Some(p2) = parse_eat(s, pos, "\"DenyAll\"") {
        proof {
            reveal(dec_allow_type);
            reveal_strlit("\"DenyAll\"");
            assert(dec_allow_type(s@.skip(pos as int)) == Some::<(AllowType, int)>(
                (AllowType::DenyAll, (p2 - pos) as int),
            ));
        }
        return Some((AllowType::DenyAll, p2));
    }
    if let Some(p2) = parse_eat(s, pos, "\"Allow\"") {
        proof {
            reveal(dec_allow_type);
            reveal_strlit("\"Allow\"");
            assert(dec_allow_type(s@.skip(pos as int)) == Some::<(AllowType, int)>(
                (AllowType::Allow, (p2 - pos) as int),
            ));
        }
        return Some((AllowType::Allow, p2));
    }
    if let Some(p2) = parse_eat(s, pos, "\"Deny\"") {
        proof {
            reveal(dec_allow_type);
            reveal_strlit("\"Deny\"");
            assert(dec_allow_type(s@.skip(pos as int)) == Some::<(AllowType, int)>(
                (AllowType::Deny, (p2 - pos) as int),
            ));
        }
        return Some((AllowType::Deny, p2));
    }
    proof {
        reveal(dec_allow_type);
        assert(dec_allow_type(s@.skip(pos as int)) is None);
    }
    None
}

/// Read one upstream target at `pos`, with fresh health state.
pub(crate) fn parse_base_route(s: &str, pos: usize) -> (r: Option<(BaseRoute, usize)>)
    requires
        pos <= s@.len(),
    ensures
        match r {
            Some(t) => pos < t.1 <= s@.len() && dec_base_route(s@.skip(pos as int)) == Some(
                (base_route_view(t.0), t.1 - pos as int),
            ),
            None => dec_base_route(s@.skip(pos as int)) is None,
        },
{
    let ghost s0 = s@.skip(pos as int);
    let p1 = match parse_eat(s, pos, "{\"endpoint\":") {
        Some(p) => p,
        None => {
            proof {
                reveal(dec_base_route);
                assert(dec_base_route(s0) is None);
            }
            return None;
        },
    };
    proof {
        lemma_skip_add(s@, pos as int, (p1 - pos) as int);
    }
    let t1 = match parse_quoted(s, p1) {
        Some(t) => t,
        None => {
            proof {
                reveal(dec_base_route);
                assert(dec_base_route(s0) is None);
            }
            return None;
        },
    };
    let p2 = match parse_eat(s, t1.1, ",\"try_file\":") {
        Some(p) => p,
        None => {
            proof {
                reveal(dec_base_route);
                lemma_skip_add(s@, pos as int, (t1.1 - pos) as int);
                assert(dec_base_route(s0) is None);
            }
            return None;
        },
    };
    proof {
        lemma_skip_add(s@, pos as int, (t1.1 - pos) as int);
        lemma_skip_add(s@, pos as int, (p2 - pos) as int);
    }
    let t2 = match parse_opt_string(s, p2) {
        Some(t) => t,
        None => {
            proof {
                reveal(dec_base_route);
                assert(dec_base_route(s0) is None);
            }
            return None;
        },
    };
    let p3 = match parse_eat(s, t2.1, ",\"base_route_id\":") {
        Some(p) => p,
        None => {
            proof {
                reveal(dec_base_route);
                lemma_skip_add(s@, pos as int, (t2.1 - pos) as int);
                assert(dec_base_route(s0) is None);
            }
            return None;
        },
    };
    proof {
        lemma_skip_add(s@, pos as int, (t2.1 - pos) as int);
        lemma_skip_add(s@, pos as int, (p3 - pos) as int);
    }
    let t3 = match parse_quoted(s, p3) {
        Some(t) => t,
        None => {
            proof {
                reveal(dec_base_route);
                assert(dec_base_route(s0) is None);
            }
            return None;
        },
    };
    let p4 = match parse_eat(s, t3.1, "}") {
        Some(p) => p,
        None => {
            proof {
                reveal(dec_base_route);
                lemma_skip_add(s@, pos as int, (t3.1 - pos) as int);
                assert(dec_base_route(s0) is None);
            }
            return None;
        },
    };
    let route = BaseRoute {
        endpoint: t1.0,
        try_file: t2.0,
        base_route_id: t3.0,
        is_alive: None,
        anomaly_detection_status: AnomalyDetectionStatus { consecutive_5xx: 0 },
    };
    proof {
        reveal(dec_base_route);
        lemma_skip_add(s@, pos as int, (t3.1 - pos) as int);
        assert(dec_base_route(s0) == Some::<(BaseRouteView, int)>(
            (base_route_view(route), (p4 - pos) as int),
        ));
    }
    Some((route, p4))
}

/// Read a bracketed list of upstream targets at `pos`.
pub(crate) fn parse_base_route_list(s: &str, pos: usize) -> (r: Option<(Vec<BaseRoute>, usize)>)
    requires
        pos <= s@.len(),
    ensures
        match r {
            Some(t) => pos < t.1 <= s@.len() && dec_list(
                s@.skip(pos as int),
                (|s2: Seq<char>| dec_base_route(s2)),
            ) == Some(
                (t.0@.map_values(|b: BaseRoute| base_route_view(b)), t.1 - pos as int),
            ),
            None => dec_list(s@.skip(pos as int), (|s2: Seq<char>| dec_base_route(s2))) is None,
        },
{
    let ghost s0 = s@.skip(pos as int);
    let ghost fd = (|s2: Seq<char>| dec_base_route(s2));
    let n = s.unicode_len();
    if pos >= n || s.get_char(pos) != '[' {
        proof {
            if pos < n {
                assert(s0[0] == s@[pos as int]);
            }
        }
        return None;
    }
    proof {
        assert(s0[0] == '[');
    }
    if pos + 1 < n && s.get_char(pos + 1) == ']' {
        let out: Vec<BaseRoute> = Vec::new();
        proof {
            assert(s0[1] == ']');
            assert(out@.map_values(|b: BaseRoute| base_route_view(b)) =~= Seq::<
                BaseRouteView,
            >::empty());
        }
        return Some((out, pos + 2));
    }
    proof {
        if pos + 1 < n {
            assert(s0[1] == s@[pos + 1]);
        }
        assert(!(s0.len() >= 2 && s0[1] == ']'));
        assert(s0.skip(1) =~= s@.skip(pos + 1));
    }
    let mut out: Vec<BaseRoute> = Vec::new();
    let mut p: usize = pos + 1;
    loop
        invariant
            pos + 1 <= p <= n,
            n == s@.len(),
            s0 == s@.skip(pos as int),
            fd == (|s2: Seq<char>| dec_base_route(s2)),
            s0.len() >= 1 && s0[0] == '[',
            !(s0.len() >= 2 && s0[1] == ']'),
            s0.skip(1) == s@.skip(pos + 1),
            match dec_list_items(s@.skip(p as int), fd) {
                Some(u) => dec_list_items(s@.skip(pos + 1), fd) == Some::<
                    (Seq<BaseRouteView>, int),
                >(
                    (
                        out@.map_values(|b: BaseRoute| base_route_view(b)) + u.0,
                        (p - pos - 1) + u.1,
                    ),
                ),
                None => dec_list_items(s@.skip(pos + 1), fd) is None,
            },
        decreases n - p,
    {
        let item = match parse_base_route(s, p) {
            Some(t) => t,
            None => {
                proof {
                    assert(fd(s@.skip(p as int)) is None);
                    assert(dec_list_items(s@.skip(p as int), fd) is None);
                }
                return None;
            },
        };
        proof {
            assert(fd(s@.skip(p as int)) == Some::<(BaseRouteView, int)>(
                (base_route_view(item.0), (item.1 - p) as int),
            ));
        }
        if item.1 >= n {
            proof {
                assert(dec_list_items(s@.skip(p as int), fd) is None);
            }
            return None;
        }
        let c = s.get_char(item.1);
        proof {
            assert(s@.skip(p as int)[(item.1 - p) as int] == s@[item.1 as int]);
        }
        if c == ']' {
            let ghost prev = out@.map_values(|b: BaseRoute| base_route_view(b));
            out.push(item.0);
            proof {
                assert(dec_list_items(s@.skip(p as int), fd) == Some::<
                    (Seq<BaseRouteView>, int),
                >((seq![base_route_view(item.0)], (item.1 - p) + 1)));
                assert(out@.map_values(|b: BaseRoute| base_route_view(b)) =~= prev + seq![
                    base_route_view(item.0),
                ]);
                assert(prev + seq![base_route_view(item.0)] =~= prev + (seq![
                    base_route_view(item.0),
                ] + Seq::<BaseRouteView>::empty()));
                assert(dec_list(s0, fd) == Some::<(Seq<BaseRouteView>, int)>(
                    (
                        out@.map_values(|b: BaseRoute| base_route_view(b)),
                        (item.1 + 1 - pos) as int,
                    ),
                ));
            }
            return Some((out, item.1 + 1));
        } else if c == ',' {
            let ghost prev = out@.map_values(|b: BaseRoute| base_route_view(b));
            out.push(item.0);
            proof {
                assert(s@.skip(p as int).skip((item.1 - p) + 1) =~= s@.skip(item.1 + 1));
                assert(out@.map_values(|b: BaseRoute| base_route_view(b)) =~= prev + seq![
                    base_route_view(item.0),
                ]);
                match dec_list_items(s@.skip(item.1 + 1), fd) {
                    Some(u) => {
                        assert(prev + (seq![base_route_view(item.0)] + u.0) =~= (prev + seq![
                            base_route_view(item.0),
                        ]) + u.0);
                    },
                    None => {},
                }
            }
            p = item.1 + 1;
        } else {
            proof {
                assert(dec_list_items(s@.skip(p as int), fd) is None);
            }
            return None;
        }
    }
}


/// Read a bracketed list of strings at `pos`.
pub(crate) fn parse_string_list(s: &str, pos: usize) -> (r: Option<(Vec<String>, usize)>)
    requires
        pos <= s@.len(),
    ensures
        match r {
            Some(t) => pos < t.1 <= s@.len() && dec_list(
                s@.skip(pos as int),
                (|s2: Seq<char>| dec_string(s2)),
            ) == Some((t.0@.map_values(|x: String| x@), t.1 - pos as int)),
            None => dec_list(s@.skip(pos as int), (|s2: Seq<char>| dec_string(s2))) is None,
        },
{
    let ghost s0 = s@.skip(pos as int);
    let ghost fd = (|s2: Seq<char>| dec_string(s2));
    let n = s.unicode_len();
    if pos >= n || s.get_char(pos) != '[' {
        proof {
            if pos < n {
                assert(s0[0] == s@[pos as int]);
            }
        }
        return None;
    }
    proof {
        assert(s0[0] == '[');
    }
    if pos + 1 < n && s.get_char(pos + 1) == ']' {
        let out: Vec<String> = Vec::new();
        proof {
            assert(s0[1] == ']');
            assert(out@.map_values(|x: String| x@) =~= Seq::<Seq<char>>::empty());
        }
        return Some((out, pos + 2));
    }
    proof {
        if pos + 1 < n {
            assert(s0[1] == s@[pos + 1]);
        }
        assert(!(s0.len() >= 2 && s0[1] == ']'));
        assert(s0.skip(1) =~= s@.skip(pos + 1));
    }
    let mut out: Vec<String> = Vec::new();
    let mut p: usize = pos + 1;
    loop
        invariant
            pos + 1 <= p <= n,
            n == s@.len(),
            s0 == s@.skip(pos as int),
            fd == (|s2: Seq<char>| dec_string(s2)),
            s0.len() >= 1 && s0[0] == '[',
            !(s0.len() >= 2 && s0[1] == ']'),
            s0.skip(1) == s@.skip(pos + 1),
            match dec_list_items(s@.skip(p as int), fd) {
                Some(u) => dec_list_items(s@.skip(pos + 1), fd) == Some::<(Seq<Seq<char>>, int)>(
                    (out@.map_values(|x: String| x@) + u.0, (p - pos - 1) + u.1),
                ),
                None => dec_list_items(s@.skip(pos + 1), fd) is None,
            },
        decreases n - p,
    {
        let item = match parse_quoted(s, p) {
            Some(t) => t,
            None => {
                proof {
                    assert(fd(s@.skip(p as int)) is None);
                    assert(dec_list_items(s@.skip(p as int), fd) is None);
                }
                return None;
            },
        };
        let ghost iv = (|x: String| x@)(item.0);
        proof {
            assert(fd(s@.skip(p as int)) == Some::<(Seq<char>, int)>((iv, (item.1 - p) as int)));
        }
        if item.1 >= n {
            proof {
                assert(dec_list_items(s@.skip(p as int), fd) is None);
            }
            return None;
        }
        let c = s.get_char(item.1);
        proof {
            assert(s@.skip(p as int)[(item.1 - p) as int] == s@[item.1 as int]);
        }
        if c == ']' {
            let ghost prev = out@.map_values(|x: String| x@);
            out.push(item.0);
            proof {
                assert(dec_list_items(s@.skip(p as int), fd) == Some::<(Seq<Seq<char>>, int)>(
                    (seq![iv], (item.1 - p) + 1),
                ));
                assert(out@.map_values(|x: String| x@) =~= prev + seq![iv]);
                assert(prev + seq![iv] =~= prev + (seq![iv] + Seq::<Seq<char>>::empty()));
                assert(dec_list(s0, fd) == Some::<(Seq<Seq<char>>, int)>(
                    (out@.map_values(|x: String| x@), (item.1 + 1 - pos) as int),
                ));
            }
            return Some((out, item.1 + 1));
        } else if c == ',' {
            let ghost prev = out@.map_values(|x: String| x@);
            out.push(item.0);
            proof {
                assert(s@.skip(p as int).skip((item.1 - p) + 1) =~= s@.skip(item.1 + 1));
                assert(out@.map_values(|x: String| x@) =~= prev + seq![iv]);
                match dec_list_items(s@.skip(item.1 + 1), fd) {
                    Some(u) => {
                        assert(prev + (seq![iv] + u.0) =~= (prev + seq![iv]) + u.0);
                    },
                    None => {},
                }
            }
            p = item.1 + 1;
        } else {
            proof {
                assert(dec_list_items(s@.skip(p as int), fd) is None);
            }
            return None;
        }
    }
}

/// Read one weighted target at `pos`.
pub(crate) fn parse_weight_item(s: &str, pos: usize) -> (r: Option<(WeightRouteNestedItem, usize)>)
    requires
        pos <= s@.len(),
    ensures
        match r {
            Some(t) => pos < t.1 <= s@.len() && dec_weight_item(s@.skip(pos as int)) == Some(
                (weight_item_view(t.0), t.1 - pos as int),
            ),
            None => dec_weight_item(s@.skip(pos as int)) is None,
        },
{
    let ghost s0 = s@.skip(pos as int);
    let p1 = match parse_eat(s, pos, "{\"base_route\":") {
        Some(p) => p,
        None => {
            proof {
                reveal(dec_weight_item);
                assert(dec_weight_item(s0) is None);
            }
            return None;
        },
    };
    proof {
        lemma_skip_add(s@, pos as int, (p1 - pos) as int);
    }
    let t1 = match parse_base_route(s, p1) {
        Some(t) => t,
        None => {
            proof {
                reveal(dec_weight_item);
                assert(dec_weight_item(s0) is None);
            }
            return None;
        },
    };
    proof {
        lemma_skip_add(s@, pos as int, (t1.1 - pos) as int);
    }
    let p2 = match parse_eat(s, t1.1, ",\"weight\":") {
        Some(p) => p,
        None => {
            proof {
                reveal(dec_weight_item);
                assert(dec_weight_item(s0) is None);
            }
            return None;
        },
    };
    proof {
        lemma_skip_add(s@, pos as int, (p2 - pos) as int);
    }
    let t2 = match parse_number(s, p2, u64::MAX) {
        Some(t) => t,
        None => {
            proof {
                reveal(dec_weight_item);
                assert(dec_weight_item(s0) is None);
            }
            return None;
        },
    };
    proof {
        lemma_skip_add(s@, pos as int, (t2.1 - pos) as int);
    }
    let p3 = match parse_eat(s, t2.1, "}") {
        Some(p) => p,
        None => {
            proof {
                reveal(dec_weight_item);
                assert(dec_weight_item(s0) is None);
            }
            return None;
        },
    };
    let item = WeightRouteNestedItem { base_route: t1.0, weight: t2.0 };
    proof {
        reveal(dec_weight_item);
        assert(dec_weight_item(s0) == Some::<(WeightItemView, int)>(
            (weight_item_view(item), (p3 - pos) as int),
        ));
    }
    Some((item, p3))
}

/// Read a bracketed list of weighted targets at `pos`.
pub(crate) fn parse_weight_item_list(s: &str, pos: usize) -> (r: Option<(Vec<WeightRouteNestedItem>, usize)>)
    requires
        pos <= s@.len(),
    ensures
        match r {
            Some(t) => pos < t.1 <= s@.len() && dec_list(
                s@.skip(pos as int),
                (|s2: Seq<char>| dec_weight_item(s2)),
            ) == Some((t.0@.map_values(|t2: WeightRouteNestedItem| weight_item_view(t2)), t.1 - pos as int)),
            None => dec_list(s@.skip(pos as int), (|s2: Seq<char>| dec_weight_item(s2))) is None,
        },
{
    let ghost s0 = s@.skip(pos as int);
    let ghost fd = (|s2: Seq<char>| dec_weight_item(s2));
    let n = s.unicode_len();
    if pos >= n || s.get_char(pos) != '[' {
        proof {
            if pos < n {
                assert(s0[0] == s@[pos as int]);
            }
        }
        return None;
    }
    proof {
        assert(s0[0] == '[');
    }
    if pos + 1 < n && s.get_char(pos + 1) == ']' {
        let out: Vec<WeightRouteNestedItem> = Vec::new();
        proof {
            assert(s0[1] == ']');
            assert(out@.map_values(|t2: WeightRouteNestedItem| weight_item_view(t2)) =~= Seq::<WeightItemView>::empty());
        }
        return Some((out, pos + 2));
    }
    proof {
        if pos + 1 < n {
            assert(s0[1] == s@[pos + 1]);
        }
        assert(!(s0.len() >= 2 && s0[1] == ']'));
        assert(s0.skip(1) =~= s@.skip(pos + 1));
    }
    let mut out: Vec<WeightRouteNestedItem> = Vec::new();
    let mut p: usize = pos + 1;
    loop
        invariant
            pos + 1 <= p <= n,
            n == s@.len(),
            s0 == s@.skip(pos as int),
            fd == (|s2: Seq<char>| dec_weight_item(s2)),
            s0.len() >= 1 && s0[0] == '[',
            !(s0.len() >= 2 && s0[1] == ']'),
            s0.skip(1) == s@.skip(pos + 1),
            match dec_list_items(s@.skip(p as int), fd) {
                Some(u) => dec_list_items(s@.skip(pos + 1), fd) == Some::<(Seq<WeightItemView>, int)>(
                    (out@.map_values(|t2: WeightRouteNestedItem| weight_item_view(t2)) + u.0, (p - pos - 1) + u.1),
                ),
                None => dec_list_items(s@.skip(pos + 1), fd) is None,
            },
        decreases n - p,
    {
        let item = match parse_weight_item(s, p) {
            Some(t) => t,
            None => {
                proof {
                    assert(fd(s@.skip(p as int)) is None);
                    assert(dec_list_items(s@.skip(p as int), fd) is None);
                }
                return None;
            },
        };
        let ghost iv = (|t2: WeightRouteNestedItem| weight_item_view(t2))(item.0);
        proof {
            assert(fd(s@.skip(p as int)) == Some::<(WeightItemView, int)>((iv, (item.1 - p) as int)));
        }
        if item.1 >= n {
            proof {
                assert(dec_list_items(s@.skip(p as int), fd) is None);
            }
            return None;
        }
        let c = s.get_char(item.1);
        proof {
            assert(s@.skip(p as int)[(item.1 - p) as int] == s@[item.1 as int]);
        }
        if c == ']' {
            let ghost prev = out@.map_values(|t2: WeightRouteNestedItem| weight_item_view(t2));
            out.push(item.0);
            proof {
                assert(dec_list_items(s@.skip(p as int), fd) == Some::<(Seq<WeightItemView>, int)>(
                    (seq![iv], (item.1 - p) + 1),
                ));
                assert(out@.map_values(|t2: WeightRouteNestedItem| weight_item_view(t2)) =~= prev + seq![iv]);
                assert(prev + seq![iv] =~= prev + (seq![iv] + Seq::<WeightItemView>::empty()));
                assert(dec_list(s0, fd) == Some::<(Seq<WeightItemView>, int)>(
                    (out@.map_values(|t2: WeightRouteNestedItem| weight_item_view(t2)), (item.1 + 1 - pos) as int),
                ));
            }
            return Some((out, item.1 + 1));
        } else if c == ',' {
            let ghost prev = out@.map_values(|t2: WeightRouteNestedItem| weight_item_view(t2));
            out.push(item.0);
            proof {
                assert(s@.skip(p as int).skip((item.1 - p) + 1) =~= s@.skip(item.1 + 1));
                assert(out@.map_values(|t2: WeightRouteNestedItem| weight_item_view(t2)) =~= prev + seq![iv]);
                match dec_list_items(s@.skip(item.1 + 1), fd) {
                    Some(u) => {
                        assert(prev + (seq![iv] + u.0) =~= (prev + seq![iv]) + u.0);
                    },
                    None => {},
                }
            }
            p = item.1 + 1;
        } else {
            proof {
                assert(dec_list_items(s@.skip(p as int), fd) is None);
            }
            return None;
        }
    }
}

/// Read one header rule at `pos`.
pub(crate) fn parse_hv(s: &str, pos: usize) -> (r: Option<(HeaderValueMappingType, usize)>)
    requires
        pos <= s@.len(),
    ensures
        match r {
            Some(t) => pos < t.1 <= s@.len() && dec_hv(s@.skip(pos as int)) == Some(
                (hv_view(t.0), t.1 - pos as int),
            ),
            None => dec_hv(s@.skip(pos as int)) is None,
        },
{
    let ghost s0 = s@.skip(pos as int);
    if let Some(p1) = parse_eat(s, pos, "{\"type\":\"Regex\",\"value\":") {
        proof {
            lemma_skip_add(s@, pos as int, (p1 - pos) as int);
        }
        let t1 = match parse_quoted(s, p1) {
            Some(t) => t,
            None => {
                proof {
                    reveal(dec_hv);
                    assert(dec_hv(s0) is None);
                }
                return None;
            },
        };
        proof {
            lemma_skip_add(s@, pos as int, (t1.1 - pos) as int);
        }
        let p2 = match parse_eat(s, t1.1, "}") {
            Some(p) => p,
            None => {
                proof {
                    reveal(dec_hv);
                    assert(dec_hv(s0) is None);
                }
                return None;
            },
        };
        let rule = HeaderValueMappingType::Regex(RegexMatch { value: t1.0 });
        proof {
            reveal(dec_hv);
            assert(dec_hv(s0) == Some::<(HvView, int)>((hv_view(rule), (p2 - pos) as int)));
        }
        return Some((rule, p2));
    }
    if let Some(p1) = parse_eat(s, pos, "{\"type\":\"Text\",\"value\":") {
        proof {
            lemma_skip_add(s@, pos as int, (p1 - pos) as int);
        }
        let t1 = match parse_quoted(s, p1) {
            Some(t) => t,
            None => {
                proof {
                    reveal(dec_hv);
                    assert(dec_hv(s0) is None);
                }
                return None;
            },
        };
        proof {
            lemma_skip_add(s@, pos as int, (t1.1 - pos) as int);
        }
        let p2 = match parse_eat(s, t1.1, "}") {
            Some(p) => p,
            None => {
                proof {
                    reveal(dec_hv);
                    assert(dec_hv(s0) is None);
                }
                return None;
            },
        };
        let rule = HeaderValueMappingType::Text(TextMatch { value: t1.0 });
        proof {
            reveal(dec_hv);
            assert(dec_hv(s0) == Some::<(HvView, int)>((hv_view(rule), (p2 - pos) as int)));
        }
        return Some((rule, p2));
    }
    if let Some(p1) = parse_eat(s, pos, "{\"type\":\"Split\",\"split_by\":") {
        proof {
            lemma_skip_add(s@, pos as int, (p1 - pos) as int);
        }
        let t1 = match parse_quoted(s, p1) {
            Some(t) => t,
            None => {
                proof {
                    reveal(dec_hv);
                    assert(dec_hv(s0) is None);
                }
                return None;
            },
        };
        proof {
            lemma_skip_add(s@, pos as int, (t1.1 - pos) as int);
        }
        let p2 = match parse_eat(s, t1.1, ",\"split_list\":") {
            Some(p) => p,
            None => {
                proof {
                    reveal(dec_hv);
                    assert(dec_hv(s0) is None);
                }
                return None;
            },
        };
        proof {
            lemma_skip_add(s@, pos as int, (p2 - pos) as int);
        }
        let t2 = match parse_string_list(s, p2) {
            Some(t) => t,
            None => {
                proof {
                    reveal(dec_hv);
                    assert(dec_hv(s0) is None);
                }
                return None;
            },
        };
        proof {
            lemma_skip_add(s@, pos as int, (t2.1 - pos) as int);
        }
        let p3 = match parse_eat(s, t2.1, "}") {
            Some(p) => p,
            None => {
                proof {
                    reveal(dec_hv);
                    assert(dec_hv(s0) is None);
                }
                return None;
            },
        };
        let rule = HeaderValueMappingType::Split(SplitSegment {
            split_by: t1.0,
            split_list: t2.0,
        });
        proof {
            reveal(dec_hv);
            assert(dec_hv(s0) == Some::<(HvView, int)>((hv_view(rule), (p3 - pos) as int)));
        }
        return Some((rule, p3));
    }
    proof {
        reveal(dec_hv);
        assert(dec_hv(s0) is None);
    }
    None
}

/// Read one header-routed target at `pos`.
pub(crate) fn parse_header_item(s: &str, pos: usize) -> (r: Option<(HeaderRouteNestedItem, usize)>)
    requires
        pos <= s@.len(),
    ensures
        match r {
            Some(t) => pos < t.1 <= s@.len() && dec_header_item(s@.skip(pos as int)) == Some(
                (header_item_view(t.0), t.1 - pos as int),
            ),
            None => dec_header_item(s@.skip(pos as int)) is None,
        },
{
    let ghost s0 = s@.skip(pos as int);
    let p1 = match parse_eat(s, pos, "{\"base_route\":") {
        Some(p) => p,
        None => {
            proof {
                reveal(dec_header_item);
                assert(dec_header_item(s0) is None);
            }
            return None;
        },
    };
    proof {
        lemma_skip_add(s@, pos as int, (p1 - pos) as int);
    }
    let t1 = match parse_base_route(s, p1) {
        Some(t) => t,
        None => {
            proof {
                reveal(dec_header_item);
                assert(dec_header_item(s0) is None);
            }
            return None;
        },
    };
    proof {
        lemma_skip_add(s@, pos as int, (t1.1 - pos) as int);
    }
    let p2 = match parse_eat(s, t1.1, ",\"header_key\":") {
        Some(p) => p,
        None => {
            proof {
                reveal(dec_header_item);
                assert(dec_header_item(s0) is None);
            }
            return None;
        },
    };
    proof {
        lemma_skip_add(s@, pos as int, (p2 - pos) as int);
    }
    let t2 = match parse_quoted(s, p2) {
        Some(t) => t,
        None => {
            proof {
                reveal(dec_header_item);
                assert(dec_header_item(s0) is None);
            }
            return None;
        },
    };
    proof {
        lemma_skip_add(s@, pos as int, (t2.1 - pos) as int);
    }
    let p3 = match parse_eat(s, t2.1, ",\"header_value_mapping_type\":") {
        Some(p) => p,
        None => {
            proof {
                reveal(dec_header_item);
                assert(dec_header_item(s0) is None);
            }
            return None;
        },
    };
    proof {
        lemma_skip_add(s@, pos as int, (p3 - pos) as int);
    }
    let t3 = match parse_hv(s, p3) {
        Some(t) => t,
        None => {
            proof {
                reveal(dec_header_item);
                assert(dec_header_item(s0) is None);
            }
            return None;
        },
    };
    proof {
        lemma_skip_add(s@, pos as int, (t3.1 - pos) as int);
    }
    let p4 = match parse_eat(s, t3.1, "}") {
        Some(p) => p,
        None => {
            proof {
                reveal(dec_header_item);
                assert(dec_header_item(s0) is None);
            }
            return None;
        },
    };
    let item = HeaderRouteNestedItem {
        base_route: t1.0,
        header_key: t2.0,
        header_value_mapping_type: t3.0,
    };
    proof {
        reveal(dec_header_item);
        assert(dec_header_item(s0) == Some::<(HeaderItemView, int)>(
            (header_item_view(item), (p4 - pos) as int),
        ));
    }
    Some((item, p4))
}

/// Read a bracketed list of header-routed targets at `pos`.
pub(crate) fn parse_header_item_list(s: &str, pos: usize) -> (r: Option<(Vec<HeaderRouteNestedItem>, usize)>)
    requires
        pos <= s@.len(),
    ensures
        match r {
            Some(t) => pos < t.1 <= s@.len() && dec_list(
                s@.skip(pos as int),
                (|s2: Seq<char>| dec_header_item(s2)),
            ) == Some((t.0@.map_values(|t2: HeaderRouteNestedItem| header_item_view(t2)), t.1 - pos as int)),
            None => dec_list(s@.skip(pos as int), (|s2: Seq<char>| dec_header_item(s2))) is None,
        },
{
    let ghost s0 = s@.skip(pos as int);
    let ghost fd = (|s2: Seq<char>| dec_header_item(s2));
    let n = s.unicode_len();
    if pos >= n || s.get_char(pos) != '[' {
        proof {
            if pos < n {
                assert(s0[0] == s@[pos as int]);
            }
        }
        return None;
    }
    proof {
        assert(s0[0] == '[');
    }
    if pos + 1 < n && s.get_char(pos + 1) == ']' {
        let out: Vec<HeaderRouteNestedItem> = Vec::new();
        proof {
            assert(s0[1] == ']');
            assert(out@.map_values(|t2: HeaderRouteNestedItem| header_item_view(t2)) =~= Seq::<HeaderItemView>::empty());
        }
        return Some((out, pos + 2));
    }
    proof {
        if pos + 1 < n {
            assert(s0[1] == s@[pos + 1]);
        }
        assert(!(s0.len() >= 2 && s0[1] == ']'));
        assert(s0.skip(1) =~= s@.skip(pos + 1));
    }
    let mut out: Vec<HeaderRouteNestedItem> = Vec::new();
    let mut p: usize = pos + 1;
    loop
        invariant
            pos + 1 <= p <= n,
            n == s@.len(),
            s0 == s@.skip(pos as int),
            fd == (|s2: Seq<char>| dec_header_item(s2)),
            s0.len() >= 1 && s0[0] == '[',
            !(s0.len() >= 2 && s0[1] == ']'),
            s0.skip(1) == s@.skip(pos + 1),
            match dec_list_items(s@.skip(p as int), fd) {
                Some(u) => dec_list_items(s@.skip(pos + 1), fd) == Some::<(Seq<HeaderItemView>, int)>(
                    (out@.map_values(|t2: HeaderRouteNestedItem| header_item_view(t2)) + u.0, (p - pos - 1) + u.1),
                ),
                None => dec_list_items(s@.skip(pos + 1), fd) is None,
            },
        decreases n - p,
    {
        let item = match parse_header_item(s, p) {
            Some(t) => t,
            None => {
                proof {
                    assert(fd(s@.skip(p as int)) is None);
                    assert(dec_list_items(s@.skip(p as int), fd) is None);
                }
                return None;
            },
        };
        let ghost iv = (|t2: HeaderRouteNestedItem| header_item_view(t2))(item.0);
        proof {
            assert(fd(s@.skip(p as int)) == Some::<(HeaderItemView, int)>((iv, (item.1 - p) as int)));
        }
        if item.1 >= n {
            proof {
                assert(dec_list_items(s@.skip(p as int), fd) is None);
            }
            return None;
        }
        let c = s.get_char(item.1);
        proof {
            assert(s@.skip(p as int)[(item.1 - p) as int] == s@[item.1 as int]);
        }
        if c == ']' {
            let ghost prev = out@.map_values(|t2: HeaderRouteNestedItem| header_item_view(t2));
            out.push(item.0);
            proof {
                assert(dec_list_items(s@.skip(p as int), fd) == Some::<(Seq<HeaderItemView>, int)>(
                    (seq![iv], (item.1 - p) + 1),
                ));
                assert(out@.map_values(|t2: HeaderRouteNestedItem| header_item_view(t2)) =~= prev + seq![iv]);
                assert(prev + seq![iv] =~= prev + (seq![iv] + Seq::<HeaderItemView>::empty()));
                assert(dec_list(s0, fd) == Some::<(Seq<HeaderItemView>, int)>(
                    (out@.map_values(|t2: HeaderRouteNestedItem| header_item_view(t2)), (item.1 + 1 - pos) as int),
                ));
            }
            return Some((out, item.1 + 1));
        } else if c == ',' {
            let ghost prev = out@.map_values(|t2: HeaderRouteNestedItem| header_item_view(t2));
            out.push(item.0);
            proof {
                assert(s@.skip(p as int).skip((item.1 - p) + 1) =~= s@.skip(item.1 + 1));
                assert(out@.map_values(|t2: HeaderRouteNestedItem| header_item_view(t2)) =~= prev + seq![iv]);
                match dec_list_items(s@.skip(item.1 + 1), fd) {
                    Some(u) => {
                        assert(prev + (seq![iv] + u.0) =~= (prev + seq![iv]) + u.0);
                    },
                    None => {},
                }
            }
            p = item.1 + 1;
        } else {
            proof {
                assert(dec_list_items(s@.skip(p as int), fd) is None);
            }
            return None;
        }
    }
}


/// Read a matcher at `pos`.
pub(crate) fn parse_matcher(s: &str, pos: usize) -> (r: Option<(Matcher, usize)>)
    requires
        pos <= s@.len(),
    ensures
        match r {
            Some(t) => pos < t.1 <= s@.len() && dec_matcher(s@.skip(pos as int)) == Some(
                (
                    MatcherView { prefix: t.0.prefix@, prefix_rewrite: t.0.prefix_rewrite@ },
                    t.1 - pos as int,
                ),
            ),
            None => dec_matcher(s@.skip(pos as int)) is None,
        },
{
    let ghost s0 = s@.skip(pos as int);
    let p1 = match parse_eat(s, pos, "{\"prefix\":") {
        Some(p) => p,
        None => {
            proof {
                reveal(dec_matcher);
                assert(dec_matcher(s0) is None);
            }
            return None;
        },
    };
    proof {
        lemma_skip_add(s@, pos as int, (p1 - pos) as int);
    }
    let t1 = match parse_quoted(s, p1) {
        Some(t) => t,
        None => {
            proof {
                reveal(dec_matcher);
                assert(dec_matcher(s0) is None);
            }
            return None;
        },
    };
    proof {
        lemma_skip_add(s@, pos as int, (t1.1 - pos) as int);
    }
    let p2 = match parse_eat(s, t1.1, ",\"prefix_rewrite\":") {
        Some(p) => p,
        None => {
            proof {
                reveal(dec_matcher);
                assert(dec_matcher(s0) is None);
            }
            return None;
        },
    };
    proof {
        lemma_skip_add(s@, pos as int, (p2 - pos) as int);
    }
    let t2 = match parse_quoted(s, p2) {
        Some(t) => t,
        None => {
            proof {
                reveal(dec_matcher);
                assert(dec_matcher(s0) is None);
            }
            return None;
        },
    };
    proof {
        lemma_skip_add(s@, pos as int, (t2.1 - pos) as int);
    }
    let p3 = match parse_eat(s, t2.1, "}") {
        Some(p) => p,
        None => {
            proof {
                reveal(dec_matcher);
                assert(dec_matcher(s0) is None);
            }
            return None;
        },
    };
    let m = Matcher { prefix: t1.0, prefix_rewrite: t2.0 };
    proof {
        reveal(dec_matcher);
        assert(dec_matcher(s0) == Some::<(MatcherView, int)>(
            (
                MatcherView { prefix: m.prefix@, prefix_rewrite: m.prefix_rewrite@ },
                (p3 - pos) as int,
            ),
        ));
    }
    Some((m, p3))
}

/// The matcher of a route, as the document stores it.
pub open spec fn opt_matcher_view(o: Option<Matcher>) -> Option<MatcherView> {
    match o {
        None => None,
        Some(m) => Some(MatcherView { prefix: m.prefix@, prefix_rewrite: m.prefix_rewrite@ }),
    }
}

/// Read an optional matcher at `pos`.
pub(crate) fn parse_opt_matcher(s: &str, pos: usize) -> (r: Option<(Option<Matcher>, usize)>)
    requires
        pos <= s@.len(),
    ensures
        match r {
            Some(t) => pos < t.1 <= s@.len() && dec_opt_matcher(s@.skip(pos as int)) == Some(
                (opt_matcher_view(t.0), t.1 - pos as int),
            ),
            None => dec_opt_matcher(s@.skip(pos as int)) is None,
        },
{
    match parse_eat(s, pos, "null") {
        Some(p2) => {
            proof {
                reveal_strlit("null");
                assert("null"@ =~= seq!['n', 'u', 'l', 'l']);
            }
            Some((None, p2))
        },
        None => {
            proof {
                reveal_strlit("null");
                assert("null"@ =~= seq!['n', 'u', 'l', 'l']);
            }
            match parse_matcher(s, pos) {
                Some(t) => Some((Some(t.0), t.1)),
                None => None,
            }
        },
    }
}

/// Read one allow/deny rule at `pos`.
pub(crate) fn parse_allow_deny(s: &str, pos: usize) -> (r: Option<(AllowDenyObject, usize)>)
    requires
        pos <= s@.len(),
    ensures
        match r {
            Some(t) => pos < t.1 <= s@.len() && dec_allow_deny(s@.skip(pos as int)) == Some(
                (allow_deny_view(t.0), t.1 - pos as int),
            ),
            None => dec_allow_deny(s@.skip(pos as int)) is None,
        },
{
    let ghost s0 = s@.skip(pos as int);
    let p1 = match parse_eat(s, pos, "{\"limit_type\":") {
        Some(p) => p,
        None => {
            proof {
                reveal(dec_allow_deny);
                assert(dec_allow_deny(s0) is None);
            }
            return None;
        },
    };
    proof {
        lemma_skip_add(s@, pos as int, (p1 - pos) as int);
    }
    let t1 = match parse_allow_type(s, p1) {
        Some(t) => t,
        None => {
            proof {
                reveal(dec_allow_deny);
                assert(dec_allow_deny(s0) is None);
            }
            return None;
        },
    };
    proof {
        lemma_skip_add(s@, pos as int, (t1.1 - pos) as int);
    }
    let p2 = match parse_eat(s, t1.1, ",\"value\":") {
        Some(p) => p,
        None => {
            proof {
                reveal(dec_allow_deny);
                assert(dec_allow_deny(s0) is None);
            }
            return None;
        },
    };
    proof {
        lemma_skip_add(s@, pos as int, (p2 - pos) as int);
    }
    let t2 = match parse_opt_string(s, p2) {
        Some(t) => t,
        None => {
            proof {
                reveal(dec_allow_deny);
                assert(dec_allow_deny(s0) is None);
            }
            return None;
        },
    };
    proof {
        lemma_skip_add(s@, pos as int, (t2.1 - pos) as int);
    }
    let p3 = match parse_eat(s, t2.1, "}") {
        Some(p) => p,
        None => {
            proof {
                reveal(dec_allow_deny);
                assert(dec_allow_deny(s0) is None);
            }
            return None;
        },
    };
    let rule = AllowDenyObject { limit_type: t1.0, value: t2.0 };
    proof {
        reveal(dec_allow_deny);
        assert(dec_allow_deny(s0) == Some::<(AllowDenyView, int)>(
            (allow_deny_view(rule), (p3 - pos) as int),
        ));
    }
    Some((rule, p3))
}

/// Read a bracketed list of allow/deny rules at `pos`.
pub(crate) fn parse_adl_list(s: &str, pos: usize) -> (r: Option<(Vec<AllowDenyObject>, usize)>)
    requires
        pos <= s@.len(),
    ensures
        match r {
            Some(t) => pos < t.1 <= s@.len() && dec_list(
                s@.skip(pos as int),
                (|s2: Seq<char>| dec_allow_deny(s2)),
            ) == Some(
                (t.0@.map_values(|o: AllowDenyObject| allow_deny_view(o)), t.1 - pos as int),
            ),
            None => dec_list(s@.skip(pos as int), (|s2: Seq<char>| dec_allow_deny(s2))) is None,
        },
{
    let ghost s0 = s@.skip(pos as int);
    let ghost fd = (|s2: Seq<char>| dec_allow_deny(s2));
    let n = s.unicode_len();
    if pos >= n || s.get_char(pos) != '[' {
        proof {
            if pos < n {
                assert(s0[0] == s@[pos as int]);
            }
        }
        return None;
    }
    proof {
        assert(s0[0] == '[');
    }
    if pos + 1 < n && s.get_char(pos + 1) == ']' {
        let out: Vec<AllowDenyObject> = Vec::new();
        proof {
            assert(s0[1] == ']');
            assert(out@.map_values(|o: AllowDenyObject| allow_deny_view(o)) =~= Seq::<
                AllowDenyView,
            >::empty());
        }
        return Some((out, pos + 2));
    }
    proof {
        if pos + 1 < n {
            assert(s0[1] == s@[pos + 1]);
        }
        assert(!(s0.len() >= 2 && s0[1] == ']'));
        assert(s0.skip(1) =~= s@.skip(pos + 1));
    }
    let mut out: Vec<AllowDenyObject> = Vec::new();
    let mut p: usize = pos + 1;
    loop
        invariant
            pos + 1 <= p <= n,
            n == s@.len(),
            s0 == s@.skip(pos as int),
            fd == (|s2: Seq<char>| dec_allow_deny(s2)),
            s0.len() >= 1 && s0[0] == '[',
            !(s0.len() >= 2 && s0[1] == ']'),
            s0.skip(1) == s@.skip(pos + 1),
            match dec_list_items(s@.skip(p as int), fd) {
                Some(u) => dec_list_items(s@.skip(pos + 1), fd) == Some::<
                    (Seq<AllowDenyView>, int),
                >(
                    (
                        out@.map_values(|o: AllowDenyObject| allow_deny_view(o)) + u.0,
                        (p - pos - 1) + u.1,
                    ),
                ),
                None => dec_list_items(s@.skip(pos + 1), fd) is None,
            },
        decreases n - p,
    {
        let item = match parse_allow_deny(s, p) {
            Some(t) => t,
            None => {
                proof {
                    assert(fd(s@.skip(p as int)) is None);
                    assert(dec_list_items(s@.skip(p as int), fd) is None);
                }
                return None;
            },
        };
        proof {
            assert(fd(s@.skip(p as int)) == Some::<(AllowDenyView, int)>(
                (allow_deny_view(item.0), (item.1 - p) as int),
            ));
        }
        if item.1 >= n {
            proof {
                assert(dec_list_items(s@.skip(p as int), fd) is None);
            }
            return None;
        }
        let c = s.get_char(item.1);
        proof {
            assert(s@.skip(p as int)[(item.1 - p) as int] == s@[item.1 as int]);
        }
        if c == ']' {
            let ghost prev = out@.map_values(|o: AllowDenyObject| allow_deny_view(o));
            out.push(item.0);
            proof {
                assert(dec_list_items(s@.skip(p as int), fd) == Some::<
                    (Seq<AllowDenyView>, int),
                >((seq![allow_deny_view(item.0)], (item.1 - p) + 1)));
                assert(out@.map_values(|o: AllowDenyObject| allow_deny_view(o)) =~= prev + seq![
                    allow_deny_view(item.0),
                ]);
                assert(prev + seq![allow_deny_view(item.0)] =~= prev + (seq![
                    allow_deny_view(item.0),
                ] + Seq::<AllowDenyView>::empty()));
                assert(dec_list(s0, fd) == Some::<(Seq<AllowDenyView>, int)>(
                    (
                        out@.map_values(|o: AllowDenyObject| allow_deny_view(o)),
                        (item.1 + 1 - pos) as int,
                    ),
                ));
            }
            return Some((out, item.1 + 1));
        } else if c == ',' {
            let ghost prev = out@.map_values(|o: AllowDenyObject| allow_deny_view(o));
            out.push(item.0);
            proof {
                assert(s@.skip(p as int).skip((item.1 - p) + 1) =~= s@.skip(item.1 + 1));
                assert(out@.map_values(|o: AllowDenyObject| allow_deny_view(o)) =~= prev + seq![
                    allow_deny_view(item.0),
                ]);
                match dec_list_items(s@.skip(item.1 + 1), fd) {
                    Some(u) => {
                        assert(prev + (seq![allow_deny_view(item.0)] + u.0) =~= (prev + seq![
                            allow_deny_view(item.0),
                        ]) + u.0);
                    },
                    None => {},
                }
            }
            p = item.1 + 1;
        } else {
            proof {
                assert(dec_list_items(s@.skip(p as int), fd) is None);
            }
            return None;
        }
    }
}

/// Read an optional allow/deny rule list at `pos`.
pub(crate) fn parse_opt_adl(s: &str, pos: usize) -> (r: Option<
    (Option<Vec<AllowDenyObject>>, usize),
>)
    requires
        pos <= s@.len(),
    ensures
        match r {
            Some(t) => pos < t.1 <= s@.len() && dec_opt_adl(s@.skip(pos as int)) == Some(
                (
                    match t.0 {
                        None => None,
                        Some(l) => Some(l@.map_values(|o: AllowDenyObject| allow_deny_view(o))),
                    },
                    t.1 - pos as int,
                ),
            ),
            None => dec_opt_adl(s@.skip(pos as int)) is None,
        },
{
    match parse_eat(s, pos, "null") {
        Some(p2) => {
            proof {
                reveal_strlit("null");
                assert("null"@ =~= seq!['n', 'u', 'l', 'l']);
            }
            Some((None, p2))
        },
        None => {
            proof {
                reveal_strlit("null");
                assert("null"@ =~= seq!['n', 'u', 'l', 'l']);
            }
            match parse_adl_list(s, pos) {
                Some(t) => Some((Some(t.0), t.1)),
                None => None,
            }
        },
    }
}

/// Read a liveness requirement at `pos`.
pub(crate) fn parse_liveness_config(s: &str, pos: usize) -> (r: Option<(i32, usize)>)
    requires
        pos <= s@.len(),
    ensures
        match r {
            Some(t) => pos < t.1 <= s@.len() && dec_liveness_config(s@.skip(pos as int)) == Some(
                (t.0, t.1 - pos as int),
            ),
            None => dec_liveness_config(s@.skip(pos as int)) is None,
        },
{
    let ghost s0 = s@.skip(pos as int);
    let p1 = match parse_eat(s, pos, "{\"min_liveness_count\":") {
        Some(p) => p,
        None => {
            proof {
                reveal(dec_liveness_config);
                assert(dec_liveness_config(s0) is None);
            }
            return None;
        },
    };
    proof {
        lemma_skip_add(s@, pos as int, (p1 - pos) as int);
    }
    let t1 = match parse_i32_at(s, p1) {
        Some(t) => t,
        None => {
            proof {
                reveal(dec_liveness_config);
                assert(dec_liveness_config(s0) is None);
            }
            return None;
        },
    };
    proof {
        lemma_skip_add(s@, pos as int, (t1.1 - pos) as int);
    }
    let p2 = match parse_eat(s, t1.1, "}") {
        Some(p) => p,
        None => {
            proof {
                reveal(dec_liveness_config);
                assert(dec_liveness_config(s0) is None);
            }
            return None;
        },
    };
    proof {
        reveal(dec_liveness_config);
        assert(dec_liveness_config(s0) == Some::<(i32, int)>((t1.0, (p2 - pos) as int)));
    }
    Some((t1.0, p2))
}

/// Read an optional liveness requirement at `pos`.
pub(crate) fn parse_opt_lc(s: &str, pos: usize) -> (r: Option<(Option<i32>, usize)>)
    requires
        pos <= s@.len(),
    ensures
        match r {
            Some(t) => pos < t.1 <= s@.len() && dec_opt_lc(s@.skip(pos as int)) == Some(
                (t.0, t.1 - pos as int),
            ),
            None => dec_opt_lc(s@.skip(pos as int)) is None,
        },
{
    match parse_eat(s, pos, "null") {
        Some(p2) => {
            proof {
                reveal_strlit("null");
                assert("null"@ =~= seq!['n', 'u', 'l', 'l']);
            }
            Some((None, p2))
        },
        None => {
            proof {
                reveal_strlit("null");
                assert("null"@ =~= seq!['n', 'u', 'l', 'l']);
            }
            match parse_liveness_config(s, pos) {
                Some(t) => Some((Some(t.0), t.1)),
                None => None,
            }
        },
    }
}


/// Wrap parsed targets for the round-robin strategy.
fn wrap_poll(items: Vec<BaseRoute>) -> (r: Vec<PollBaseRoute>)
    ensures
        r@.map_values(|t: PollBaseRoute| base_route_view(t.base_route)) == items@.map_values(
            |b: BaseRoute| base_route_view(b),
        ),
{
    let mut rest = items;
    let ghost orig = rest@;
    let mut out: Vec<PollBaseRoute> = Vec::new();
    while rest.len() > 0
        invariant
            out@.len() + rest@.len() == orig.len(),
            rest@ == orig.skip(out@.len() as int),
            forall|i: int|
                0 <= i < out@.len() ==> base_route_view((#[trigger] out@[i]).base_route)
                    == base_route_view(orig[i]),
        decreases rest@.len(),
    {
        let ghost before = rest@;
        let b = rest.remove(0);
        proof {
            assert(before[0] == orig[out@.len() as int]);
            assert(before.skip(1) =~= orig.skip(out@.len() as int + 1));
        }
        out.push(PollBaseRoute { base_route: b });
    }
    proof {
        assert(out@.map_values(|t: PollBaseRoute| base_route_view(t.base_route))
            =~= orig.map_values(|b: BaseRoute| base_route_view(b)));
    }
    out
}

/// Wrap parsed targets for the random strategy.
fn wrap_random(items: Vec<BaseRoute>) -> (r: Vec<RandomBaseRoute>)
    ensures
        r@.map_values(|t: RandomBaseRoute| base_route_view(t.base_route)) == items@.map_values(
            |b: BaseRoute| base_route_view(b),
        ),
{
    let mut rest = items;
    let ghost orig = rest@;
    let mut out: Vec<RandomBaseRoute> = Vec::new();
    while rest.len() > 0
        invariant
            out@.len() + rest@.len() == orig.len(),
            rest@ == orig.skip(out@.len() as int),
            forall|i: int|
                0 <= i < out@.len() ==> base_route_view((#[trigger] out@[i]).base_route)
                    == base_route_view(orig[i]),
        decreases rest@.len(),
    {
        let ghost before = rest@;
        let b = rest.remove(0);
        proof {
            assert(before[0] == orig[out@.len() as int]);
            assert(before.skip(1) =~= orig.skip(out@.len() as int + 1));
        }
        out.push(RandomBaseRoute { base_route: b });
    }
    proof {
        assert(out@.map_values(|t: RandomBaseRoute| base_route_view(t.base_route))
            =~= orig.map_values(|b: BaseRoute| base_route_view(b)));
    }
    out
}

/// Read a strategy at `pos`. A loaded round-robin strategy starts with a
/// fresh cursor.
#[verifier::rlimit(100)]
#[verifier::spinoff_prover]
pub(crate) fn parse_strategy(s: &str, pos: usize) -> (r: Option<(LoadbalancerStrategy, usize)>)
    requires
        pos <= s@.len(),
    ensures
        match r {
            Some(t) => pos < t.1 <= s@.len() && dec_strategy(s@.skip(pos as int)) == Some(
                (strategy_view(t.0), t.1 - pos as int),
            ),
            None => dec_strategy(s@.skip(pos as int)) is None,
        },
{
    let ghost s0 = s@.skip(pos as int);
    if let Some(p1) = parse_eat(s, pos, "{\"type\":\"PollRoute\",\"routes\":") {
        proof {
            lemma_skip_add(s@, pos as int, (p1 - pos) as int);
        }
        let t1 = match parse_base_route_list(s, p1) {
            Some(t) => t,
            None => {
                proof {
                    reveal(dec_strategy);
                    assert(dec_strategy(s0) is None);
                }
                return None;
            },
        };
        proof {
            lemma_skip_add(s@, pos as int, (t1.1 - pos) as int);
        }
        let p2 = match parse_eat(s, t1.1, "}") {
            Some(p) => p,
            None => {
                proof {
                    reveal(dec_strategy);
                    assert(dec_strategy(s0) is None);
                }
                return None;
            },
        };
        let built = LoadbalancerStrategy::PollRoute(PollRoute {
            current_index: 0,
            routes: wrap_poll(t1.0),
        });
        proof {
            reveal(dec_strategy);
            assert(dec_strategy(s0) == Some::<(StrategyView, int)>(
                (strategy_view(built), (p2 - pos) as int),
            ));
        }
        return Some((built, p2));
    }
    if let Some(p1) = parse_eat(s, pos, "{\"type\":\"HeaderRoute\",\"routes\":") {
        proof {
            lemma_skip_add(s@, pos as int, (p1 - pos) as int);
        }
        let t1 = match parse_header_item_list(s, p1) {
            Some(t) => t,
            None => {
                proof {
                    reveal(dec_strategy);
                    assert(dec_strategy(s0) is None);
                }
                return None;
            },
        };
        proof {
            lemma_skip_add(s@, pos as int, (t1.1 - pos) as int);
        }
        let p2 = match parse_eat(s, t1.1, "}") {
            Some(p) => p,
            None => {
                proof {
                    reveal(dec_strategy);
                    assert(dec_strategy(s0) is None);
                }
                return None;
            },
        };
        let built = LoadbalancerStrategy::HeaderRoute(HeaderRoute { routes: t1.0 });
        proof {
            reveal(dec_strategy);
            assert(dec_strategy(s0) == Some::<(StrategyView, int)>(
                (strategy_view(built), (p2 - pos) as int),
            ));
        }
        return Some((built, p2));
    }
    if let Some(p1) = parse_eat(s, pos, "{\"type\":\"RandomRoute\",\"routes\":") {
        proof {
            lemma_skip_add(s@, pos as int, (p1 - pos) as int);
        }
        let t1 = match parse_base_route_list(s, p1) {
            Some(t) => t,
            None => {
                proof {
                    reveal(dec_strategy);
                    assert(dec_strategy(s0) is None);
                }
                return None;
            },
        };
        proof {
            lemma_skip_add(s@, pos as int, (t1.1 - pos) as int);
        }
        let p2 = match parse_eat(s, t1.1, "}") {
            Some(p) => p,
            None => {
                proof {
                    reveal(dec_strategy);
                    assert(dec_strategy(s0) is None);
                }
                return None;
            },
        };
        let built = LoadbalancerStrategy::RandomRoute(RandomRoute { routes: wrap_random(t1.0) });
        proof {
            reveal(dec_strategy);
            assert(dec_strategy(s0) == Some::<(StrategyView, int)>(
                (strategy_view(built), (p2 - pos) as int),
            ));
        }
        return Some((built, p2));
    }
    if let Some(p1) = parse_eat(s, pos, "{\"type\":\"WeightRoute\",\"index\":") {
        proof {
            lemma_skip_add(s@, pos as int, (p1 - pos) as int);
        }
        let t1 = match parse_number(s, p1, u64::MAX) {
            Some(t) => t,
            None => {
                proof {
                    reveal(dec_strategy);
                    assert(dec_strategy(s0) is None);
                }
                return None;
            },
        };
        proof {
            lemma_skip_add(s@, pos as int, (t1.1 - pos) as int);
        }
        let p2 = match parse_eat(s, t1.1, ",\"offset\":") {
            Some(p) => p,
            None => {
                proof {
                    reveal(dec_strategy);
                    assert(dec_strategy(s0) is None);
                }
                return None;
            },
        };
        proof {
            lemma_skip_add(s@, pos as int, (p2 - pos) as int);
        }
        let t2 = match parse_number(s, p2, u64::MAX) {
            Some(t) => t,
            None => {
                proof {
                    reveal(dec_strategy);
                    assert(dec_strategy(s0) is None);
                }
                return None;
            },
        };
        proof {
            lemma_skip_add(s@, pos as int, (t2.1 - pos) as int);
        }
        let p3 = match parse_eat(s, t2.1, ",\"routes\":") {
            Some(p) => p,
            None => {
                proof {
                    reveal(dec_strategy);
                    assert(dec_strategy(s0) is None);
                }
                return None;
            },
        };
        proof {
            lemma_skip_add(s@, pos as int, (p3 - pos) as int);
        }
        let t3 = match parse_weight_item_list(s, p3) {
            Some(t) => t,
            None => {
                proof {
                    reveal(dec_strategy);
                    assert(dec_strategy(s0) is None);
                }
                return None;
            },
        };
        proof {
            lemma_skip_add(s@, pos as int, (t3.1 - pos) as int);
        }
        let p4 = match parse_eat(s, t3.1, "}") {
            Some(p) => p,
            None => {
                proof {
                    reveal(dec_strategy);
                    assert(dec_strategy(s0) is None);
                }
                return None;
            },
        };
        let built = LoadbalancerStrategy::WeightRoute(WeightRoute {
            index: t1.0,
            offset: t2.0,
            routes: t3.0,
        });
        proof {
            reveal(dec_strategy);
            assert(dec_strategy(s0) == Some::<(StrategyView, int)>(
                (strategy_view(built), (p4 - pos) as int),
            ));
        }
        return Some((built, p4));
    }
    proof {
        reveal(dec_strategy);
        assert(dec_strategy(s0) is None);
    }
    None
}


/// Read one route at `pos`.
#[verifier::rlimit(100)]
#[verifier::spinoff_prover]
pub(crate) fn parse_route(s: &str, pos: usize) -> (r: Option<(Route, usize)>)
    requires
        pos <= s@.len(),
    ensures
        match r {
            Some(t) => pos < t.1 <= s@.len() && dec_route(s@.skip(pos as int)) == Some(
                (route_view(t.0), t.1 - pos as int),
            ),
            None => dec_route(s@.skip(pos as int)) is None,
        },
{
    let ghost s0 = s@.skip(pos as int);
    let p1 = match parse_eat(s, pos, "{\"route_id\":") {
        Some(p) => p,
        None => {
            proof {
                reveal(dec_route);
                assert(dec_route(s0) is None);
            }
            return None;
        },
    };
    proof {
        lemma_skip_add(s@, pos as int, (p1 - pos) as int);
    }
    let t1 = match parse_quoted(s, p1) {
        Some(t) => t,
        None => {
            proof {
                reveal(dec_route);
                assert(dec_route(s0) is None);
            }
            return None;
        },
    };
    proof {
        lemma_skip_add(s@, pos as int, (t1.1 - pos) as int);
    }
    let p2 = match parse_eat(s, t1.1, ",\"host_name\":") {
        Some(p) => p,
        None => {
            proof {
                reveal(dec_route);
                assert(dec_route(s0) is None);
            }
            return None;
        },
    };
    proof {
        lemma_skip_add(s@, pos as int, (p2 - pos) as int);
    }
    let t2 = match parse_opt_string(s, p2) {
        Some(t) => t,
        None => {
            proof {
                reveal(dec_route);
                assert(dec_route(s0) is None);
            }
            return None;
        },
    };
    proof {
        lemma_skip_add(s@, pos as int, (t2.1 - pos) as int);
    }
    let p3 = match parse_eat(s, t2.1, ",\"matcher\":") {
        Some(p) => p,
        None => {
            proof {
                reveal(dec_route);
                assert(dec_route(s0) is None);
            }
            return None;
        },
    };
    proof {
        lemma_skip_add(s@, pos as int, (p3 - pos) as int);
    }
    let t3 = match parse_opt_matcher(s, p3) {
        Some(t) => t,
        None => {
            proof {
                reveal(dec_route);
                assert(dec_route(s0) is None);
            }
            return None;
        },
    };
    proof {
        lemma_skip_add(s@, pos as int, (t3.1 - pos) as int);
    }
    let p4 = match parse_eat(s, t3.1, ",\"allow_deny_list\":") {
        Some(p) => p,
        None => {
            proof {
                reveal(dec_route);
                assert(dec_route(s0) is None);
            }
            return None;
        },
    };
    proof {
        lemma_skip_add(s@, pos as int, (p4 - pos) as int);
    }
    let t4 = match parse_opt_adl(s, p4) {
        Some(t) => t,
        None => {
            proof {
                reveal(dec_route);
                assert(dec_route(s0) is None);
            }
            return None;
        },
    };
    proof {
        lemma_skip_add(s@, pos as int, (t4.1 - pos) as int);
    }
    let p5 = match parse_eat(s, t4.1, ",\"liveness_status\":{\"current_liveness_count\":") {
        Some(p) => p,
        None => {
            proof {
                reveal(dec_route);
                reveal(dec_route_back);
                assert(dec_route(s0) is None);
            }
            return None;
        },
    };
    proof {
        lemma_skip_add(s@, pos as int, (p5 - pos) as int);
        lemma_skip_add(s@, t4.1 as int, (p5 - t4.1) as int);
    }
    let t5 = match parse_i32_at(s, p5) {
        Some(t) => t,
        None => {
            proof {
                reveal(dec_route);
                reveal(dec_route_back);
                assert(dec_route(s0) is None);
            }
            return None;
        },
    };
    proof {
        lemma_skip_add(s@, pos as int, (t5.1 - pos) as int);
        lemma_skip_add(s@, t4.1 as int, (t5.1 - t4.1) as int);
    }
    let p6 = match parse_eat(s, t5.1, "},\"liveness_config\":") {
        Some(p) => p,
        None => {
            proof {
                reveal(dec_route);
                reveal(dec_route_back);
                assert(dec_route(s0) is None);
            }
            return None;
        },
    };
    proof {
        lemma_skip_add(s@, pos as int, (p6 - pos) as int);
        lemma_skip_add(s@, t4.1 as int, (p6 - t4.1) as int);
    }
    let t6 = match parse_opt_lc(s, p6) {
        Some(t) => t,
        None => {
            proof {
                reveal(dec_route);
                reveal(dec_route_back);
                assert(dec_route(s0) is None);
            }
            return None;
        },
    };
    proof {
        lemma_skip_add(s@, pos as int, (t6.1 - pos) as int);
        lemma_skip_add(s@, t4.1 as int, (t6.1 - t4.1) as int);
    }
    let p7 = match parse_eat(s, t6.1, ",\"route_cluster\":") {
        Some(p) => p,
        None => {
            proof {
                reveal(dec_route);
                reveal(dec_route_back);
                assert(dec_route(s0) is None);
            }
            return None;
        },
    };
    proof {
        lemma_skip_add(s@, pos as int, (p7 - pos) as int);
        lemma_skip_add(s@, t4.1 as int, (p7 - t4.1) as int);
    }
    let t7 = match parse_strategy(s, p7) {
        Some(t) => t,
        None => {
            proof {
                reveal(dec_route);
                reveal(dec_route_back);
                assert(dec_route(s0) is None);
            }
            return None;
        },
    };
    proof {
        lemma_skip_add(s@, pos as int, (t7.1 - pos) as int);
        lemma_skip_add(s@, t4.1 as int, (t7.1 - t4.1) as int);
    }
    let p8 = match parse_eat(s, t7.1, "}") {
        Some(p) => p,
        None => {
            proof {
                reveal(dec_route);
                reveal(dec_route_back);
                assert(dec_route(s0) is None);
            }
            return None;
        },
    };
    proof {
        lemma_skip_add(s@, pos as int, (p8 - pos) as int);
    }
    let built = Route {
        route_id: t1.0,
        host_name: t2.0,
        matcher: t3.0,
        allow_deny_list: t4.0,
        liveness_status: LivenessStatus { current_liveness_count: t5.0 },
        liveness_config: match t6.0 {
            None => None,
            Some(n) => Some(LivenessConfig { min_liveness_count: n }),
        },
        route_cluster: t7.0,
    };
    proof {
        reveal(dec_route);
        reveal(dec_route_back);
        assert(dec_route_back(
            s@.skip(t4.1 as int),
            t1.0@,
            opt_str_view(t2.0),
            opt_matcher_view(t3.0),
            match t4.0 {
                None => None,
                Some(l) => Some(l@.map_values(|o: AllowDenyObject| allow_deny_view(o))),
            },
        ) == Some::<(RouteView, int)>((route_view(built), (p8 - t4.1) as int)));
        assert(dec_route(s0) == Some::<(RouteView, int)>(
            (route_view(built), (p8 - pos) as int),
        ));
    }
    Some((built, p8))
}

/// Read a bracketed list of routes at `pos`.
pub(crate) fn parse_route_list(s: &str, pos: usize) -> (r: Option<(Vec<Route>, usize)>)
    requires
        pos <= s@.len(),
    ensures
        match r {
            Some(t) => pos < t.1 <= s@.len() && dec_list(
                s@.skip(pos as int),
                (|s2: Seq<char>| dec_route(s2)),
            ) == Some(
                (t.0@.map_values(|r2: Route| route_view(r2)), t.1 - pos as int),
            ),
            None => dec_list(s@.skip(pos as int), (|s2: Seq<char>| dec_route(s2))) is None,
        },
{
    let ghost s0 = s@.skip(pos as int);
    let ghost fd = (|s2: Seq<char>| dec_route(s2));
    let n = s.unicode_len();
    if pos >= n || s.get_char(pos) != '[' {
        proof {
            if pos < n {
                assert(s0[0] == s@[pos as int]);
            }
        }
        return None;
    }
    proof {
        assert(s0[0] == '[');
    }
    if pos + 1 < n && s.get_char(pos + 1) == ']' {
        let out: Vec<Route> = Vec::new();
        proof {
            assert(s0[1] == ']');
            assert(out@.map_values(|r2: Route| route_view(r2)) =~= Seq::<
                RouteView,
            >::empty());
        }
        return Some((out, pos + 2));
    }
    proof {
        if pos + 1 < n {
            assert(s0[1] == s@[pos + 1]);
        }
        assert(!(s0.len() >= 2 && s0[1] == ']'));
        assert(s0.skip(1) =~= s@.skip(pos + 1));
    }
    let mut out: Vec<Route> = Vec::new();
    let mut p: usize = pos + 1;
    loop
        invariant
            pos + 1 <= p <= n,
            n == s@.len(),
            s0 == s@.skip(pos as int),
            fd == (|s2: Seq<char>| dec_route(s2)),
            s0.len() >= 1 && s0[0] == '[',
            !(s0.len() >= 2 && s0[1] == ']'),
            s0.skip(1) == s@.skip(pos + 1),
            match dec_list_items(s@.skip(p as int), fd) {
                Some(u) => dec_list_items(s@.skip(pos + 1), fd) == Some::<
                    (Seq<RouteView>, int),
                >(
                    (
                        out@.map_values(|r2: Route| route_view(r2)) + u.0,
                        (p - pos - 1) + u.1,
                    ),
                ),
                None => dec_list_items(s@.skip(pos + 1), fd) is None,
            },
        decreases n - p,
    {
        let item = match parse_route(s, p) {
            Some(t) => t,
            None => {
                proof {
                    assert(fd(s@.skip(p as int)) is None);
                    assert(dec_list_items(s@.skip(p as int), fd) is None);
                }
                return None;
            },
        };
        proof {
            assert(fd(s@.skip(p as int)) == Some::<(RouteView, int)>(
                (route_view(item.0), (item.1 - p) as int),
            ));
        }
        if item.1 >= n {
            proof {
                assert(dec_list_items(s@.skip(p as int), fd) is None);
            }
            return None;
        }
        let c = s.get_char(item.1);
        proof {
            assert(s@.skip(p as int)[(item.1 - p) as int] == s@[item.1 as int]);
        }
        if c == ']' {
            let ghost prev = out@.map_values(|r2: Route| route_view(r2));
            out.push(item.0);
            proof {
                assert(dec_list_items(s@.skip(p as int), fd) == Some::<
                    (Seq<RouteView>, int),
                >((seq![route_view(item.0)], (item.1 - p) + 1)));
                assert(out@.map_values(|r2: Route| route_view(r2)) =~= prev + seq![
                    route_view(item.0),
                ]);
                assert(prev + seq![route_view(item.0)] =~= prev + (seq![
                    route_view(item.0),
                ] + Seq::<RouteView>::empty()));
                assert(dec_list(s0, fd) == Some::<(Seq<RouteView>, int)>(
                    (
                        out@.map_values(|r2: Route| route_view(r2)),
                        (item.1 + 1 - pos) as int,
                    ),
                ));
            }
            return Some((out, item.1 + 1));
        } else if c == ',' {
            let ghost prev = out@.map_values(|r2: Route| route_view(r2));
            out.push(item.0);
            proof {
                assert(s@.skip(p as int).skip((item.1 - p) + 1) =~= s@.skip(item.1 + 1));
                assert(out@.map_values(|r2: Route| route_view(r2)) =~= prev + seq![
                    route_view(item.0),
                ]);
                match dec_list_items(s@.skip(item.1 + 1), fd) {
                    Some(u) => {
                        assert(prev + (seq![route_view(item.0)] + u.0) =~= (prev + seq![
                            route_view(item.0),
                        ]) + u.0);
                    },
                    None => {},
                }
            }
            p = item.1 + 1;
        } else {
            proof {
                assert(dec_list_items(s@.skip(p as int), fd) is None);
            }
            return None;
        }
    }
}

/// Read a service configuration at `pos`.
#[verifier::rlimit(100)]
#[verifier::spinoff_prover]
pub(crate) fn parse_service_config(s: &str, pos: usize) -> (r: Option<(ServiceConfig, usize)>)
    requires
        pos <= s@.len(),
    ensures
        match r {
            Some(t) => pos < t.1 <= s@.len() && dec_service_config(s@.skip(pos as int)) == Some(
                (service_config_view(t.0), t.1 - pos as int),
            ),
            None => dec_service_config(s@.skip(pos as int)) is None,
        },
{
    let ghost s0 = s@.skip(pos as int);
    let p1 = match parse_eat(s, pos, "{\"server_type\":") {
        Some(p) => p,
        None => {
            proof {
                reveal(dec_service_config);
                assert(dec_service_config(s0) is None);
            }
            return None;
        },
    };
    proof {
        lemma_skip_add(s@, pos as int, (p1 - pos) as int);
    }
    let t1 = match parse_service_type(s, p1) {
        Some(t) => t,
        None => {
            proof {
                reveal(dec_service_config);
                assert(dec_service_config(s0) is None);
            }
            return None;
        },
    };
    proof {
        lemma_skip_add(s@, pos as int, (t1.1 - pos) as int);
    }
    let p2 = match parse_eat(s, t1.1, ",\"cert_str\":") {
        Some(p) => p,
        None => {
            proof {
                reveal(dec_service_config);
                assert(dec_service_config(s0) is None);
            }
            return None;
        },
    };
    proof {
        lemma_skip_add(s@, pos as int, (p2 - pos) as int);
    }
    let t2 = match parse_opt_string(s, p2) {
        Some(t) => t,
        None => {
            proof {
                reveal(dec_service_config);
                assert(dec_service_config(s0) is None);
            }
            return None;
        },
    };
    proof {
        lemma_skip_add(s@, pos as int, (t2.1 - pos) as int);
    }
    let p3 = match parse_eat(s, t2.1, ",\"key_str\":") {
        Some(p) => p,
        None => {
            proof {
                reveal(dec_service_config);
                assert(dec_service_config(s0) is None);
            }
            return None;
        },
    };
    proof {
        lemma_skip_add(s@, pos as int, (p3 - pos) as int);
    }
    let t3 = match parse_opt_string(s, p3) {
        Some(t) => t,
        None => {
            proof {
                reveal(dec_service_config);
                assert(dec_service_config(s0) is None);
            }
            return None;
        },
    };
    proof {
        lemma_skip_add(s@, pos as int, (t3.1 - pos) as int);
    }
    let p4 = match parse_eat(s, t3.1, ",\"routes\":") {
        Some(p) => p,
        None => {
            proof {
                reveal(dec_service_config);
                assert(dec_service_config(s0) is None);
            }
            return None;
        },
    };
    proof {
        lemma_skip_add(s@, pos as int, (p4 - pos) as int);
    }
    let t4 = match parse_route_list(s, p4) {
        Some(t) => t,
        None => {
            proof {
                reveal(dec_service_config);
                assert(dec_service_config(s0) is None);
            }
            return None;
        },
    };
    proof {
        lemma_skip_add(s@, pos as int, (t4.1 - pos) as int);
    }
    let p5 = match parse_eat(s, t4.1, "}") {
        Some(p) => p,
        None => {
            proof {
                reveal(dec_service_config);
                assert(dec_service_config(s0) is None);
            }
            return None;
        },
    };
    proof {
        lemma_skip_add(s@, pos as int, (p5 - pos) as int);
    }
    let built = ServiceConfig {
        server_type: t1.0,
        cert_str: t2.0,
        key_str: t3.0,
        routes: t4.0,
    };
    proof {
        reveal(dec_service_config);
        assert(dec_service_config(s0) == Some::<(ServiceConfigView, int)>(
            (service_config_view(built), (p5 - pos) as int),
        ));
    }
    Some((built, p5))
}

/// Read one service at `pos`.
#[verifier::rlimit(100)]
#[verifier::spinoff_prover]
pub(crate) fn parse_api_service(s: &str, pos: usize) -> (r: Option<(ApiService, usize)>)
    requires
        pos <= s@.len(),
    ensures
        match r {
            Some(t) => pos < t.1 <= s@.len() && dec_api_service(s@.skip(pos as int)) == Some(
                (api_service_view(t.0), t.1 - pos as int),
            ),
            None => dec_api_service(s@.skip(pos as int)) is None,
        },
{
    let ghost s0 = s@.skip(pos as int);
    let p1 = match parse_eat(s, pos, "{\"listen_port\":") {
        Some(p) => p,
        None => {
            proof {
                reveal(dec_api_service);
                assert(dec_api_service(s0) is None);
            }
            return None;
        },
    };
    proof {
        lemma_skip_add(s@, pos as int, (p1 - pos) as int);
    }
    let t1 = match parse_i32_at(s, p1) {
        Some(t) => t,
        None => {
            proof {
                reveal(dec_api_service);
                assert(dec_api_service(s0) is None);
            }
            return None;
        },
    };
    proof {
        lemma_skip_add(s@, pos as int, (t1.1 - pos) as int);
    }
    let p2 = match parse_eat(s, t1.1, ",\"api_service_id\":") {
        Some(p) => p,
        None => {
            proof {
                reveal(dec_api_service);
                assert(dec_api_service(s0) is None);
            }
            return None;
        },
    };
    proof {
        lemma_skip_add(s@, pos as int, (p2 - pos) as int);
    }
    let t2 = match parse_quoted(s, p2) {
        Some(t) => t,
        None => {
            proof {
                reveal(dec_api_service);
                assert(dec_api_service(s0) is None);
            }
            return None;
        },
    };
    proof {
        lemma_skip_add(s@, pos as int, (t2.1 - pos) as int);
    }
    let p3 = match parse_eat(s, t2.1, ",\"service_config\":") {
        Some(p) => p,
        None => {
            proof {
                reveal(dec_api_service);
                assert(dec_api_service(s0) is None);
            }
            return None;
        },
    };
    proof {
        lemma_skip_add(s@, pos as int, (p3 - pos) as int);
    }
    let t3 = match parse_service_config(s, p3) {
        Some(t) => t,
        None => {
            proof {
                reveal(dec_api_service);
                assert(dec_api_service(s0) is None);
            }
            return None;
        },
    };
    proof {
        lemma_skip_add(s@, pos as int, (t3.1 - pos) as int);
    }
    let p4 = match parse_eat(s, t3.1, "}") {
        Some(p) => p,
        None => {
            proof {
                reveal(dec_api_service);
                assert(dec_api_service(s0) is None);
            }
            return None;
        },
    };
    proof {
        lemma_skip_add(s@, pos as int, (p4 - pos) as int);
    }
    let built = ApiService {
        listen_port: t1.0,
        api_service_id: t2.0,
        service_config: t3.0,
    };
    proof {
        reveal(dec_api_service);
        assert(dec_api_service(s0) == Some::<(ApiServiceView, int)>(
            (api_service_view(built), (p4 - pos) as int),
        ));
    }
    Some((built, p4))
}
/// Read a bracketed list of services at `pos`.
pub(crate) fn parse_service_list(s: &str, pos: usize) -> (r: Option<(Vec<ApiService>, usize)>)
    requires
        pos <= s@.len(),
    ensures
        match r {
            Some(t) => pos < t.1 <= s@.len() && dec_list(
                s@.skip(pos as int),
                (|s2: Seq<char>| dec_api_service(s2)),
            ) == Some(
                (t.0@.map_values(|a: ApiService| api_service_view(a)), t.1 - pos as int),
            ),
            None => dec_list(s@.skip(pos as int), (|s2: Seq<char>| dec_api_service(s2))) is None,
        },
{
    let ghost s0 = s@.skip(pos as int);
    let ghost fd = (|s2: Seq<char>| dec_api_service(s2));
    let n = s.unicode_len();
    if pos >= n || s.get_char(pos) != '[' {
        proof {
            if pos < n {
                assert(s0[0] == s@[pos as int]);
            }
        }
        return None;
    }
    proof {
        assert(s0[0] == '[');
    }
    if pos + 1 < n && s.get_char(pos + 1) == ']' {
        let out: Vec<ApiService> = Vec::new();
        proof {
            assert(s0[1] == ']');
            assert(out@.map_values(|a: ApiService| api_service_view(a)) =~= Seq::<
                ApiServiceView,
            >::empty());
        }
        return Some((out, pos + 2));
    }
    proof {
        if pos + 1 < n {
            assert(s0[1] == s@[pos + 1]);
        }
        assert(!(s0.len() >= 2 && s0[1] == ']'));
        assert(s0.skip(1) =~= s@.skip(pos + 1));
    }
    let mut out: Vec<ApiService> = Vec::new();
    let mut p: usize = pos + 1;
    loop
        invariant
            pos + 1 <= p <= n,
            n == s@.len(),
            s0 == s@.skip(pos as int),
            fd == (|s2: Seq<char>| dec_api_service(s2)),
            s0.len() >= 1 && s0[0] == '[',
            !(s0.len() >= 2 && s0[1] == ']'),
            s0.skip(1) == s@.skip(pos + 1),
            match dec_list_items(s@.skip(p as int), fd) {
                Some(u) => dec_list_items(s@.skip(pos + 1), fd) == Some::<
                    (Seq<ApiServiceView>, int),
                >(
                    (
                        out@.map_values(|a: ApiService| api_service_view(a)) + u.0,
                        (p - pos - 1) + u.1,
                    ),
                ),
                None => dec_list_items(s@.skip(pos + 1), fd) is None,
            },
        decreases n - p,
    {
        let item = match parse_api_service(s, p) {
            Some(t) => t,
            None => {
                proof {
                    assert(fd(s@.skip(p as int)) is None);
                    assert(dec_list_items(s@.skip(p as int), fd) is None);
                }
                return None;
            },
        };
        proof {
            assert(fd(s@.skip(p as int)) == Some::<(ApiServiceView, int)>(
                (api_service_view(item.0), (item.1 - p) as int),
            ));
        }
        if item.1 >= n {
            proof {
                assert(dec_list_items(s@.skip(p as int), fd) is None);
            }
            return None;
        }
        let c = s.get_char(item.1);
        proof {
            assert(s@.skip(p as int)[(item.1 - p) as int] == s@[item.1 as int]);
        }
        if c == ']' {
            let ghost prev = out@.map_values(|a: ApiService| api_service_view(a));
            out.push(item.0);
            proof {
                assert(dec_list_items(s@.skip(p as int), fd) == Some::<
                    (Seq<ApiServiceView>, int),
                >((seq![api_service_view(item.0)], (item.1 - p) + 1)));
                assert(out@.map_values(|a: ApiService| api_service_view(a)) =~= prev + seq![
                    api_service_view(item.0),
                ]);
                assert(prev + seq![api_service_view(item.0)] =~= prev + (seq![
                    api_service_view(item.0),
                ] + Seq::<ApiServiceView>::empty()));
                assert(dec_list(s0, fd) == Some::<(Seq<ApiServiceView>, int)>(
                    (
                        out@.map_values(|a: ApiService| api_service_view(a)),
                        (item.1 + 1 - pos) as int,
                    ),
                ));
            }
            return Some((out, item.1 + 1));
        } else if c == ',' {
            let ghost prev = out@.map_values(|a: ApiService| api_service_view(a));
            out.push(item.0);
            proof {
                assert(s@.skip(p as int).skip((item.1 - p) + 1) =~= s@.skip(item.1 + 1));
                assert(out@.map_values(|a: ApiService| api_service_view(a)) =~= prev + seq![
                    api_service_view(item.0),
                ]);
                match dec_list_items(s@.skip(item.1 + 1), fd) {
                    Some(u) => {
                        assert(prev + (seq![api_service_view(item.0)] + u.0) =~= (prev + seq![
                            api_service_view(item.0),
                        ]) + u.0);
                    },
                    None => {},
                }
            }
            p = item.1 + 1;
        } else {
            proof {
                assert(dec_list_items(s@.skip(p as int), fd) is None);
            }
            return None;
        }
    }
}

/// Read the static settings at `pos`.
#[verifier::rlimit(100)]
#[verifier::spinoff_prover]
pub(crate) fn parse_static_config(s: &str, pos: usize) -> (r: Option<(StaticConifg, usize)>)
    requires
        pos <= s@.len(),
    ensures
        match r {
            Some(t) => pos < t.1 <= s@.len() && dec_static_config(s@.skip(pos as int)) == Some(
                (static_config_view(t.0), t.1 - pos as int),
            ),
            None => dec_static_config(s@.skip(pos as int)) is None,
        },
{
    let ghost s0 = s@.skip(pos as int);
    let p1 = match parse_eat(s, pos, "{\"access_log\":") {
        Some(p) => p,
        None => {
            proof {
                reveal(dec_static_config);
                assert(dec_static_config(s0) is None);
            }
            return None;
        },
    };
    proof {
        lemma_skip_add(s@, pos as int, (p1 - pos) as int);
    }
    let t1 = match parse_opt_string(s, p1) {
        Some(t) => t,
        None => {
            proof {
                reveal(dec_static_config);
                assert(dec_static_config(s0) is None);
            }
            return None;
        },
    };
    proof {
        lemma_skip_add(s@, pos as int, (t1.1 - pos) as int);
    }
    let p2 = match parse_eat(s, t1.1, ",\"database_url\":") {
        Some(p) => p,
        None => {
            proof {
                reveal(dec_static_config);
                assert(dec_static_config(s0) is None);
            }
            return None;
        },
    };
    proof {
        lemma_skip_add(s@, pos as int, (p2 - pos) as int);
    }
    let t2 = match parse_opt_string(s, p2) {
        Some(t) => t,
        None => {
            proof {
                reveal(dec_static_config);
                assert(dec_static_config(s0) is None);
            }
            return None;
        },
    };
    proof {
        lemma_skip_add(s@, pos as int, (t2.1 - pos) as int);
    }
    let p3 = match parse_eat(s, t2.1, ",\"admin_port\":") {
        Some(p) => p,
        None => {
            proof {
                reveal(dec_static_config);
                assert(dec_static_config(s0) is None);
            }
            return None;
        },
    };
    proof {
        lemma_skip_add(s@, pos as int, (p3 - pos) as int);
    }
    let t3 = match parse_quoted(s, p3) {
        Some(t) => t,
        None => {
            proof {
                reveal(dec_static_config);
                assert(dec_static_config(s0) is None);
            }
            return None;
        },
    };
    proof {
        lemma_skip_add(s@, pos as int, (t3.1 - pos) as int);
    }
    let p4 = match parse_eat(s, t3.1, ",\"config_file_path\":") {
        Some(p) => p,
        None => {
            proof {
                reveal(dec_static_config);
                assert(dec_static_config(s0) is None);
            }
            return None;
        },
    };
    proof {
        lemma_skip_add(s@, pos as int, (p4 - pos) as int);
    }
    let t4 = match parse_opt_string(s, p4) {
        Some(t) => t,
        None => {
            proof {
                reveal(dec_static_config);
                assert(dec_static_config(s0) is None);
            }
            return None;
        },
    };
    proof {
        lemma_skip_add(s@, pos as int, (t4.1 - pos) as int);
    }
    let p5 = match parse_eat(s, t4.1, "}") {
        Some(p) => p,
        None => {
            proof {
                reveal(dec_static_config);
                assert(dec_static_config(s0) is None);
            }
            return None;
        },
    };
    proof {
        lemma_skip_add(s@, pos as int, (p5 - pos) as int);
    }
    let built = StaticConifg {
        access_log: t1.0,
        database_url: t2.0,
        admin_port: t3.0,
        config_file_path: t4.0,
    };
    proof {
        reveal(dec_static_config);
        assert(dec_static_config(s0) == Some::<(StaticConfigView, int)>(
            (static_config_view(built), (p5 - pos) as int),
        ));
    }
    Some((built, p5))
}

/// Read a whole configuration at `pos`.
#[verifier::rlimit(100)]
#[verifier::spinoff_prover]
pub(crate) fn parse_app_config(s: &str, pos: usize) -> (r: Option<(AppConfig, usize)>)
    requires
        pos <= s@.len(),
    ensures
        match r {
            Some(t) => pos < t.1 <= s@.len() && dec_app_config(s@.skip(pos as int)) == Some(
                (app_config_view(t.0), t.1 - pos as int),
            ),
            None => dec_app_config(s@.skip(pos as int)) is None,
        },
{
    let ghost s0 = s@.skip(pos as int);
    let p1 = match parse_eat(s, pos, "{\"static_config\":") {
        Some(p) => p,
        None => {
            proof {
                reveal(dec_app_config);
                assert(dec_app_config(s0) is None);
            }
            return None;
        },
    };
    proof {
        lemma_skip_add(s@, pos as int, (p1 - pos) as int);
    }
    let t1 = match parse_static_config(s, p1) {
        Some(t) => t,
        None => {
            proof {
                reveal(dec_app_config);
                assert(dec_app_config(s0) is None);
            }
            return None;
        },
    };
    proof {
        lemma_skip_add(s@, pos as int, (t1.1 - pos) as int);
    }
    let p2 = match parse_eat(s, t1.1, ",\"api_service_config\":") {
        Some(p) => p,
        None => {
            proof {
                reveal(dec_app_config);
                assert(dec_app_config(s0) is None);
            }
            return None;
        },
    };
    proof {
        lemma_skip_add(s@, pos as int, (p2 - pos) as int);
    }
    let t2 = match parse_service_list(s, p2) {
        Some(t) => t,
        None => {
            proof {
                reveal(dec_app_config);
                assert(dec_app_config(s0) is None);
            }
            return None;
        },
    };
    proof {
        lemma_skip_add(s@, pos as int, (t2.1 - pos) as int);
    }
    let p3 = match parse_eat(s, t2.1, "}") {
        Some(p) => p,
        None => {
            proof {
                reveal(dec_app_config);
                assert(dec_app_config(s0) is None);
            }
            return None;
        },
    };
    proof {
        lemma_skip_add(s@, pos as int, (p3 - pos) as int);
    }
    let built = AppConfig { static_config: t1.0, api_service_config: t2.0 };
    proof {
        reveal(dec_app_config);
        assert(dec_app_config(s0) == Some::<(AppConfigView, int)>(
            (app_config_view(built), (p3 - pos) as int),
        ));
    }
    Some((built, p3))
}

/// Load a configuration from its persisted document. Succeeds exactly
/// when the whole text is one canonical document, and then rebuilds the
/// routing table that was persisted: runtime health and the round-robin
/// cursors start fresh.
pub fn load_app_config(s: &String) -> (r: Option<AppConfig>)
    ensures
        match r {
            Some(c) => dec_app_config(s@) is Some && app_config_view(c) == dec_app_config(
                s@,
            )->Some_0.0 && dec_app_config(s@)->Some_0.1 == s@.len(),
            None => dec_app_config(s@) is None || dec_app_config(s@)->Some_0.1 != s@.len(),
        },
{
    proof {
        assert(s@.skip(0) =~= s@);
    }
    match parse_app_config(s.as_str(), 0) {
        Some(t) => if t.1 == s.unicode_len() {
            Some(t.0)
        } else {
            None
        },
        None => None,
    }
}

} // verus!





