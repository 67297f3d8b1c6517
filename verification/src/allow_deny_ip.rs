//! IP allow/deny policy: an ordered rule list evaluated against a client
//! address. A rule either decides for every client (`AllowAll`, `DenyAll`)
//! or carries a value — a single IPv4 address or an IPv4 CIDR range — that
//! the client address is tested against.

use vstd::arithmetic::power2::{lemma2_to64, lemma_pow2_pos, lemma_pow2_strictly_increases,
    lemma_pow2_unfold, pow2};
use vstd::prelude::*;

use crate::app_error::AppError;
use crate::text::{all_digits, dec_val, parse_small_dec, split_chars, str_equal, str_split};

verus! {

/// What a single rule decides when its value matches.
#[derive(Debug, Clone, PartialEq, Eq, Structural, Default)]
pub enum AllowType {
    #[default]
    AllowAll,
    DenyAll,
    Allow,
    Deny,
}

/// The outcome of one rule for one client address.
#[derive(Debug, Clone, PartialEq, Eq, Structural, Default)]
pub enum AllowResult {
    #[default]
    Allow,
    Deny,
    Notmapping,
}

/// One allow/deny rule: the decision kind, and the address or CIDR range it
/// applies to (absent for `AllowAll` and `DenyAll`).
#[derive(Debug, Clone, PartialEq, Default)]
pub struct AllowDenyObject {
    pub limit_type: AllowType,
    pub value: Option<String>,
}

/// Whether `s` is a decimal IPv4 octet: one to three digits, no leading
/// zero, value at most 255.
pub open spec fn is_octet(s: Seq<char>) -> bool {
    &&& 1 <= s.len() <= 3
    &&& all_digits(s)
    &&& (s.len() > 1 ==> s[0] != '0')
    &&& dec_val(s) <= 255
}

/// The address denoted by a dotted-quad IPv4 string, as a 32-bit value with
/// the first octet most significant; `None` if `s` is not such a string.
pub open spec fn spec_parse_ipv4(s: Seq<char>) -> Option<u32> {
    let parts = split_chars(s, seq!['.']);
    if parts.len() == 4 && is_octet(parts[0]) && is_octet(parts[1]) && is_octet(parts[2])
        && is_octet(parts[3]) {
        Some(
            (dec_val(parts[0]) * 0x1000000 + dec_val(parts[1]) * 0x10000 + dec_val(parts[2]) * 0x100
                + dec_val(parts[3])) as u32,
        )
    } else {
        None
    }
}

/// The network address and prefix length denoted by an IPv4 CIDR string
/// (`a.b.c.d/n`, prefix of one or two digits, at most 32).
pub open spec fn spec_parse_cidr(s: Seq<char>) -> Option<(u32, u32)> {
    let parts = split_chars(s, seq!['/']);
    if parts.len() == 2 {
        match spec_parse_ipv4(parts[0]) {
            Some(net) => if 1 <= parts[1].len() <= 2 && all_digits(parts[1]) && dec_val(parts[1])
                <= 32 {
                Some((net, dec_val(parts[1]) as u32))
            } else {
                None
            },
            None => None,
        }
    } else {
        None
    }
}

/// Whether `ip` lies in the CIDR range given by `net` and `prefix`: the two
/// addresses agree on the `prefix` most significant bits.
pub open spec fn spec_in_cidr(ip: u32, net: u32, prefix: int) -> bool {
    prefix <= 0 || ip as int / (pow2((32 - prefix) as nat) as int) == net as int / (pow2(
        (32 - prefix) as nat,
    ) as int)
}

/// Parse one decimal octet.
fn parse_octet(s: &String) -> (r: Option<u8>)
    ensures
        match r {
            Some(v) => is_octet(s@) && v as int == dec_val(s@),
            None => !is_octet(s@),
        },
{
    let n = s.unicode_len();
    if n == 0 || n > 3 {
        return None;
    }
    if n > 1 && s.as_str().get_char(0) == '0' {
        return None;
    }
    match parse_small_dec(s.as_str()) {
        Some(v) => if v <= 255 {
            Some(v as u8)
        } else {
            None
        },
        None => None,
    }
}

/// Parse a dotted-quad IPv4 address.
pub fn parse_ipv4(s: &String) -> (r: Option<u32>)
    ensures
        r == spec_parse_ipv4(s@),
{
    let dot = String::from_str(".");
    proof {
        reveal_strlit(".");
        assert(dot@ =~= seq!['.']);
    }
    let parts = str_split(s, &dot);
    let ghost sparts = split_chars(s@, seq!['.']);
    assert(parts@.map_values(|p: String| p@) == sparts);
    if parts.len() != 4 {
        return None;
    }
    assert(parts@[0]@ == sparts[0] && parts@[1]@ == sparts[1] && parts@[2]@ == sparts[2]
        && parts@[3]@ == sparts[3]);
    let a = match parse_octet(&parts[0]) {
        Some(v) => v,
        None => {
            return None;
        },
    };
    let b = match parse_octet(&parts[1]) {
        Some(v) => v,
        None => {
            return None;
        },
    };
    let c = match parse_octet(&parts[2]) {
        Some(v) => v,
        None => {
            return None;
        },
    };
    let d = match parse_octet(&parts[3]) {
        Some(v) => v,
        None => {
            return None;
        },
    };
    Some((a as u32) * 0x1000000 + (b as u32) * 0x10000 + (c as u32) * 0x100 + (d as u32))
}

/// Parse an IPv4 CIDR string `a.b.c.d/n`.
pub fn parse_cidr(s: &String) -> (r: Option<(u32, u32)>)
    ensures
        r == spec_parse_cidr(s@),
        r is Some ==> r->Some_0.1 <= 32,
{
    let slash = String::from_str("/");
    proof {
        reveal_strlit("/");
        assert(slash@ =~= seq!['/']);
    }
    let parts = str_split(s, &slash);
    let ghost sparts = split_chars(s@, seq!['/']);
    assert(parts@.map_values(|p: String| p@) == sparts);
    if parts.len() != 2 {
        return None;
    }
    assert(parts@[0]@ == sparts[0] && parts@[1]@ == sparts[1]);
    let net = match parse_ipv4(&parts[0]) {
        Some(v) => v,
        None => {
            return None;
        },
    };
    let plen_str = &parts[1];
    let n = plen_str.unicode_len();
    if n == 0 || n > 2 {
        return None;
    }
    match parse_small_dec(plen_str.as_str()) {
        Some(v) => if v <= 32 {
            Some((net, v as u32))
        } else {
            None
        },
        None => None,
    }
}

/// Whether `ip` lies in the CIDR range, executable.
pub fn in_cidr(ip: u32, net: u32, prefix: u32) -> (r: bool)
    requires
        prefix <= 32,
    ensures
        r == spec_in_cidr(ip, net, prefix as int),
{
    if prefix == 0 {
        return true;
    }
    let k: u32 = 32 - prefix;
    let mut d: u32 = 1;
    let mut j: u32 = 0;
    proof {
        lemma2_to64();
    }
    while j < k
        invariant
            j <= k,
            k <= 31,
            d as nat == pow2(j as nat),
        decreases k - j,
    {
        proof {
            lemma_pow2_unfold((j + 1) as nat);
            lemma_pow2_strictly_increases((j + 1) as nat, 32);
            lemma2_to64();
        }
        d = d * 2;
        j = j + 1;
    }
    proof {
        lemma_pow2_pos(k as nat);
    }
    ip / d == net / d
}

/// What one rule decides when its value has been tested against the client.
pub open spec fn spec_verdict(t: AllowType, matched: bool) -> AllowResult {
    if matched && t == AllowType::Allow {
        AllowResult::Allow
    } else if matched && t == AllowType::Deny {
        AllowResult::Deny
    } else {
        AllowResult::Notmapping
    }
}

/// Whether a rule value matches the client address: CIDR membership when
/// the value holds a `/`, exact string equality otherwise. `None` when the
/// value or the client address cannot be parsed where parsing is needed.
pub open spec fn spec_value_matches(v: Seq<char>, ip: Seq<char>) -> Option<bool> {
    if v.contains('/') {
        match (spec_parse_cidr(v), spec_parse_ipv4(ip)) {
            (Some(range), Some(a)) => Some(spec_in_cidr(a, range.0, range.1 as int)),
            _ => None,
        }
    } else {
        Some(v == ip)
    }
}

/// The outcome of one rule for one client address; `None` is a
/// configuration error (missing or unparsable value).
pub open spec fn spec_is_allow(obj: AllowDenyObject, ip: Seq<char>) -> Option<AllowResult> {
    if obj.limit_type == AllowType::AllowAll {
        Some(AllowResult::Allow)
    } else if obj.limit_type == AllowType::DenyAll {
        Some(AllowResult::Deny)
    } else {
        match obj.value {
            None => None,
            Some(v) => match spec_value_matches(v@, ip) {
                Some(m) => Some(spec_verdict(obj.limit_type, m)),
                None => None,
            },
        }
    }
}

/// Whether `c` occurs in `s`, executable.
fn str_contains_char(s: &str, c: char) -> (r: bool)
    ensures
        r == s@.contains(c),
{
    let n = s.unicode_len();
    let mut i: usize = 0;
    while i < n
        invariant
            i <= n,
            n == s@.len(),
            forall|j: int| 0 <= j < i ==> s@[j] != c,
        decreases n - i,
    {
        if s.get_char(i) == c {
            assert(s@.contains(c)) by {
                assert(0 <= i < s@.len() && s@[i as int] == c);
            }
            return true;
        }
        i = i + 1;
    }
    false
}

impl AllowDenyObject {
    /// Evaluate this rule against a client address. `Ok` carries the rule's
    /// outcome; `Err` reports a configuration error: a missing value, or a
    /// value (or client address) that is not valid IPv4 where the rule
    /// needs one.
    pub fn is_allow(&self, client_ip: String) -> (r: Result<AllowResult, AppError>)
        ensures
            match r {
                Ok(res) => spec_is_allow(*self, client_ip@) == Some(res),
                Err(_) => spec_is_allow(*self, client_ip@) is None,
            },
    {
        if self.limit_type == AllowType::AllowAll {
            return Ok(AllowResult::Allow);
        }
        if self.limit_type == AllowType::DenyAll {
            return Ok(AllowResult::Deny);
        }
        let config_value = match &self.value {
            Some(v) => v,
            None => {
                return Err(
                    AppError(
                        String::from_str(
                            "the value counld not be none when the limit_type is not AllowAll or DenyAll!",
                        ),
                    ),
                );
            },
        };
        let matched: bool;
        if str_contains_char(config_value.as_str(), '/') {
            let range = match parse_cidr(config_value) {
                Some(v) => v,
                None => {
                    return Err(
                        AppError(String::from_str("the value is not a valid ipv4 cidr range!")),
                    );
                },
            };
            let source = match parse_ipv4(&client_ip) {
                Some(v) => v,
                None => {
                    return Err(
                        AppError(String::from_str("the client ip is not a valid ipv4 address!")),
                    );
                },
            };
            matched = in_cidr(source, range.0, range.1);
        } else {
            matched = str_equal(config_value.as_str(), client_ip.as_str());
        }
        if matched && self.limit_type == AllowType::Allow {
            return Ok(AllowResult::Allow);
        }
        if matched && self.limit_type == AllowType::Deny {
            return Ok(AllowResult::Deny);
        }
        Ok(AllowResult::Notmapping)
    }
}

} // verus!
