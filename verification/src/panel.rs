//! The route editor of the desktop panel: the port typed into a text field
//! is read as `str::parse::<u16>` reads it, and a non-empty domain then gets
//! `.test` and is routed to that port.
use vstd::prelude::*;
use crate::config::{DevBindConfig, routes_view, spec_add_route};
use crate::runner::{normalize_domain, normalized_domain};
use crate::text::{all_digits, chars_of, copy_string, decimal_value, digit_value};

verus! {

/// The digits of a port field: the text after one optional leading `+`.
pub open spec fn port_digits(s: Seq<char>) -> Seq<char> {
    if s.len() > 0 && s[0] == '+' {
        s.drop_first()
    } else {
        s
    }
}

/// What `str::parse::<u16>` gives for `s`: an optional `+`, then one or more
/// ASCII digits whose value fits in 16 bits; anything else is refused.
pub open spec fn parsed_port(s: Seq<char>) -> Option<u16> {
    let digits = port_digits(s);
    if digits.len() > 0 && all_digits(digits) && decimal_value(digits) <= 65535 {
        Some(decimal_value(digits) as u16)
    } else {
        None
    }
}

/// A prefix of a digit string denotes no more than the whole string.
pub proof fn lemma_decimal_value_prefix(s: Seq<char>, k: int)
    requires
        all_digits(s),
        0 <= k <= s.len(),
    ensures
        0 <= decimal_value(s.take(k)) <= decimal_value(s),
    decreases s.len() - k,
{
    if k < s.len() {
        lemma_decimal_value_prefix(s, k + 1);
        assert(s.take(k + 1).drop_last() =~= s.take(k));
        assert(s.take(k + 1).last() == s[k]);
    } else {
        assert(s.take(k) =~= s);
        lemma_decimal_value_nonneg(s);
    }
}

/// A digit string denotes a non-negative number.
pub proof fn lemma_decimal_value_nonneg(s: Seq<char>)
    requires
        all_digits(s),
    ensures
        decimal_value(s) >= 0,
    decreases s.len(),
{
    if s.len() > 0 {
        assert(all_digits(s.drop_last()));
        lemma_decimal_value_nonneg(s.drop_last());
    }
}

/// Reads a port number as `str::parse::<u16>` does.
pub fn parse_port(s: &str) -> (p: Option<u16>)
    ensures
        p == parsed_port(s@),
{
    let cs = chars_of(s);
    let n = cs.len();
    let start: usize = if n > 0 && cs[0] == '+' { 1 } else { 0 };
    let ghost digits = port_digits(s@);
    assert(digits =~= cs@.skip(start as int));
    if start == n {
        return None;
    }
    let mut value: u32 = 0;
    let mut i: usize = start;
    while i < n
        invariant
            start <= i <= n,
            n == cs@.len(),
            cs@ == s@,
            digits == cs@.skip(start as int),
            digits == port_digits(s@),
            all_digits(digits.take(i - start)),
            value == decimal_value(digits.take(i - start)),
            value <= 65535,
        decreases n - i,
    {
        let c = cs[i];
        if c < '0' || c > '9' {
            assert(digits[i - start] == c);
            assert(!all_digits(digits));
            return None;
        }
        let d: u32 = if c == '0' { 0 } else if c == '1' { 1 } else if c == '2' { 2 } else if c == '3' {
            3
        } else if c == '4' { 4 } else if c == '5' { 5 } else if c == '6' { 6 } else if c == '7' {
            7
        } else if c == '8' { 8 } else { 9 };
        assert(d == digit_value(c));
        let ghost prefix = digits.take(i - start);
        assert(digits.take(i + 1 - start).drop_last() =~= prefix);
        assert(digits.take(i + 1 - start).last() == c);
        value = value * 10 + d;
        i = i + 1;
        assert(all_digits(digits.take(i - start)));
        assert(value == decimal_value(digits.take(i - start)));
        if value > 65535 {
            proof {
                if all_digits(digits) {
                    lemma_decimal_value_prefix(digits, i - start);
                    assert(decimal_value(digits) > 65535);
                }
            }
            assert(parsed_port(s@) is None);
            return None;
        }
    }
    assert(digits.take(n - start) =~= digits);
    Some(value as u16)
}

/// What saving the route editor's fields did.
#[derive(Debug, Clone, PartialEq, Eq)]
pub enum RouteEdit {
    /// The port field does not hold a port number (`INVALID_PORT`).
    InvalidPort,
    /// The domain field is empty; nothing changed.
    NoDomain,
    /// `domain` now routes to `port` (`SAVED`).
    Saved { domain: String, port: u16 },
}

/// Saves the route editor's fields into the configuration: the port must
/// parse; an empty domain is ignored; otherwise the domain gets `.test` and
/// its route is set to the port (or added).
pub fn save_route(config: &mut DevBindConfig, domain_input: &str, port_input: &str) -> (r: RouteEdit)
    ensures
        parsed_port(port_input@) is None ==> (r == RouteEdit::InvalidPort && *final(config) == *old(config)),
        parsed_port(port_input@) is Some && domain_input@.len() == 0 ==> (r == RouteEdit::NoDomain && *final(config)
            == *old(config)),
        parsed_port(port_input@) matches Some(p) ==> (domain_input@.len() > 0 ==> (r matches RouteEdit::Saved {
            domain,
            port,
        } && domain@ == normalized_domain(domain_input@) && port == p && routes_view(final(config).routes@)
            == spec_add_route(routes_view(old(config).routes@), domain@, p) && final(config).proxy
            == old(config).proxy)),
{
    let port = match parse_port(port_input) {
        None => return RouteEdit::InvalidPort,
        Some(p) => p,
    };
    if domain_input.unicode_len() == 0 {
        return RouteEdit::NoDomain;
    }
    let domain = normalize_domain(domain_input);
    config.add_route(copy_string(&domain), port);
    RouteEdit::Saved { domain, port }
}

} // verus!
