//! What the `add` and `list` commands compute: the route a new mapping
//! becomes, the confirmation line, and the route table that `list` prints.
//! Loading and saving the configuration and printing stay outside.
use vstd::prelude::*;
use crate::config::{DevBindConfig, RouteView, routes_view, spec_add_route};
use crate::runner::{normalize_domain, normalized_domain};
use crate::text::{chars_of, concat, copy_string, decimal, to_owned, push_str, string_from_chars, u16_to_decimal};

verus! {

/// `s` padded with spaces on the right to `width` characters (as `{:<width}`
/// formats it); longer texts are left as they are.
pub open spec fn pad_right(s: Seq<char>, width: nat) -> Seq<char> {
    if s.len() >= width {
        s
    } else {
        s + Seq::new((width - s.len()) as nat, |i: int| ' ')
    }
}

/// One row of the route table.
pub open spec fn table_row(domain: Seq<char>, port: u16) -> Seq<char> {
    pad_right(domain, 25) + " | "@ + pad_right(decimal(port as nat), 8)
}

/// Forty dashes.
pub open spec fn rule_line() -> Seq<char> {
    Seq::new(40, |i: int| '-')
}

/// The lines `list` prints for a configuration whose HTTPS port is `https_port`
/// and whose routes are `rs`.
pub open spec fn table_lines(https_port: u16, rs: Seq<RouteView>) -> Seq<Seq<char>> {
    seq![
        "DevBind Configuration (Proxy Port: "@ + decimal(https_port as nat) + "):"@,
        rule_line(),
        table_row_text("Domain"@, "Port"@),
        rule_line(),
    ] + if rs.len() == 0 {
        seq!["  (no routes configured)"@]
    } else {
        rs.map_values(|r: RouteView| table_row(r.0, r.1))
    }
}

/// A table row built from two texts.
pub open spec fn table_row_text(left: Seq<char>, right: Seq<char>) -> Seq<char> {
    pad_right(left, 25) + " | "@ + pad_right(right, 8)
}

/// The confirmation `add` prints.
pub open spec fn added_text(domain: Seq<char>, port: u16) -> Seq<char> {
    "  ✅  "@ + domain + " → localhost:"@ + decimal(port as nat)
}

/// Pads `s` with spaces on the right to `width` characters.
pub fn pad_right_to(s: &str, width: usize) -> (r: String)
    ensures
        r@ == pad_right(s@, width as nat),
{
    let mut v = chars_of(s);
    let ghost start = v@;
    while v.len() < width
        invariant
            start == s@,
            v@.len() >= start.len(),
            v@.len() == start.len() || v@.len() <= width,
            v@ == start + Seq::new((v@.len() - start.len()) as nat, |i: int| ' '),
        decreases width - v@.len(),
    {
        v.push(' ');
        assert(v@ =~= start + Seq::new((v@.len() - start.len()) as nat, |i: int| ' '));
    }
    proof {
        if start.len() >= width {
            assert(v@ =~= start);
        } else {
            assert(v@.len() == width);
        }
    }
    string_from_chars(v.as_slice())
}

fn row(left: &str, right: &str) -> (r: String)
    ensures
        r@ == table_row_text(left@, right@),
{
    let mut r = pad_right_to(left, 25);
    push_str(&mut r, " | ");
    let p = pad_right_to(right, 8);
    push_str(&mut r, p.as_str());
    r
}

fn rule() -> (r: String)
    ensures
        r@ == rule_line(),
{
    let mut v: Vec<char> = Vec::new();
    while v.len() < 40
        invariant
            v@.len() <= 40,
            forall|j: int| 0 <= j < v@.len() ==> v@[j] == '-',
        decreases 40 - v@.len(),
    {
        v.push('-');
    }
    assert(v@ =~= rule_line());
    string_from_chars(v.as_slice())
}

/// The lines `list` prints: a header with the HTTPS port, the column titles
/// between two rules, then one row per route (or a note that there are none).
pub fn route_table(config: &DevBindConfig) -> (lines: Vec<String>)
    ensures
        lines@.map_values(|l: String| l@) == table_lines(config.proxy.port_https, routes_view(config.routes@)),
{
    let mut lines: Vec<String> = Vec::new();
    let port = u16_to_decimal(config.proxy.port_https);
    let mut head = concat("DevBind Configuration (Proxy Port: ", port.as_str());
    push_str(&mut head, "):");
    lines.push(head);
    lines.push(rule());
    lines.push(row("Domain", "Port"));
    lines.push(rule());
    let ghost header = lines@.map_values(|l: String| l@);
    let ghost rs = routes_view(config.routes@);
    if config.routes.len() == 0 {
        lines.push(to_owned("  (no routes configured)"));
        assert(lines@.map_values(|l: String| l@) =~= table_lines(config.proxy.port_https, rs));
        return lines;
    }
    let mut i: usize = 0;
    while i < config.routes.len()
        invariant
            i <= config.routes@.len(),
            rs == routes_view(config.routes@),
            header.len() == 4,
            lines@.len() == 4 + i,
            lines@.map_values(|l: String| l@) == header + rs.take(i as int).map_values(
                |r: RouteView| table_row(r.0, r.1),
            ),
        decreases config.routes@.len() - i,
    {
        let p = u16_to_decimal(config.routes[i].port);
        let line = row(config.routes[i].domain.as_str(), p.as_str());
        let ghost before = lines@.map_values(|l: String| l@);
        assert(line@ == table_row(rs[i as int].0, rs[i as int].1));
        lines.push(line);
        assert(lines@.map_values(|l: String| l@) =~= before.push(line@));
        assert(rs.take(i + 1) =~= rs.take(i as int).push(rs[i as int]));
        i = i + 1;
        assert(lines@.map_values(|l: String| l@) =~= header + rs.take(i as int).map_values(
            |r: RouteView| table_row(r.0, r.1),
        ));
    }
    assert(rs.take(i as int) =~= rs);
    assert(lines@.map_values(|l: String| l@) =~= table_lines(config.proxy.port_https, rs));
    lines
}

/// The table `list` prints has four header lines, then one line per
/// configured route, in the configuration's order (or a single note when
/// there are none): the line of route `i` is its domain padded to 25
/// columns, ` | `, and its port padded to 8 columns.
pub proof fn law_route_table_rows(config: DevBindConfig)
    ensures
        ({
            let lines = table_lines(config.proxy.port_https, routes_view(config.routes@));
            let n = config.routes@.len();
            &&& lines.len() == 4 + (if n == 0 { 1 } else { n })
            &&& n == 0 ==> lines[4] == "  (no routes configured)"@
            &&& forall|i: int| 0 <= i < n ==> #[trigger] lines[4 + i] == pad_right(config.routes@[i].domain@, 25)
                + " | "@ + pad_right(decimal(config.routes@[i].port as nat), 8)
        }),
{
    let lines = table_lines(config.proxy.port_https, routes_view(config.routes@));
    let n = config.routes@.len();
    assert forall|i: int| 0 <= i < n implies #[trigger] lines[4 + i] == pad_right(config.routes@[i].domain@, 25)
        + " | "@ + pad_right(decimal(config.routes@[i].port as nat), 8) by {
        assert(routes_view(config.routes@)[i] == config.routes@[i]@);
    }
}

/// What `add` does to the configuration: the domain gets `.test` unless it
/// has it, then that domain's route is set to `port` (or added). Returns the
/// domain as stored.
pub fn add_mapping(config: &mut DevBindConfig, domain: &str, port: u16) -> (d: String)
    ensures
        d@ == normalized_domain(domain@),
        routes_view(final(config).routes@) == spec_add_route(routes_view(old(config).routes@), d@, port),
        final(config).proxy == old(config).proxy,
        final(config).ui == old(config).ui,
{
    let d = normalize_domain(domain);
    config.add_route(copy_string(&d), port);
    d
}

/// The confirmation `add` prints for `domain` now mapped to `port`.
pub fn added_message(domain: &str, port: u16) -> (m: String)
    ensures
        m@ == added_text(domain@, port),
{
    let mut m = concat("  ✅  ", domain);
    push_str(&mut m, " → localhost:");
    let p = u16_to_decimal(port);
    push_str(&mut m, p.as_str());
    m
}

} // verus!
