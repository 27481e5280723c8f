//! Ephemeral `devbind run` sessions: domain normalisation, the environment
//! handed to the child process, and the command line it is started with.
use vstd::prelude::*;
use crate::text::{
    concat, copy_string, decimal, lemma_decimal_round_trip, strings_view, ends_with, push_str, replace_all, replaced,
    str_ends_with, to_owned, u16_to_decimal,
};

verus! {

/// Why a `devbind run` session could not be set up.
#[derive(Debug, Clone, PartialEq, Eq)]
pub enum RunError {
    /// The command list was empty.
    NoCommand,
    /// No command was given and none could be detected for the project.
    NotDetected { name: String },
    /// No free local port could be obtained; the message says why.
    PortAllocation { message: String },
}

/// The message shown for an empty command list.
pub open spec fn no_command_message() -> Seq<char> {
    "No command specified. Usage: devbind run <name> <command...>"@
}

/// The message shown when no command could be detected for `name`.
pub open spec fn not_detected_message(name: Seq<char>) -> Seq<char> {
    "Could not auto-detect a dev command for this project.\nPlease specify one explicitly:\n\n  devbind run "@
        + name + " <command...>\n\nTip: run 'devbind run --help' for examples."@
}

/// The message of a run error.
pub open spec fn run_error_message(e: RunError) -> Seq<char> {
    match e {
        RunError::NoCommand => no_command_message(),
        RunError::NotDetected { name } => not_detected_message(name@),
        RunError::PortAllocation { message } => message@,
    }
}

impl RunError {
    /// The human-readable message of this error.
    pub fn to_string(&self) -> (s: String)
        ensures
            s@ == run_error_message(*self),
    {
        match self {
            RunError::NoCommand => to_owned("No command specified. Usage: devbind run <name> <command...>"),
            RunError::NotDetected { name } => {
                let mut s = to_owned(
                    "Could not auto-detect a dev command for this project.\nPlease specify one explicitly:\n\n  devbind run ",
                );
                push_str(&mut s, name.as_str());
                push_str(&mut s, " <command...>\n\nTip: run 'devbind run --help' for examples.");
                s
            },
            RunError::PortAllocation { message } => copy_string(message),
        }
    }
}

/// `name` with `.test` appended unless it already ends with it.
pub open spec fn normalized_domain(name: Seq<char>) -> Seq<char> {
    if ends_with(name, ".test"@) {
        name
    } else {
        name + ".test"@
    }
}

/// Appends `.test` to `name` unless it already ends with it.
pub fn normalize_domain(name: &str) -> (d: String)
    ensures
        d@ == normalized_domain(name@),
{
    if str_ends_with(name, ".test") {
        to_owned(name)
    } else {
        concat(name, ".test")
    }
}

/// A normalised domain ends with `.test`, and normalising it again changes nothing.
pub proof fn law_normalize_idempotent(name: Seq<char>)
    ensures
        ends_with(normalized_domain(name), ".test"@),
        normalized_domain(normalized_domain(name)) == normalized_domain(name),
{
    let t = ".test"@;
    if !ends_with(name, t) {
        let n = name + t;
        assert(n.subrange(n.len() - t.len(), n.len() as int) =~= t);
    }
}

/// An ephemeral session created by `devbind run`: a `.test` domain and the
/// local port the child process listens on.
#[derive(Debug, Clone, PartialEq, Eq)]
pub struct EphemeralSession {
    pub domain: String,
    pub port: u16,
}

/// The environment of the child process: `PORT`, `HOST` and `DEVBIND_DOMAIN`.
pub open spec fn spec_env_vars(domain: Seq<char>, port: u16) -> Seq<(Seq<char>, Seq<char>)> {
    seq![
        ("PORT"@, decimal(port as nat)),
        ("HOST"@, "0.0.0.0"@),
        ("DEVBIND_DOMAIN"@, "https://"@ + domain),
    ]
}

/// The model of a list of environment variables.
pub open spec fn pairs_view(v: Seq<(String, String)>) -> Seq<(Seq<char>, Seq<char>)> {
    v.map_values(|p: (String, String)| (p.0@, p.1@))
}

impl EphemeralSession {
    /// Creates a session for `name` on the port that was allocated for it
    /// (`free_port` is the outcome of asking the OS for a free port).
    pub fn new(name: &str, free_port: Result<u16, String>) -> (res: Result<Self, RunError>)
        ensures
            match free_port {
                Ok(port) => res matches Ok(s) && s.domain@ == normalized_domain(name@) && s.port == port,
                Err(message) => res == Err::<Self, RunError>(RunError::PortAllocation { message }),
            },
    {
        let domain = normalize_domain(name);
        match free_port {
            Ok(port) => Ok(EphemeralSession { domain, port }),
            Err(message) => Err(RunError::PortAllocation { message }),
        }
    }

    /// Environment variables to inject into the child process.
    pub fn env_vars(&self) -> (v: Vec<(String, String)>)
        ensures
            pairs_view(v@) == spec_env_vars(self.domain@, self.port),
    {
        let mut v: Vec<(String, String)> = Vec::new();
        v.push((to_owned("PORT"), u16_to_decimal(self.port)));
        v.push((to_owned("HOST"), to_owned("0.0.0.0")));
        v.push((to_owned("DEVBIND_DOMAIN"), concat("https://", self.domain.as_str())));
        assert(pairs_view(v@) =~= spec_env_vars(self.domain@, self.port));
        v
    }

    /// One argument of the child's command line with the `$PORT`, `${PORT}`,
    /// `$HOST`, `${HOST}`, `$DEVBIND_DOMAIN` and `${DEVBIND_DOMAIN}`
    /// placeholders substituted, in that order.
    pub fn expand_placeholders(&self, arg: &str) -> (r: String)
        ensures
            r@ == spec_expand(arg@, self.domain@, self.port),
    {
        let port = u16_to_decimal(self.port);
        let host = to_owned("0.0.0.0");
        let domain = concat("https://", self.domain.as_str());
        proof {
            reveal_strlit("$PORT");
            reveal_strlit("${PORT}");
            reveal_strlit("$HOST");
            reveal_strlit("${HOST}");
            reveal_strlit("$DEVBIND_DOMAIN");
            reveal_strlit("${DEVBIND_DOMAIN}");
        }
        let a = replace_all(arg, "$PORT", port.as_str());
        let b = replace_all(a.as_str(), "${PORT}", port.as_str());
        let c = replace_all(b.as_str(), "$HOST", host.as_str());
        let d = replace_all(c.as_str(), "${HOST}", host.as_str());
        let e = replace_all(d.as_str(), "$DEVBIND_DOMAIN", domain.as_str());
        replace_all(e.as_str(), "${DEVBIND_DOMAIN}", domain.as_str())
    }

    /// The arguments after the program name, with placeholders substituted.
    pub fn child_args(&self, command: &[String]) -> (args: Vec<String>)
        requires
            command@.len() > 0,
        ensures
            args@.len() == command@.len() - 1,
            forall|i: int| 0 <= i < args@.len() ==> (#[trigger] args@[i])@ == spec_expand(
                command@[i + 1]@,
                self.domain@,
                self.port,
            ),
    {
        let mut args: Vec<String> = Vec::new();
        let mut i: usize = 1;
        while i < command.len()
            invariant
                1 <= i <= command@.len(),
                args@.len() == i - 1,
                forall|k: int| 0 <= k < args@.len() ==> (#[trigger] args@[k])@ == spec_expand(
                    command@[k + 1]@,
                    self.domain@,
                    self.port,
                ),
            decreases command@.len() - i,
        {
            args.push(self.expand_placeholders(command[i].as_str()));
            i = i + 1;
        }
        args
    }
}

/// The placeholder substitution applied to each argument of the child command.
pub open spec fn spec_expand(arg: Seq<char>, domain: Seq<char>, port: u16) -> Seq<char> {
    let p = decimal(port as nat);
    let h = "0.0.0.0"@;
    let d = "https://"@ + domain;
    replaced(
        replaced(
            replaced(
                replaced(replaced(replaced(arg, "$PORT"@, p), "${PORT}"@, p), "$HOST"@, h),
                "${HOST}"@,
                h,
            ),
            "$DEVBIND_DOMAIN"@,
            d,
        ),
        "${DEVBIND_DOMAIN}"@,
        d,
    )
}

/// `s` holds no `$` character.
pub open spec fn no_dollar(s: Seq<char>) -> bool {
    forall|i: int| 0 <= i < s.len() ==> s[i] != '$'
}

/// One of the six placeholders that a child's arguments may hold.
pub open spec fn is_placeholder(p: Seq<char>) -> bool {
    ||| p == "$PORT"@
    ||| p == "${PORT}"@
    ||| p == "$HOST"@
    ||| p == "${HOST}"@
    ||| p == "$DEVBIND_DOMAIN"@
    ||| p == "${DEVBIND_DOMAIN}"@
}

/// Text without `$` in front of the rest passes a replacement of a pattern
/// that starts with `$` unchanged.
pub proof fn lemma_replaced_skips_plain(a: Seq<char>, y: Seq<char>, from: Seq<char>, to: Seq<char>)
    requires
        no_dollar(a),
        from.len() > 0,
        from[0] == '$',
    ensures
        replaced(a + y, from, to) == a + replaced(y, from, to),
    decreases a.len(),
{
    let s = a + y;
    if a.len() == 0 {
        assert(s =~= y);
    } else if s.len() < from.len() {
        assert(a + y =~= s);
    } else {
        assert(s.subrange(0, from.len() as int)[0] == a[0]);
        assert(s.drop_first() =~= a.drop_first() + y);
        lemma_replaced_skips_plain(a.drop_first(), y, from, to);
        assert(seq![s[0]] + (a.drop_first() + replaced(y, from, to)) =~= a + replaced(y, from, to));
    }
}

/// Replacing a pattern that starts with `$` leaves text without `$` as it is.
pub proof fn lemma_replaced_plain(x: Seq<char>, from: Seq<char>, to: Seq<char>)
    requires
        no_dollar(x),
        from.len() > 0,
        from[0] == '$',
    ensures
        replaced(x, from, to) == x,
{
    lemma_replaced_skips_plain(x, Seq::empty(), from, to);
    assert(x + Seq::<char>::empty() =~= x);
}

/// The facts about the placeholders' spelling that substitution rests on:
/// each starts with `$`, has no other `$`, and two different ones already
/// differ in their second or third character.
pub proof fn lemma_placeholder_shape(p: Seq<char>, q: Seq<char>)
    requires
        is_placeholder(p),
        is_placeholder(q),
    ensures
        p.len() >= 5,
        p[0] == '$',
        no_dollar(p.drop_first()),
        p == q || p[1] != q[1] || p[2] != q[2],
{
    reveal_strlit("$PORT");
    reveal_strlit("${PORT}");
    reveal_strlit("$HOST");
    reveal_strlit("${HOST}");
    reveal_strlit("$DEVBIND_DOMAIN");
    reveal_strlit("${DEVBIND_DOMAIN}");
}

/// Replacing `from` in a text that starts with a placeholder `p` followed by
/// text without `$`: the placeholder is substituted when it is `from`, and
/// nothing changes otherwise.
pub proof fn lemma_replaced_placeholder_front(p: Seq<char>, b: Seq<char>, from: Seq<char>, to: Seq<char>)
    requires
        is_placeholder(p),
        is_placeholder(from),
        no_dollar(b),
    ensures
        replaced(p + b, from, to) == if p == from { to + b } else { p + b },
{
    lemma_placeholder_shape(p, from);
    lemma_placeholder_shape(from, p);
    let s = p + b;
    lemma_replaced_plain(b, from, to);
    if p == from {
        assert(s.subrange(0, from.len() as int) =~= from);
        assert(s.subrange(from.len() as int, s.len() as int) =~= b);
    } else if s.len() >= from.len() {
        let pre = s.subrange(0, from.len() as int);
        assert(pre[1] == p[1] && pre[2] == p[2]);
        assert(pre != from);
        assert(s.drop_first() =~= p.drop_first() + b);
        lemma_replaced_skips_plain(p.drop_first(), b, from, to);
        assert(seq![s[0]] + (p.drop_first() + b) =~= s);
    }
}

/// One substitution pass over `a + m + b`, where `a` and `b` hold no `$` and
/// `m` is a placeholder or text without `$`.
pub proof fn lemma_substitution_pass(a: Seq<char>, m: Seq<char>, b: Seq<char>, from: Seq<char>, to: Seq<char>)
    requires
        no_dollar(a),
        no_dollar(b),
        is_placeholder(from),
        is_placeholder(m) || no_dollar(m),
    ensures
        replaced(a + m + b, from, to) == a + (if m == from { to } else { m }) + b,
        no_dollar(m) ==> m != from,
{
    lemma_placeholder_shape(from, from);
    if is_placeholder(m) {
        assert(a + m + b =~= a + (m + b));
        lemma_replaced_skips_plain(a, m + b, from, to);
        lemma_replaced_placeholder_front(m, b, from, to);
        assert(a + (to + b) =~= a + to + b);
    } else {
        assert(m != from) by {
            if m == from {
                assert(m[0] == '$');
            }
        }
        assert(no_dollar(a + m + b)) by {
            assert forall|i: int| 0 <= i < (a + m + b).len() implies (a + m + b)[i] != '$' by {
                if i < a.len() {
                } else if i < a.len() + m.len() {
                    assert((a + m + b)[i] == m[i - a.len()]);
                } else {
                    assert((a + m + b)[i] == b[i - a.len() - m.len()]);
                }
            }
        }
        lemma_replaced_plain(a + m + b, from, to);
    }
    if no_dollar(m) && m == from {
        assert(m[0] == '$');
    }
}

/// An argument holding one placeholder between texts without `$` comes out
/// with that placeholder replaced by its value and the rest untouched:
/// `$PORT` and `${PORT}` by the port in decimal, `$HOST` and `${HOST}` by
/// `0.0.0.0`, `$DEVBIND_DOMAIN` and `${DEVBIND_DOMAIN}` by `https://` and the
/// domain.
pub proof fn law_expand_placeholder(a: Seq<char>, p: Seq<char>, b: Seq<char>, domain: Seq<char>, port: u16)
    requires
        no_dollar(a),
        no_dollar(b),
        no_dollar(domain),
        is_placeholder(p),
    ensures
        p == "$PORT"@ || p == "${PORT}"@ ==> spec_expand(a + p + b, domain, port) == a + decimal(port as nat) + b,
        p == "$HOST"@ || p == "${HOST}"@ ==> spec_expand(a + p + b, domain, port) == a + "0.0.0.0"@ + b,
        p == "$DEVBIND_DOMAIN"@ || p == "${DEVBIND_DOMAIN}"@ ==> spec_expand(a + p + b, domain, port) == a
            + "https://"@ + domain + b,
{
    let pv = decimal(port as nat);
    let hv = "0.0.0.0"@;
    let dv = "https://"@ + domain;
    lemma_decimal_round_trip(port as nat);
    reveal_strlit("0.0.0.0");
    reveal_strlit("https://");
    reveal_strlit("$PORT");
    reveal_strlit("${PORT}");
    reveal_strlit("$HOST");
    reveal_strlit("${HOST}");
    reveal_strlit("$DEVBIND_DOMAIN");
    reveal_strlit("${DEVBIND_DOMAIN}");
    assert(no_dollar(pv)) by {
        assert forall|i: int| 0 <= i < pv.len() implies pv[i] != '$' by {
            assert('0' <= pv[i] <= '9');
        }
    }
    assert(no_dollar(hv));
    assert(no_dollar(dv)) by {
        assert forall|i: int| 0 <= i < dv.len() implies dv[i] != '$' by {
            if i >= "https://"@.len() {
                assert(dv[i] == domain[i - "https://"@.len()]);
            }
        }
    }
    assert("$PORT"@[1] == 'P' && "$HOST"@[1] == 'H' && "$DEVBIND_DOMAIN"@[1] == 'D');
    assert("${PORT}"@[2] == 'P' && "${HOST}"@[2] == 'H' && "${DEVBIND_DOMAIN}"@[2] == 'D');
    let m1 = if p == "$PORT"@ { pv } else { p };
    lemma_substitution_pass(a, p, b, "$PORT"@, pv);
    let m2 = if m1 == "${PORT}"@ { pv } else { m1 };
    lemma_substitution_pass(a, m1, b, "${PORT}"@, pv);
    let m3 = if m2 == "$HOST"@ { hv } else { m2 };
    lemma_substitution_pass(a, m2, b, "$HOST"@, hv);
    let m4 = if m3 == "${HOST}"@ { hv } else { m3 };
    lemma_substitution_pass(a, m3, b, "${HOST}"@, hv);
    let m5 = if m4 == "$DEVBIND_DOMAIN"@ { dv } else { m4 };
    lemma_substitution_pass(a, m4, b, "$DEVBIND_DOMAIN"@, dv);
    lemma_substitution_pass(a, m5, b, "${DEVBIND_DOMAIN}"@, dv);
    assert(a + dv + b =~= a + "https://"@ + domain + b);
}

/// An argument without `$` is passed to the child unchanged.
pub proof fn law_expand_plain_argument(arg: Seq<char>, domain: Seq<char>, port: u16)
    requires
        no_dollar(arg),
    ensures
        spec_expand(arg, domain, port) == arg,
{
    lemma_placeholder_shape("$PORT"@, "$PORT"@);
    lemma_placeholder_shape("${PORT}"@, "${PORT}"@);
    lemma_placeholder_shape("$HOST"@, "$HOST"@);
    lemma_placeholder_shape("${HOST}"@, "${HOST}"@);
    lemma_placeholder_shape("$DEVBIND_DOMAIN"@, "$DEVBIND_DOMAIN"@);
    lemma_placeholder_shape("${DEVBIND_DOMAIN}"@, "${DEVBIND_DOMAIN}"@);
    let p = decimal(port as nat);
    let h = "0.0.0.0"@;
    let d = "https://"@ + domain;
    lemma_replaced_plain(arg, "$PORT"@, p);
    lemma_replaced_plain(arg, "${PORT}"@, p);
    lemma_replaced_plain(arg, "$HOST"@, h);
    lemma_replaced_plain(arg, "${HOST}"@, h);
    lemma_replaced_plain(arg, "$DEVBIND_DOMAIN"@, d);
    lemma_replaced_plain(arg, "${DEVBIND_DOMAIN}"@, d);
}

/// Checks that a command was given.
pub fn validate_command(command: &[String]) -> (res: Result<(), RunError>)
    ensures
        res is Ok <==> command@.len() > 0,
        res is Err ==> res == Err::<(), RunError>(RunError::NoCommand),
{
    if command.len() == 0 {
        return Err(RunError::NoCommand);
    }
    Ok(())
}

/// The command a `devbind run` session starts: the one given, or else the one
/// detected for the project (`detected`), or an error naming the session.
pub fn resolve_command(name: &str, given: &[String], detected: Option<Vec<String>>) -> (res: Result<Vec<String>, RunError>)
    ensures
        given@.len() > 0 ==> (res matches Ok(c) && strings_view(c@) == strings_view(given@)),
        given@.len() == 0 ==> match detected {
            Some(d) => res matches Ok(c) && strings_view(c@) == strings_view(d@),
            None => (res matches Err(RunError::NotDetected { name: n }) && n@ == name@),
        },
{
    if given.len() > 0 {
        let mut c: Vec<String> = Vec::new();
        let mut i: usize = 0;
        while i < given.len()
            invariant
                i <= given@.len(),
                c@.len() == i,
                forall|k: int| 0 <= k < i ==> c@[k]@ == given@[k]@,
            decreases given@.len() - i,
        {
            c.push(copy_string(&given[i]));
            i = i + 1;
        }
        assert(strings_view(c@) =~= strings_view(given@));
        return Ok(c);
    }
    match detected {
        Some(d) => Ok(d),
        None => Err(RunError::NotDetected { name: to_owned(name) }),
    }
}

} // verus!
