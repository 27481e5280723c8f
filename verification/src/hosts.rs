//! Managing DevBind's block of entries in a hosts file.
//!
//! The block is delimited by two marker lines. Rewriting the file removes the
//! old block wherever it stands, keeps every other line, and appends a fresh
//! block with one `127.0.0.1 <domain>` line per distinct domain, in sorted
//! order; with no domains no block is written. The file always ends with a
//! newline. Reading and writing the file happen outside the library.
use vstd::prelude::*;
use crate::text::{
    chars_of, concat, join, join_strings, str_eq, string_from_chars, string_push,
    strings_view, to_owned,
};

verus! {

/// The line that opens DevBind's block.
pub const MARKER_START: &'static str = "# --- DevBind Start ---";

/// The line that closes DevBind's block.
pub const MARKER_END: &'static str = "# --- DevBind End ---";

// ── specifications ───────────────────────────────────────────────────────────

/// `char::is_whitespace`: the characters with the Unicode `White_Space` property.
pub open spec fn is_whitespace(c: char) -> bool {
    ('\u{9}' <= c && c <= '\u{d}') || c == ' ' || c == '\u{85}' || c == '\u{a0}' || c == '\u{1680}'
        || ('\u{2000}' <= c && c <= '\u{200a}') || c == '\u{2028}' || c == '\u{2029}'
        || c == '\u{202f}' || c == '\u{205f}' || c == '\u{3000}'
}

/// `s` without leading whitespace.
pub open spec fn trim_start(s: Seq<char>) -> Seq<char>
    decreases s.len(),
{
    if s.len() > 0 && is_whitespace(s[0]) {
        trim_start(s.drop_first())
    } else {
        s
    }
}

/// `s` without trailing whitespace.
pub open spec fn trim_end(s: Seq<char>) -> Seq<char>
    decreases s.len(),
{
    if s.len() > 0 && is_whitespace(s.last()) {
        trim_end(s.drop_last())
    } else {
        s
    }
}

/// `str::trim`: `s` without leading and trailing whitespace.
pub open spec fn trim(s: Seq<char>) -> Seq<char> {
    trim_end(trim_start(s))
}

/// `line` without one trailing carriage return.
pub open spec fn strip_cr(line: Seq<char>) -> Seq<char> {
    if line.len() > 0 && line.last() == '\r' {
        line.drop_last()
    } else {
        line
    }
}

/// The lines of `s` when `cur` holds the unfinished line read so far.
pub open spec fn lines_from(s: Seq<char>, cur: Seq<char>) -> Seq<Seq<char>>
    decreases s.len(),
{
    if s.len() == 0 {
        if cur.len() == 0 { Seq::empty() } else { seq![cur] }
    } else if s[0] == '\n' {
        seq![strip_cr(cur)] + lines_from(s.drop_first(), Seq::empty())
    } else {
        lines_from(s.drop_first(), cur.push(s[0]))
    }
}

/// `str::lines`: the lines of `s`, split at `\n`, each without its line
/// ending (`\n` or `\r\n`); a final empty line is not counted.
pub open spec fn spec_lines(s: Seq<char>) -> Seq<Seq<char>> {
    lines_from(s, Seq::empty())
}

/// The lines outside DevBind's block; `in_block` says whether the first line
/// lies inside one. Marker lines themselves are dropped.
pub open spec fn kept_lines(lines: Seq<Seq<char>>, in_block: bool) -> Seq<Seq<char>>
    decreases lines.len(),
{
    if lines.len() == 0 {
        Seq::empty()
    } else if trim(lines[0]) == MARKER_START@ {
        kept_lines(lines.drop_first(), true)
    } else if trim(lines[0]) == MARKER_END@ {
        kept_lines(lines.drop_first(), false)
    } else if in_block {
        kept_lines(lines.drop_first(), true)
    } else {
        seq![lines[0]] + kept_lines(lines.drop_first(), false)
    }
}

/// Lexicographic order of strings by character (the order of `String`, since
/// UTF-8 preserves the order of code points).
pub open spec fn seq_lt(a: Seq<char>, b: Seq<char>) -> bool
    decreases a.len(),
{
    if a.len() == 0 {
        b.len() > 0
    } else if b.len() == 0 {
        false
    } else if a[0] != b[0] {
        (a[0] as u32) < (b[0] as u32)
    } else {
        seq_lt(a.drop_first(), b.drop_first())
    }
}

/// Inserts `d` into the sorted, duplicate-free `s` unless it is there already.
pub open spec fn insert_sorted(s: Seq<Seq<char>>, d: Seq<char>) -> Seq<Seq<char>>
    decreases s.len(),
{
    if s.len() == 0 {
        seq![d]
    } else if s[0] == d {
        s
    } else if seq_lt(d, s[0]) {
        seq![d] + s
    } else {
        seq![s[0]] + insert_sorted(s.drop_first(), d)
    }
}

/// The distinct domains of `ds`, in increasing order.
pub open spec fn sorted_distinct(ds: Seq<Seq<char>>) -> Seq<Seq<char>>
    decreases ds.len(),
{
    if ds.len() == 0 {
        Seq::empty()
    } else {
        insert_sorted(sorted_distinct(ds.drop_last()), ds.last())
    }
}

/// The hosts line for one domain.
pub open spec fn host_entry(d: Seq<char>) -> Seq<char> {
    "127.0.0.1 "@ + d
}

/// DevBind's block for the given (sorted, distinct) domains.
pub open spec fn block_lines(sorted: Seq<Seq<char>>) -> Seq<Seq<char>> {
    seq![MARKER_START@] + sorted.map_values(|d: Seq<char>| host_entry(d)) + seq![MARKER_END@]
}

/// `s`, with a newline appended unless it already ends with one.
pub open spec fn with_final_newline(s: Seq<char>) -> Seq<char> {
    if s.len() > 0 && s.last() == '\n' {
        s
    } else {
        s.push('\n')
    }
}

/// The lines of the rewritten file, before they are joined.
pub open spec fn output_lines(content: Seq<char>, domains: Seq<Seq<char>>) -> Seq<Seq<char>> {
    let kept = kept_lines(spec_lines(content), false);
    if domains.len() == 0 {
        kept
    } else {
        kept + block_lines(sorted_distinct(domains))
    }
}

/// The rewritten hosts file for the current `content` and the routed `domains`.
pub open spec fn spec_hosts_content(content: Seq<char>, domains: Seq<Seq<char>>) -> Seq<char> {
    with_final_newline(join(output_lines(content, domains), '\n'))
}

// ── executable helpers ───────────────────────────────────────────────────────

/// `char::is_whitespace`.
pub fn char_is_whitespace(c: char) -> (b: bool)
    ensures
        b == is_whitespace(c),
{
    ('\u{9}' <= c && c <= '\u{d}') || c == ' ' || c == '\u{85}' || c == '\u{a0}' || c == '\u{1680}'
        || ('\u{2000}' <= c && c <= '\u{200a}') || c == '\u{2028}' || c == '\u{2029}'
        || c == '\u{202f}' || c == '\u{205f}' || c == '\u{3000}'
}

/// `str::trim`.
pub fn trim_chars(s: &[char]) -> (t: Vec<char>)
    ensures
        t@ == trim(s@),
{
    let n = s.len();
    let mut a: usize = 0;
    assert(s@.skip(0) =~= s@);
    while a < n && char_is_whitespace(s[a])
        invariant
            n == s@.len(),
            a <= n,
            trim_start(s@) == trim_start(s@.skip(a as int)),
        decreases n - a,
    {
        assert(s@.skip(a as int).drop_first() =~= s@.skip(a + 1));
        a = a + 1;
    }
    assert(trim_start(s@) == s@.skip(a as int)) by {
        if a < n {
            assert(s@.skip(a as int)[0] == s@[a as int]);
        } else {
            assert(s@.skip(a as int).len() == 0);
        }
    }
    let mut b: usize = n;
    while b > a && char_is_whitespace(s[b - 1])
        invariant
            n == s@.len(),
            a <= b <= n,
            trim_end(s@.skip(a as int)) == trim_end(s@.subrange(a as int, b as int)),
        decreases b,
    {
        assert(s@.subrange(a as int, b as int).drop_last() =~= s@.subrange(a as int, b - 1));
        b = b - 1;
    }
    assert(s@.skip(a as int) =~= s@.subrange(a as int, n as int));
    let mut t: Vec<char> = Vec::new();
    let mut k: usize = a;
    while k < b
        invariant
            a <= k <= b <= n,
            n == s@.len(),
            t@ == s@.subrange(a as int, k as int),
        decreases b - k,
    {
        t.push(s[k]);
        k = k + 1;
        assert(t@ =~= s@.subrange(a as int, k as int));
    }
    assert(trim_end(s@.subrange(a as int, b as int)) == s@.subrange(a as int, b as int)) by {
        if b > a {
            assert(s@.subrange(a as int, b as int).last() == s@[b - 1]);
        }
    }
    t
}

/// `str::lines`.
pub fn split_lines(content: &str) -> (lines: Vec<String>)
    ensures
        strings_view(lines@) == spec_lines(content@),
{
    let cs = chars_of(content);
    let n = cs.len();
    let mut lines: Vec<String> = Vec::new();
    let mut cur: Vec<char> = Vec::new();
    let mut i: usize = 0;
    assert(cs@.skip(0) =~= cs@);
    assert(strings_view(lines@) + lines_from(cs@, cur@) =~= lines_from(cs@, cur@));
    while i < n
        invariant
            n == cs@.len(),
            cs@ == content@,
            i <= n,
            spec_lines(content@) == strings_view(lines@) + lines_from(cs@.skip(i as int), cur@),
        decreases n - i,
    {
        let ghost rest = cs@.skip(i as int);
        assert(rest.drop_first() =~= cs@.skip(i + 1));
        if cs[i] == '\n' {
            let ghost before = strings_view(lines@);
            let mut line = cur;
            if line.len() > 0 && line[line.len() - 1] == '\r' {
                line.pop();
            }
            assert(line@ == strip_cr(cur@));
            lines.push(string_from_chars(line.as_slice()));
            assert(strings_view(lines@) =~= before.push(strip_cr(cur@)));
            assert(before + (seq![strip_cr(cur@)] + lines_from(cs@.skip(i + 1), Seq::empty())) =~= strings_view(lines@) + lines_from(cs@.skip(i + 1), Seq::empty()));
            cur = Vec::new();
            assert(cur@ =~= Seq::<char>::empty());
        } else {
            cur.push(cs[i]);
        }
        i = i + 1;
    }
    assert(cs@.skip(n as int) =~= Seq::<char>::empty());
    if cur.len() > 0 {
        let ghost before = strings_view(lines@);
        lines.push(string_from_chars(cur.as_slice()));
        assert(strings_view(lines@) =~= before + seq![cur@]);
    } else {
        assert(strings_view(lines@) + Seq::<Seq<char>>::empty() =~= strings_view(lines@));
    }
    lines
}

/// Whether `line`, trimmed, equals `marker`.
fn is_marker(line: &str, marker: &str) -> (b: bool)
    ensures
        b == (trim(line@) == marker@),
{
    let lc = chars_of(line);
    let t = trim_chars(lc.as_slice());
    let s = string_from_chars(t.as_slice());
    str_eq(s.as_str(), marker)
}

/// The lines outside DevBind's block, in order.
pub fn strip_devbind_block(lines: &Vec<String>) -> (kept: Vec<String>)
    ensures
        strings_view(kept@) == kept_lines(strings_view(lines@), false),
{
    let ghost ls = strings_view(lines@);
    let mut kept: Vec<String> = Vec::new();
    let mut in_block = false;
    let mut i: usize = 0;
    assert(ls.skip(0) =~= ls);
    assert(strings_view(kept@) + kept_lines(ls, false) =~= kept_lines(ls, false));
    while i < lines.len()
        invariant
            i <= lines@.len(),
            ls == strings_view(lines@),
            kept_lines(ls, false) == strings_view(kept@) + kept_lines(ls.skip(i as int), in_block),
        decreases lines@.len() - i,
    {
        let ghost rest = ls.skip(i as int);
        assert(rest.drop_first() =~= ls.skip(i + 1));
        assert(rest[0] == lines@[i as int]@);
        if is_marker(lines[i].as_str(), MARKER_START) {
            in_block = true;
        } else if is_marker(lines[i].as_str(), MARKER_END) {
            in_block = false;
        } else if !in_block {
            let ghost before = strings_view(kept@);
            kept.push(to_owned(lines[i].as_str()));
            assert(strings_view(kept@) =~= before.push(rest[0]));
            assert(before + (seq![rest[0]] + kept_lines(ls.skip(i + 1), false)) =~= strings_view(kept@) + kept_lines(ls.skip(i + 1), false));
        }
        i = i + 1;
    }
    assert(ls.skip(lines@.len() as int) =~= Seq::<Seq<char>>::empty());
    assert(strings_view(kept@) + Seq::<Seq<char>>::empty() =~= strings_view(kept@));
    kept
}

/// Whether `a` sorts strictly before `b`.
pub fn str_lt(a: &str, b: &str) -> (r: bool)
    ensures
        r == seq_lt(a@, b@),
{
    let ac = chars_of(a);
    let bc = chars_of(b);
    let mut k: usize = 0;
    assert(ac@.skip(0) =~= ac@);
    assert(bc@.skip(0) =~= bc@);
    while k < ac.len() && k < bc.len() && ac[k] == bc[k]
        invariant
            k <= ac@.len(),
            k <= bc@.len(),
            seq_lt(ac@, bc@) == seq_lt(ac@.skip(k as int), bc@.skip(k as int)),
        decreases ac@.len() - k,
    {
        assert(ac@.skip(k as int).drop_first() =~= ac@.skip(k + 1));
        assert(bc@.skip(k as int).drop_first() =~= bc@.skip(k + 1));
        k = k + 1;
    }
    if k == ac.len() {
        assert(ac@.skip(k as int).len() == 0);
        return k < bc.len();
    }
    if k == bc.len() {
        return false;
    }
    assert(ac@.skip(k as int)[0] == ac@[k as int]);
    assert(bc@.skip(k as int)[0] == bc@[k as int]);
    (ac[k] as u32) < (bc[k] as u32)
}

/// Inserts `d` into the sorted, duplicate-free `sorted` unless it is there already.
fn insert_sorted_exec(sorted: &mut Vec<String>, d: &String)
    ensures
        strings_view(final(sorted)@) == insert_sorted(strings_view(old(sorted)@), d@),
{
    let ghost s = strings_view(sorted@);
    let mut j: usize = 0;
    assert(s.take(0) + s.skip(0) =~= s);
    while j < sorted.len()
        invariant
            j <= sorted@.len(),
            s == strings_view(sorted@),
            s == strings_view(old(sorted)@),
            insert_sorted(s, d@) == s.take(j as int) + insert_sorted(s.skip(j as int), d@),
        decreases sorted@.len() - j,
    {
        let ghost rest = s.skip(j as int);
        assert(rest[0] == sorted@[j as int]@);
        assert(rest.drop_first() =~= s.skip(j + 1));
        if str_eq(sorted[j].as_str(), d.as_str()) {
            assert(s.take(j as int) + rest =~= s);
            return;
        }
        if str_lt(d.as_str(), sorted[j].as_str()) {
            sorted.insert(j, to_owned(d.as_str()));
            assert(strings_view(sorted@) =~= s.take(j as int) + (seq![d@] + rest));
            return;
        }
        assert(s.take(j as int) + (seq![rest[0]] + insert_sorted(s.skip(j + 1), d@)) =~= s.take(j + 1) + insert_sorted(s.skip(j + 1), d@));
        j = j + 1;
    }
    assert(s.skip(j as int) =~= Seq::<Seq<char>>::empty());
    sorted.push(to_owned(d.as_str()));
    assert(strings_view(sorted@) =~= s.take(j as int) + seq![d@]);
}

/// The distinct domains, in increasing order.
pub fn sort_unique(domains: &[String]) -> (sorted: Vec<String>)
    ensures
        strings_view(sorted@) == sorted_distinct(strings_view(domains@)),
{
    let ghost ds = strings_view(domains@);
    let mut sorted: Vec<String> = Vec::new();
    let mut i: usize = 0;
    while i < domains.len()
        invariant
            i <= domains@.len(),
            ds == strings_view(domains@),
            strings_view(sorted@) == sorted_distinct(ds.take(i as int)),
        decreases domains@.len() - i,
    {
        assert(ds.take(i + 1).drop_last() =~= ds.take(i as int));
        insert_sorted_exec(&mut sorted, &domains[i]);
        i = i + 1;
    }
    assert(ds.take(domains@.len() as int) =~= ds);
    sorted
}

/// The new contents of a hosts file whose current contents are `content`
/// (empty when the file does not exist), routing `domains` to `127.0.0.1`.
pub fn updated_hosts_content(content: &str, domains: &[String]) -> (out: String)
    ensures
        out@ == spec_hosts_content(content@, strings_view(domains@)),
{
    let lines = split_lines(content);
    let mut out_lines = strip_devbind_block(&lines);
    let ghost kept = strings_view(out_lines@);
    if domains.len() > 0 {
        out_lines.push(to_owned(MARKER_START));
        let sorted = sort_unique(domains);
        let mut k: usize = 0;
        while k < sorted.len()
            invariant
                k <= sorted@.len(),
                strings_view(out_lines@) == kept + seq![MARKER_START@] + strings_view(sorted@).take(k as int).map_values(
                    |d: Seq<char>| host_entry(d),
                ),
            decreases sorted@.len() - k,
        {
            let ghost before = strings_view(out_lines@);
            let entry = concat("127.0.0.1 ", sorted[k].as_str());
            assert(entry@ == host_entry(strings_view(sorted@)[k as int]));
            out_lines.push(entry);
            assert(strings_view(out_lines@) =~= before.push(host_entry(strings_view(sorted@)[k as int])));
            assert(strings_view(sorted@).take(k + 1).map_values(|d: Seq<char>| host_entry(d))
                =~= strings_view(sorted@).take(k as int).map_values(|d: Seq<char>| host_entry(d)).push(
                host_entry(strings_view(sorted@)[k as int]),
            ));
            k = k + 1;
            assert(strings_view(out_lines@) =~= kept + seq![MARKER_START@] + strings_view(sorted@).take(k as int).map_values(
                |d: Seq<char>| host_entry(d),
            ));
        }
        let ghost before = strings_view(out_lines@);
        out_lines.push(to_owned(MARKER_END));
        assert(strings_view(out_lines@) =~= before.push(MARKER_END@));
        assert(strings_view(sorted@).take(sorted@.len() as int) =~= strings_view(sorted@));
        assert(strings_view(out_lines@) =~= kept + block_lines(sorted_distinct(strings_view(domains@))));
    }
    assert(strings_view(out_lines@) == output_lines(content@, strings_view(domains@)));
    let mut text = join_strings(&out_lines, '\n');
    let tc = chars_of(text.as_str());
    if tc.len() == 0 || tc[tc.len() - 1] != '\n' {
        string_push(&mut text, '\n');
    }
    text
}

/// Manages DevBind's block in one hosts file.
#[derive(Debug, Clone, PartialEq, Eq)]
pub struct HostsManager {
    hosts_file: String,
}

impl HostsManager {
    /// A manager for the hosts file at `hosts_file`.
    pub fn new(hosts_file: &str) -> (m: Self)
        ensures
            m.path()@ == hosts_file@,
    {
        HostsManager { hosts_file: to_owned(hosts_file) }
    }

    /// The path of the managed file.
    pub closed spec fn path(&self) -> String {
        self.hosts_file
    }

    /// The path of the managed file.
    pub fn hosts_file(&self) -> (p: &str)
        ensures
            p@ == self.path()@,
    {
        self.hosts_file.as_str()
    }

    /// The new contents of the managed file, given its current contents
    /// (empty when it does not exist) and the domains to route.
    pub fn updated_content(&self, current: &str, domains: &[String]) -> (out: String)
        ensures
            out@ == spec_hosts_content(current@, strings_view(domains@)),
    {
        updated_hosts_content(current, domains)
    }
}

} // verus!

verus! {

// ── laws ─────────────────────────────────────────────────────────────────────

/// No character of `s` is a newline.
pub open spec fn no_newline(s: Seq<char>) -> bool {
    forall|i: int| 0 <= i < s.len() ==> s[i] != '\n'
}

/// Joining after a first part puts the separator right after it.
pub proof fn lemma_join_front(a: Seq<char>, rest: Seq<Seq<char>>, sep: char)
    requires
        rest.len() > 0,
    ensures
        join(seq![a] + rest, sep) == a + seq![sep] + join(rest, sep),
    decreases rest.len(),
{
    let m = seq![a] + rest;
    if rest.len() == 1 {
        assert(m.drop_last() =~= seq![a]);
        assert(m.last() == rest[0]);
        assert(join(m.drop_last(), sep) == a);
        assert(join(rest, sep) == rest[0]);
        assert(join(m, sep) =~= a + seq![sep] + rest[0]);
    } else {
        assert(m.drop_last() =~= seq![a] + rest.drop_last());
        lemma_join_front(a, rest.drop_last(), sep);
        assert(join(m, sep) =~= a + seq![sep] + join(rest, sep));
    }
}

/// Reading lines across one newline-terminated line.
pub proof fn lemma_lines_from_line(l: Seq<char>, rest: Seq<char>, cur: Seq<char>)
    requires
        no_newline(l),
    ensures
        lines_from(l + seq!['\n'] + rest, cur) == seq![strip_cr(cur + l)] + lines_from(rest, Seq::empty()),
    decreases l.len(),
{
    let s = l + seq!['\n'] + rest;
    if l.len() == 0 {
        assert(s[0] == '\n');
        assert(s.drop_first() =~= rest);
        assert(cur + l =~= cur);
    } else {
        assert(s[0] == l[0]);
        assert(s.drop_first() =~= l.drop_first() + seq!['\n'] + rest);
        lemma_lines_from_line(l.drop_first(), rest, cur.push(l[0]));
        assert(cur.push(l[0]) + l.drop_first() =~= cur + l);
    }
}

/// The lines of newline-separated parts followed by a final newline are the
/// parts, each without one trailing carriage return.
pub proof fn lemma_lines_of_joined(m: Seq<Seq<char>>)
    requires
        m.len() > 0,
        forall|i: int| 0 <= i < m.len() ==> no_newline(#[trigger] m[i]),
    ensures
        spec_lines(join(m, '\n') + seq!['\n']) == m.map_values(|l: Seq<char>| strip_cr(l)),
    decreases m.len(),
{
    let a = m[0];
    let rest = m.drop_first();
    assert(m =~= seq![a] + rest);
    assert(Seq::<char>::empty() + a =~= a);
    if rest.len() == 0 {
        assert(join(m, '\n') == a);
        lemma_lines_from_line(a, Seq::empty(), Seq::empty());
        assert(a + seq!['\n'] + Seq::<char>::empty() =~= a + seq!['\n']);
        assert(lines_from(Seq::<char>::empty(), Seq::<char>::empty()) =~= Seq::<Seq<char>>::empty());
        assert(m.map_values(|l: Seq<char>| strip_cr(l)) =~= seq![strip_cr(a)]);
    } else {
        lemma_join_front(a, rest, '\n');
        assert forall|i: int| 0 <= i < rest.len() implies no_newline(#[trigger] rest[i]) by {
            assert(rest[i] == m[i + 1]);
        }
        lemma_lines_of_joined(rest);
        let tail = join(rest, '\n') + seq!['\n'];
        assert(join(m, '\n') + seq!['\n'] =~= a + seq!['\n'] + tail);
        lemma_lines_from_line(a, tail, Seq::empty());
        assert(m.map_values(|l: Seq<char>| strip_cr(l)) =~= seq![strip_cr(a)] + rest.map_values(
            |l: Seq<char>| strip_cr(l),
        ));
    }
}

/// The last character of a join is the last character of its last part.
pub proof fn lemma_join_last(m: Seq<Seq<char>>, sep: char)
    requires
        m.len() > 0,
        m.last().len() > 0,
    ensures
        join(m, sep).len() > 0,
        join(m, sep).last() == m.last().last(),
{
}

/// Lines read by `lines_from` hold no newline.
pub proof fn lemma_lines_no_newline(s: Seq<char>, cur: Seq<char>)
    requires
        no_newline(cur),
    ensures
        forall|i: int| 0 <= i < lines_from(s, cur).len() ==> no_newline(#[trigger] lines_from(s, cur)[i]),
    decreases s.len(),
{
    if s.len() == 0 {
        if cur.len() > 0 {
            assert(lines_from(s, cur) =~= seq![cur]);
            assert(lines_from(s, cur)[0] == cur);
        }
    } else {
        if s[0] == '\n' {
            assert(no_newline(strip_cr(cur)));
            lemma_lines_no_newline(s.drop_first(), Seq::empty());
            let r = lines_from(s.drop_first(), Seq::empty());
            assert forall|i: int| 0 <= i < lines_from(s, cur).len() implies no_newline(#[trigger] lines_from(s, cur)[i]) by {
                if i > 0 {
                    assert(lines_from(s, cur)[i] == r[i - 1]);
                } else {
                    assert(lines_from(s, cur)[0] == strip_cr(cur));
                }
            }
        } else {
            assert(no_newline(cur.push(s[0])));
            lemma_lines_no_newline(s.drop_first(), cur.push(s[0]));
            assert(lines_from(s, cur) == lines_from(s.drop_first(), cur.push(s[0])));
        }
    }
}

/// Every kept line is one of the input lines and is no marker line.
pub proof fn lemma_kept_lines_members(ls: Seq<Seq<char>>, in_block: bool)
    ensures
        forall|i: int| 0 <= i < kept_lines(ls, in_block).len() ==> ls.contains(
            #[trigger] kept_lines(ls, in_block)[i],
        ),
        forall|i: int| 0 <= i < kept_lines(ls, in_block).len() ==> trim(#[trigger] kept_lines(ls, in_block)[i]) != MARKER_START@
            && trim(kept_lines(ls, in_block)[i]) != MARKER_END@,
    decreases ls.len(),
{
    if ls.len() > 0 {
        let rest = ls.drop_first();
        lemma_kept_lines_members(rest, true);
        lemma_kept_lines_members(rest, false);
        let k = kept_lines(ls, in_block);
        assert forall|i: int| 0 <= i < k.len() implies ls.contains(#[trigger] k[i]) && trim(k[i]) != MARKER_START@
            && trim(k[i]) != MARKER_END@ by {
            if trim(ls[0]) != MARKER_START@ && trim(ls[0]) != MARKER_END@ && !in_block {
                if i == 0 {
                    assert(k[0] == ls[0]);
                } else {
                    let r = kept_lines(rest, false);
                    assert(k[i] == r[i - 1]);
                    let j = choose|j: int| 0 <= j < rest.len() && rest[j] == r[i - 1];
                    assert(ls[j + 1] == k[i]);
                }
            } else {
                let r = kept_lines(rest, trim(ls[0]) == MARKER_START@ || (trim(ls[0]) != MARKER_END@ && in_block));
                assert(k[i] == r[i]);
                let j = choose|j: int| 0 <= j < rest.len() && rest[j] == r[i];
                assert(ls[j + 1] == k[i]);
            }
        }
    }
}

/// Lines that are no marker lines are kept, in front of what follows them.
pub proof fn lemma_kept_prefix(k: Seq<Seq<char>>, r: Seq<Seq<char>>)
    requires
        forall|i: int| 0 <= i < k.len() ==> trim(#[trigger] k[i]) != MARKER_START@ && trim(k[i]) != MARKER_END@,
    ensures
        kept_lines(k + r, false) == k + kept_lines(r, false),
    decreases k.len(),
{
    if k.len() > 0 {
        assert((k + r)[0] == k[0]);
        assert((k + r).drop_first() =~= k.drop_first() + r);
        assert forall|i: int| 0 <= i < k.drop_first().len() implies trim(#[trigger] k.drop_first()[i]) != MARKER_START@
            && trim(k.drop_first()[i]) != MARKER_END@ by {
            assert(k.drop_first()[i] == k[i + 1]);
        }
        lemma_kept_prefix(k.drop_first(), r);
        assert(k + kept_lines(r, false) =~= seq![k[0]] + (k.drop_first() + kept_lines(r, false)));
    } else {
        assert(k + r =~= r);
        assert(k + kept_lines(r, false) =~= kept_lines(r, false));
    }
}

/// Trimming keeps the first character of a string that starts with a
/// non-whitespace character.
pub proof fn lemma_trim_keeps_first(s: Seq<char>)
    requires
        s.len() > 0,
        !is_whitespace(s[0]),
    ensures
        trim(s).len() > 0,
        trim(s)[0] == s[0],
{
    assert(trim_start(s) == s);
    lemma_trim_end_prefix(s);
}

/// `trim_end` keeps a non-empty prefix of a string that starts with a
/// non-whitespace character.
pub proof fn lemma_trim_end_prefix(s: Seq<char>)
    requires
        s.len() > 0,
        !is_whitespace(s[0]),
    ensures
        trim_end(s).len() > 0,
        trim_end(s)[0] == s[0],
    decreases s.len(),
{
    if is_whitespace(s.last()) {
        assert(s.len() > 1);
        assert(s.drop_last()[0] == s[0]);
        lemma_trim_end_prefix(s.drop_last());
    }
}

/// The marker lines are their own trimmed form.
pub proof fn lemma_markers_trimmed()
    ensures
        trim(MARKER_START@) == MARKER_START@,
        trim(MARKER_END@) == MARKER_END@,
        MARKER_START@ != MARKER_END@,
        no_newline(MARKER_START@),
        no_newline(MARKER_END@),
        MARKER_START@[0] == '#',
        MARKER_END@[0] == '#',
        MARKER_END@.len() > 0,
        MARKER_END@.last() == '-',
        strip_cr(MARKER_START@) == MARKER_START@,
        strip_cr(MARKER_END@) == MARKER_END@,
{
    reveal_strlit("# --- DevBind Start ---");
    reveal_strlit("# --- DevBind End ---");
    assert(MARKER_START@[MARKER_START@.len() - 1] != MARKER_END@[MARKER_END@.len() - 1] || MARKER_START@.len()
        != MARKER_END@.len());
}

/// Host entry lines (without a trailing carriage return) are no marker lines.
pub proof fn lemma_entry_not_marker(d: Seq<char>)
    ensures
        trim(strip_cr(host_entry(d))) != MARKER_START@,
        trim(strip_cr(host_entry(d))) != MARKER_END@,
{
    reveal_strlit("127.0.0.1 ");
    lemma_markers_trimmed();
    let e = strip_cr(host_entry(d));
    assert(host_entry(d)[0] == '1');
    assert(e[0] == '1');
    lemma_trim_keeps_first(e);
}

/// A block read back (lines without a trailing carriage return) keeps nothing.
pub proof fn lemma_kept_block(sorted: Seq<Seq<char>>)
    ensures
        kept_lines(block_lines(sorted).map_values(|l: Seq<char>| strip_cr(l)), false) == Seq::<Seq<char>>::empty(),
{
    lemma_markers_trimmed();
    let b = block_lines(sorted).map_values(|l: Seq<char>| strip_cr(l));
    let entries = sorted.map_values(|d: Seq<char>| strip_cr(host_entry(d)));
    assert(b =~= seq![MARKER_START@] + entries + seq![MARKER_END@]);
    assert(b.drop_first() =~= entries + seq![MARKER_END@]);
    assert forall|i: int| 0 <= i < entries.len() implies trim(#[trigger] entries[i]) != MARKER_START@ && trim(entries[i]) != MARKER_END@ by {
        lemma_entry_not_marker(sorted[i]);
    }
    lemma_kept_inside_block(entries, seq![MARKER_END@]);
    assert(b[0] == MARKER_START@);
    assert(kept_lines(b, false) == kept_lines(b.drop_first(), true));
    let e = seq![MARKER_END@];
    assert(e[0] == MARKER_END@);
    assert(e.drop_first() =~= Seq::<Seq<char>>::empty());
    assert(kept_lines(e, true) == kept_lines(e.drop_first(), false));
}

/// Inside a block, every line up to the end marker is dropped.
pub proof fn lemma_kept_inside_block(e: Seq<Seq<char>>, r: Seq<Seq<char>>)
    requires
        forall|i: int| 0 <= i < e.len() ==> trim(#[trigger] e[i]) != MARKER_END@,
    ensures
        kept_lines(e + r, true) == kept_lines(r, true),
    decreases e.len(),
{
    if e.len() > 0 {
        assert((e + r)[0] == e[0]);
        assert((e + r).drop_first() =~= e.drop_first() + r);
        assert forall|i: int| 0 <= i < e.drop_first().len() implies trim(#[trigger] e.drop_first()[i]) != MARKER_END@ by {
            assert(e.drop_first()[i] == e[i + 1]);
        }
        lemma_kept_inside_block(e.drop_first(), r);
    } else {
        assert(e + r =~= r);
    }
}

/// The rewritten file always ends with a newline.
pub proof fn law_hosts_ends_with_newline(content: Seq<char>, domains: Seq<Seq<char>>)
    ensures
        spec_hosts_content(content, domains).len() > 0,
        spec_hosts_content(content, domains).last() == '\n',
{
}

/// With domains to route, the rewritten file reads back as the lines outside
/// DevBind's block followed by exactly one block, listing each distinct domain
/// once in sorted order (when no domain holds a newline and no kept line ends
/// with a carriage return).
pub proof fn law_hosts_single_block(content: Seq<char>, domains: Seq<Seq<char>>)
    requires
        domains.len() > 0,
        forall|i: int| 0 <= i < domains.len() ==> no_newline(#[trigger] domains[i]),
        forall|i: int| 0 <= i < kept_lines(spec_lines(content), false).len() ==> strip_cr(
            #[trigger] kept_lines(spec_lines(content), false)[i],
        ) == kept_lines(spec_lines(content), false)[i],
    ensures
        spec_lines(spec_hosts_content(content, domains)) == kept_lines(spec_lines(content), false)
            + block_lines(sorted_distinct(domains)).map_values(|l: Seq<char>| strip_cr(l)),
{
    let k1 = kept_lines(spec_lines(content), false);
    let sorted = sorted_distinct(domains);
    let b = block_lines(sorted);
    let m = k1 + b;
    lemma_markers_trimmed();
    lemma_sorted_distinct_members(domains);
    // every part of the output is free of newlines
    lemma_lines_no_newline(content, Seq::empty());
    lemma_kept_lines_members(spec_lines(content), false);
    assert forall|i: int| 0 <= i < m.len() implies no_newline(#[trigger] m[i]) by {
        if i < k1.len() {
            assert(m[i] == k1[i]);
            assert(spec_lines(content).contains(k1[i]));
        } else if i == k1.len() {
            assert(m[i] == MARKER_START@);
        } else if i == m.len() - 1 {
            assert(m[i] == MARKER_END@);
        } else {
            let j = i - k1.len() - 1;
            assert(m[i] == host_entry(sorted[j]));
            assert(domains.contains(sorted[j]));
            reveal_strlit("127.0.0.1 ");
            let d = sorted[j];
            let w = choose|w: int| 0 <= w < domains.len() && domains[w] == d;
            assert(no_newline(domains[w]));
            assert forall|c: int| 0 <= c < host_entry(d).len() implies host_entry(d)[c] != '\n' by {
                if c >= 10 {
                    assert(host_entry(d)[c] == d[c - 10]);
                }
            }
        }
    }
    assert(m.last() == MARKER_END@);
    lemma_join_last(m, '\n');
    assert(output_lines(content, domains) == m);
    assert(spec_hosts_content(content, domains) =~= join(m, '\n') + seq!['\n']);
    lemma_lines_of_joined(m);
    assert(m.map_values(|l: Seq<char>| strip_cr(l)) =~= k1.map_values(|l: Seq<char>| strip_cr(l)) + b.map_values(
        |l: Seq<char>| strip_cr(l),
    ));
    assert(k1.map_values(|l: Seq<char>| strip_cr(l)) =~= k1);
}

/// The lines a hosts entry for `d` reads back as (more than one when `d`
/// holds a newline).
pub open spec fn entry_pieces(d: Seq<char>) -> Seq<Seq<char>> {
    spec_lines(host_entry(d).push('\n'))
}

/// No line of any domain's hosts entry reads as the end marker.
pub open spec fn no_end_marker_piece(ds: Seq<Seq<char>>) -> bool {
    forall|i: int, j: int| 0 <= i < ds.len() && 0 <= j < entry_pieces(ds[i]).len() ==> trim(
        #[trigger] entry_pieces(ds[i])[j],
    ) != MARKER_END@
}

/// The lines of each part read on its own, one after the other.
pub open spec fn flat_lines(m: Seq<Seq<char>>) -> Seq<Seq<char>>
    decreases m.len(),
{
    if m.len() == 0 {
        Seq::empty()
    } else {
        spec_lines(m[0].push('\n')) + flat_lines(m.drop_first())
    }
}

/// Reading lines across a newline restarts the line.
pub proof fn lemma_lines_from_concat(a: Seq<char>, b: Seq<char>, cur: Seq<char>)
    ensures
        lines_from(a.push('\n') + b, cur) == lines_from(a.push('\n'), cur) + lines_from(b, Seq::empty()),
    decreases a.len(),
{
    let s = a.push('\n') + b;
    if a.len() == 0 {
        assert(s[0] == '\n');
        assert(s.drop_first() =~= b);
        assert(a.push('\n').drop_first() =~= Seq::<char>::empty());
        assert(lines_from(Seq::<char>::empty(), Seq::<char>::empty()) =~= Seq::<Seq<char>>::empty());
        assert(lines_from(a.push('\n'), cur) =~= seq![strip_cr(cur)]);
    } else {
        let a2 = a.drop_first();
        assert(s[0] == a[0]);
        assert(s.drop_first() =~= a2.push('\n') + b);
        assert(a.push('\n')[0] == a[0]);
        assert(a.push('\n').drop_first() =~= a2.push('\n'));
        if a[0] == '\n' {
            lemma_lines_from_concat(a2, b, Seq::empty());
            assert(lines_from(s, cur) =~= lines_from(a.push('\n'), cur) + lines_from(b, Seq::empty()));
        } else {
            lemma_lines_from_concat(a2, b, cur.push(a[0]));
        }
    }
}

/// Parts joined by newlines, plus a final newline, read back as the lines
/// of each part.
pub proof fn lemma_lines_of_joined_parts(m: Seq<Seq<char>>)
    requires
        m.len() > 0,
    ensures
        spec_lines(join(m, '\n') + seq!['\n']) == flat_lines(m),
    decreases m.len(),
{
    let a = m[0];
    let rest = m.drop_first();
    assert(m =~= seq![a] + rest);
    assert(a + seq!['\n'] =~= a.push('\n'));
    if rest.len() == 0 {
        assert(join(m, '\n') == a);
        assert(flat_lines(rest) =~= Seq::<Seq<char>>::empty());
        assert(flat_lines(m) =~= spec_lines(a.push('\n')));
    } else {
        lemma_join_front(a, rest, '\n');
        lemma_lines_of_joined_parts(rest);
        let tail = join(rest, '\n') + seq!['\n'];
        assert(join(m, '\n') + seq!['\n'] =~= a.push('\n') + tail);
        lemma_lines_from_concat(a, tail, Seq::empty());
    }
}

/// Reading the lines of two part lists is reading each in turn.
pub proof fn lemma_flat_concat(a: Seq<Seq<char>>, b: Seq<Seq<char>>)
    ensures
        flat_lines(a + b) == flat_lines(a) + flat_lines(b),
    decreases a.len(),
{
    if a.len() == 0 {
        assert(a + b =~= b);
        assert(flat_lines(a) + flat_lines(b) =~= flat_lines(b));
    } else {
        assert((a + b)[0] == a[0]);
        assert((a + b).drop_first() =~= a.drop_first() + b);
        lemma_flat_concat(a.drop_first(), b);
        assert(flat_lines(a + b) =~= flat_lines(a) + flat_lines(b));
    }
}

/// Parts without newlines or a trailing carriage return read back as
/// themselves.
pub proof fn lemma_flat_plain(k: Seq<Seq<char>>)
    requires
        forall|i: int| 0 <= i < k.len() ==> no_newline(#[trigger] k[i]) && strip_cr(k[i]) == k[i],
    ensures
        flat_lines(k) == k,
    decreases k.len(),
{
    if k.len() > 0 {
        let x = k[0];
        lemma_lines_from_line(x, Seq::empty(), Seq::empty());
        assert(x + seq!['\n'] + Seq::<char>::empty() =~= x.push('\n'));
        assert(Seq::<char>::empty() + x =~= x);
        assert(lines_from(Seq::<char>::empty(), Seq::<char>::empty()) =~= Seq::<Seq<char>>::empty());
        assert(spec_lines(x.push('\n')) =~= seq![x]);
        assert forall|i: int| 0 <= i < k.drop_first().len() implies no_newline(#[trigger] k.drop_first()[i])
            && strip_cr(k.drop_first()[i]) == k.drop_first()[i] by {
            assert(k.drop_first()[i] == k[i + 1]);
        }
        lemma_flat_plain(k.drop_first());
        assert(k =~= seq![x] + k.drop_first());
    }
}

/// The hosts entries of a list of domains.
pub open spec fn host_entries(ds: Seq<Seq<char>>) -> Seq<Seq<char>> {
    ds.map_values(|d: Seq<char>| host_entry(d))
}

/// `x` is one of the lines of the entry of one of `sorted`.
pub open spec fn is_entry_piece(sorted: Seq<Seq<char>>, x: Seq<char>) -> bool {
    exists|j: int, t: int|
        #![trigger entry_pieces(sorted[j])[t]]
        0 <= j < sorted.len() && 0 <= t < entry_pieces(sorted[j]).len() && x == entry_pieces(sorted[j])[t]
}

/// Every line read from the entries of `sorted` is a line of one of them.
#[verifier::spinoff_prover]
pub proof fn lemma_flat_entries(sorted: Seq<Seq<char>>)
    ensures
        forall|i: int| 0 <= i < flat_lines(host_entries(sorted)).len() ==> is_entry_piece(
            sorted,
            #[trigger] flat_lines(host_entries(sorted))[i],
        ),
    decreases sorted.len(),
{
    if sorted.len() > 0 {
        let es = host_entries(sorted);
        let rest = sorted.drop_first();
        assert(es.drop_first() =~= host_entries(rest));
        assert(es[0] == host_entry(sorted[0]));
        lemma_flat_entries(rest);
        let f = flat_lines(es);
        let p0 = entry_pieces(sorted[0]);
        let fr = flat_lines(host_entries(rest));
        assert(f == p0 + fr);
        assert forall|i: int| 0 <= i < f.len() implies is_entry_piece(sorted, #[trigger] f[i]) by {
            if i < p0.len() {
                assert(f[i] == entry_pieces(sorted[0])[i]);
            } else {
                assert(f[i] == fr[i - p0.len()]);
                assert(is_entry_piece(rest, fr[i - p0.len()]));
                let (j, t) = choose|j: int, t: int|
                    0 <= j < rest.len() && 0 <= t < entry_pieces(rest[j]).len() && fr[i - p0.len()]
                        == entry_pieces(rest[j])[t];
                assert(rest[j] == sorted[j + 1]);
                assert(f[i] == entry_pieces(sorted[j + 1])[t]);
            }
        }
    }
}

/// After a rewrite, the lines outside DevBind's block read back as they
/// were, whenever that rewrite had domains none of whose entry lines reads as
/// the end marker, or had none and the kept lines do not end with an empty
/// line (or are exactly one empty line); and no kept line ends with a
/// carriage return.
#[verifier::spinoff_prover]
pub proof fn lemma_kept_after_update(content: Seq<char>, d1: Seq<Seq<char>>)
    requires
        d1.len() > 0 ==> no_end_marker_piece(d1),
        d1.len() == 0 ==> ({
            let k = kept_lines(spec_lines(content), false);
            k == seq![Seq::<char>::empty()] || (k.len() > 0 && k.last().len() > 0)
        }),
        forall|i: int| 0 <= i < kept_lines(spec_lines(content), false).len() ==> strip_cr(
            #[trigger] kept_lines(spec_lines(content), false)[i],
        ) == kept_lines(spec_lines(content), false)[i],
    ensures
        kept_lines(spec_lines(spec_hosts_content(content, d1)), false) == kept_lines(spec_lines(content), false),
{
    let k1 = kept_lines(spec_lines(content), false);
    lemma_markers_trimmed();
    lemma_lines_no_newline(content, Seq::empty());
    lemma_kept_lines_members(spec_lines(content), false);
    assert forall|i: int| 0 <= i < k1.len() implies no_newline(#[trigger] k1[i]) by {
        assert(spec_lines(content).contains(k1[i]));
    }
    if d1.len() == 0 {
        let l = spec_lines(spec_hosts_content(content, d1));
        assert(d1 =~= Seq::<Seq<char>>::empty());
        lemma_read_back_without_domains(content);
        if k1 == seq![Seq::<char>::empty()] {
            assert(readback_parts(k1) =~= Seq::<Seq<char>>::empty());
            assert(l =~= k1);
        } else {
            assert(readback_parts(k1) == k1);
            assert(k1.map_values(|x: Seq<char>| strip_cr(x)) =~= k1);
            assert(l == k1);
        }
        lemma_kept_prefix(l, Seq::<Seq<char>>::empty());
        assert(l + Seq::<Seq<char>>::empty() =~= l);
    } else {
        let sorted = sorted_distinct(d1);
        let es = host_entries(sorted);
        let b = block_lines(sorted);
        let m = k1 + b;
        lemma_sorted_distinct_members(d1);
        assert(output_lines(content, d1) == m);
        assert(m.last() == MARKER_END@);
        lemma_join_last(m, '\n');
        assert(spec_hosts_content(content, d1) =~= join(m, '\n') + seq!['\n']);
        lemma_lines_of_joined_parts(m);
        // the lines read back: the kept lines, then the block line by line
        assert(b =~= seq![MARKER_START@] + es + seq![MARKER_END@]);
        lemma_flat_concat(k1, b);
        lemma_flat_concat(seq![MARKER_START@], es);
        lemma_flat_concat(seq![MARKER_START@] + es, seq![MARKER_END@]);
        lemma_flat_plain(k1);
        lemma_flat_plain(seq![MARKER_START@]);
        lemma_flat_plain(seq![MARKER_END@]);
        let f = flat_lines(es);
        let fb = seq![MARKER_START@] + f + seq![MARKER_END@];
        assert(flat_lines(b) == fb);
        assert(spec_lines(spec_hosts_content(content, d1)) == k1 + fb);
        // no line of the entries reads as the end marker
        lemma_flat_entries(sorted);
        assert forall|i: int| 0 <= i < f.len() implies trim(#[trigger] f[i]) != MARKER_END@ by {
            assert(is_entry_piece(sorted, f[i]));
            let (j, t) = choose|j: int, t: int|
                0 <= j < sorted.len() && 0 <= t < entry_pieces(sorted[j]).len() && f[i] == entry_pieces(sorted[j])[t];
            assert(d1.contains(sorted[j])) by {
                assert(sorted.contains(sorted[j]));
            }
            let w = choose|w: int| 0 <= w < d1.len() && d1[w] == sorted[j];
            assert(trim(entry_pieces(d1[w])[t]) != MARKER_END@);
        }
        lemma_kept_prefix(k1, fb);
        assert(fb[0] == MARKER_START@);
        assert(fb.drop_first() =~= f + seq![MARKER_END@]);
        lemma_kept_inside_block(f, seq![MARKER_END@]);
        let e = seq![MARKER_END@];
        assert(e[0] == MARKER_END@);
        assert(e.drop_first() =~= Seq::<Seq<char>>::empty());
        assert(kept_lines(e, true) == kept_lines(e.drop_first(), false));
        assert(kept_lines(fb, false) == Seq::<Seq<char>>::empty());
        assert(k1 + Seq::<Seq<char>>::empty() =~= k1);
    }
}

/// A second update replaces the first: rewriting with `d2` a file just
/// rewritten with `d1` gives the same file as rewriting the original with
/// `d2` alone, so the first block leaves no trace. This holds unless a kept
/// line ends with a carriage return, a line of one of `d1`'s entries reads
/// as the end marker, or `d1` is empty and the kept lines end with an empty
/// line (other than being exactly one empty line) or are none.
pub proof fn law_hosts_second_update_replaces(content: Seq<char>, d1: Seq<Seq<char>>, d2: Seq<Seq<char>>)
    requires
        d1.len() > 0 ==> no_end_marker_piece(d1),
        d1.len() == 0 ==> ({
            let k = kept_lines(spec_lines(content), false);
            k == seq![Seq::<char>::empty()] || (k.len() > 0 && k.last().len() > 0)
        }),
        forall|i: int| 0 <= i < kept_lines(spec_lines(content), false).len() ==> strip_cr(
            #[trigger] kept_lines(spec_lines(content), false)[i],
        ) == kept_lines(spec_lines(content), false)[i],
    ensures
        spec_hosts_content(spec_hosts_content(content, d1), d2) == spec_hosts_content(content, d2),
{
    lemma_kept_after_update(content, d1);
}

/// Rewriting twice with the same domains gives the same file as rewriting
/// once, unless a kept line ends with a carriage return or a line of some
/// domain's entry reads as the end marker.
pub proof fn law_hosts_rewrite_idempotent(content: Seq<char>, domains: Seq<Seq<char>>)
    requires
        domains.len() > 0,
        no_end_marker_piece(domains),
        forall|i: int| 0 <= i < kept_lines(spec_lines(content), false).len() ==> strip_cr(
            #[trigger] kept_lines(spec_lines(content), false)[i],
        ) == kept_lines(spec_lines(content), false)[i],
    ensures
        spec_hosts_content(spec_hosts_content(content, domains), domains) == spec_hosts_content(content, domains),
{
    law_hosts_second_update_replaces(content, domains, domains);
}

/// `s` holds no carriage return.
pub open spec fn no_cr(s: Seq<char>) -> bool {
    forall|i: int| 0 <= i < s.len() ==> s[i] != '\r'
}

/// Lines read from text without carriage returns hold none either.
pub proof fn lemma_lines_no_cr(s: Seq<char>, cur: Seq<char>)
    requires
        no_cr(s),
        no_cr(cur),
    ensures
        forall|i: int| 0 <= i < lines_from(s, cur).len() ==> no_cr(#[trigger] lines_from(s, cur)[i]),
    decreases s.len(),
{
    if s.len() == 0 {
        if cur.len() > 0 {
            assert(lines_from(s, cur) =~= seq![cur]);
            assert(lines_from(s, cur)[0] == cur);
        }
    } else if s[0] == '\n' {
        lemma_lines_no_cr(s.drop_first(), Seq::empty());
        let r = lines_from(s.drop_first(), Seq::empty());
        assert(strip_cr(cur) == cur);
        assert forall|i: int| 0 <= i < lines_from(s, cur).len() implies no_cr(#[trigger] lines_from(s, cur)[i]) by {
            if i > 0 {
                assert(lines_from(s, cur)[i] == r[i - 1]);
            } else {
                assert(lines_from(s, cur)[0] == strip_cr(cur));
            }
        }
    } else {
        assert(no_cr(cur.push(s[0])));
        lemma_lines_no_cr(s.drop_first(), cur.push(s[0]));
        assert(lines_from(s, cur) == lines_from(s.drop_first(), cur.push(s[0])));
    }
}

/// Text that ends with a newline and holds no carriage return is its lines
/// joined by newlines, plus the final newline.
pub proof fn lemma_lines_join_back(s: Seq<char>, cur: Seq<char>)
    requires
        s.len() > 0,
        s.last() == '\n',
        no_cr(s),
        no_cr(cur),
    ensures
        lines_from(s, cur).len() > 0,
        join(lines_from(s, cur), '\n') + seq!['\n'] == cur + s,
    decreases s.len(),
{
    let rest = s.drop_first();
    if s[0] == '\n' {
        assert(strip_cr(cur) == cur);
        if rest.len() == 0 {
            assert(lines_from(rest, Seq::<char>::empty()) =~= Seq::<Seq<char>>::empty());
            assert(lines_from(s, cur) =~= seq![cur]);
            assert(s =~= seq!['\n']);
        } else {
            assert(rest.last() == s.last());
            lemma_lines_join_back(rest, Seq::empty());
            let r = lines_from(rest, Seq::empty());
            assert(lines_from(s, cur) == seq![cur] + r);
            lemma_join_front(cur, r, '\n');
            assert(Seq::<char>::empty() + rest =~= rest);
            assert(join(r, '\n') + seq!['\n'] == rest);
            assert(s =~= seq!['\n'] + rest);
            assert(cur + seq!['\n'] + join(r, '\n') + seq!['\n'] =~= cur + seq!['\n'] + (join(r, '\n') + seq![
                '\n',
            ]));
            assert(cur + seq!['\n'] + join(r, '\n') + seq!['\n'] =~= cur + s);
        }
    } else {
        assert(rest.len() > 0);
        assert(rest.last() == s.last());
        assert(no_cr(cur.push(s[0])));
        lemma_lines_join_back(rest, cur.push(s[0]));
        assert(cur.push(s[0]) + rest =~= cur + s);
    }
}

/// An update with no domains restores the text an earlier update started
/// from: the DevBind block goes and every other line is as it was. This
/// holds for text that ends with exactly one newline, holds no carriage
/// return and no marker line, when no line of a domain's entry reads as the
/// end marker.
pub proof fn law_hosts_empty_update_restores(content: Seq<char>, ds: Seq<Seq<char>>)
    requires
        content.len() > 0,
        content.last() == '\n',
        !(content.len() >= 2 && content[content.len() - 2] == '\n'),
        no_cr(content),
        forall|i: int| 0 <= i < spec_lines(content).len() ==> trim(#[trigger] spec_lines(content)[i]) != MARKER_START@
            && trim(spec_lines(content)[i]) != MARKER_END@,
        no_end_marker_piece(ds),
    ensures
        spec_hosts_content(spec_hosts_content(content, ds), Seq::empty()) == content,
{
    let l = spec_lines(content);
    lemma_kept_prefix(l, Seq::<Seq<char>>::empty());
    assert(l + Seq::<Seq<char>>::empty() =~= l);
    assert(kept_lines(l, false) == l);
    lemma_lines_no_cr(content, Seq::empty());
    assert forall|i: int| 0 <= i < l.len() implies strip_cr(#[trigger] l[i]) == l[i] by {
        assert(no_cr(l[i]));
        if l[i].len() > 0 {
            assert(l[i].last() == l[i][l[i].len() - 1]);
        }
    }
    // an update without domains leaves `content` as it is
    lemma_lines_join_back(content, Seq::empty());
    assert(Seq::<char>::empty() + content =~= content);
    let j = join(l, '\n');
    assert(output_lines(content, Seq::empty()) == l);
    assert(j + seq!['\n'] == content);
    if j.len() > 0 {
        assert(j.last() == content[content.len() - 2]);
    } else {
        assert(content =~= seq!['\n']);
    }
    assert(spec_hosts_content(content, Seq::empty()) == content);
    if ds.len() > 0 {
        law_hosts_second_update_replaces(content, ds, Seq::empty());
    }
}

/// Every element of `insert_sorted(s, d)` is `d` or an element of `s`, and both are in it.
pub proof fn lemma_insert_sorted_members(s: Seq<Seq<char>>, d: Seq<char>)
    ensures
        forall|x: Seq<char>| insert_sorted(s, d).contains(x) <==> (s.contains(x) || x == d),
    decreases s.len(),
{
    if s.len() > 0 && s[0] != d && !seq_lt(d, s[0]) {
        lemma_insert_sorted_members(s.drop_first(), d);
        let r = insert_sorted(s.drop_first(), d);
        assert forall|x: Seq<char>| insert_sorted(s, d).contains(x) <==> (s.contains(x) || x == d) by {
            assert(s =~= seq![s[0]] + s.drop_first());
            lemma_front_contains(s[0], s.drop_first(), x);
            lemma_front_contains(s[0], r, x);
        }
    } else if s.len() > 0 && s[0] != d {
        assert forall|x: Seq<char>| insert_sorted(s, d).contains(x) <==> (s.contains(x) || x == d) by {
            lemma_front_contains(d, s, x);
        }
    } else if s.len() > 0 {
        assert forall|x: Seq<char>| insert_sorted(s, d).contains(x) <==> (s.contains(x) || x == d) by {
            if x == d {
                assert(s[0] == x);
            }
        }
    } else {
        assert forall|x: Seq<char>| insert_sorted(s, d).contains(x) <==> (s.contains(x) || x == d) by {
            if x == d {
                assert(seq![d][0] == x);
            }
        }
    }
}

/// Membership in a sequence with an element in front.
pub proof fn lemma_front_contains<T>(a: T, s: Seq<T>, x: T)
    ensures
        (seq![a] + s).contains(x) <==> (x == a || s.contains(x)),
{
    let t = seq![a] + s;
    if x == a {
        assert(t[0] == x);
    }
    if s.contains(x) {
        let k = choose|k: int| 0 <= k < s.len() && s[k] == x;
        assert(t[k + 1] == x);
    }
    if t.contains(x) {
        let k = choose|k: int| 0 <= k < t.len() && t[k] == x;
        if k > 0 {
            assert(s[k - 1] == x);
        }
    }
}

/// The sorted list holds exactly the given domains.
pub proof fn lemma_sorted_distinct_members(ds: Seq<Seq<char>>)
    ensures
        forall|x: Seq<char>| sorted_distinct(ds).contains(x) <==> ds.contains(x),
    decreases ds.len(),
{
    if ds.len() > 0 {
        lemma_sorted_distinct_members(ds.drop_last());
        lemma_insert_sorted_members(sorted_distinct(ds.drop_last()), ds.last());
        assert forall|x: Seq<char>| sorted_distinct(ds).contains(x) <==> ds.contains(x) by {
            assert(ds =~= ds.drop_last().push(ds.last()));
            crate::config::lemma_push_contains(ds.drop_last(), ds.last(), x);
        }
    }
}

/// Strictly increasing: every entry comes before every later one.
pub open spec fn strictly_sorted(s: Seq<Seq<char>>) -> bool {
    forall|i: int, j: int| 0 <= i < j < s.len() ==> seq_lt(#[trigger] s[i], #[trigger] s[j])
}

/// No string comes before itself.
pub proof fn lemma_seq_lt_irreflexive(a: Seq<char>)
    ensures
        !seq_lt(a, a),
    decreases a.len(),
{
    if a.len() > 0 {
        assert(a.drop_first() == a.drop_first());
        lemma_seq_lt_irreflexive(a.drop_first());
    }
}

/// Of two different strings, one comes before the other.
pub proof fn lemma_seq_lt_total(a: Seq<char>, b: Seq<char>)
    requires
        a != b,
    ensures
        seq_lt(a, b) || seq_lt(b, a),
    decreases a.len(),
{
    if a.len() > 0 && b.len() > 0 && a[0] == b[0] {
        if a.drop_first() == b.drop_first() {
            assert(a =~= seq![a[0]] + a.drop_first());
            assert(b =~= seq![b[0]] + b.drop_first());
        }
        lemma_seq_lt_total(a.drop_first(), b.drop_first());
    } else if a.len() > 0 && b.len() > 0 {
        if (a[0] as u32) == (b[0] as u32) {
            vstd::utf8::char_u32_cast(a[0], a[0] as u32);
            vstd::utf8::char_u32_cast(b[0], b[0] as u32);
        }
    } else if a.len() == 0 && b.len() == 0 {
        assert(a =~= b);
    }
}

/// The order is transitive.
pub proof fn lemma_seq_lt_transitive(a: Seq<char>, b: Seq<char>, c: Seq<char>)
    requires
        seq_lt(a, b),
        seq_lt(b, c),
    ensures
        seq_lt(a, c),
    decreases a.len(),
{
    if a.len() > 0 && a[0] == b[0] && b[0] == c[0] {
        lemma_seq_lt_transitive(a.drop_first(), b.drop_first(), c.drop_first());
    }
}

/// Inserting into a strictly increasing list keeps it strictly increasing.
pub proof fn lemma_insert_sorted_sorted(s: Seq<Seq<char>>, d: Seq<char>)
    requires
        strictly_sorted(s),
    ensures
        strictly_sorted(insert_sorted(s, d)),
    decreases s.len(),
{
    if s.len() == 0 {
    } else if s[0] == d {
    } else if seq_lt(d, s[0]) {
        let t = seq![d] + s;
        assert forall|i: int, j: int| 0 <= i < j < t.len() implies seq_lt(#[trigger] t[i], #[trigger] t[j]) by {
            if i == 0 {
                if j > 1 {
                    assert(seq_lt(s[0], s[j - 1]));
                    lemma_seq_lt_transitive(d, s[0], s[j - 1]);
                }
            } else {
                assert(t[i] == s[i - 1] && t[j] == s[j - 1]);
            }
        }
    } else {
        lemma_seq_lt_total(d, s[0]);
        let rest = s.drop_first();
        assert(strictly_sorted(rest)) by {
            assert forall|i: int, j: int| 0 <= i < j < rest.len() implies seq_lt(#[trigger] rest[i], #[trigger] rest[j]) by {
                assert(rest[i] == s[i + 1] && rest[j] == s[j + 1]);
            }
        }
        lemma_insert_sorted_sorted(rest, d);
        lemma_insert_sorted_members(rest, d);
        let r = insert_sorted(rest, d);
        let t = seq![s[0]] + r;
        assert forall|i: int, j: int| 0 <= i < j < t.len() implies seq_lt(#[trigger] t[i], #[trigger] t[j]) by {
            if i == 0 {
                assert(r.contains(r[j - 1]));
                if r[j - 1] != d {
                    assert(rest.contains(r[j - 1]));
                    let k = choose|k: int| 0 <= k < rest.len() && rest[k] == r[j - 1];
                    assert(s[k + 1] == rest[k]);
                    assert(seq_lt(s[0], s[k + 1]));
                }
            } else {
                assert(t[i] == r[i - 1] && t[j] == r[j - 1]);
            }
        }
    }
}

/// The hosts block lists each routed domain exactly once and in increasing
/// order: the list is strictly increasing, holds no entry twice, and holds
/// exactly the given domains.
pub proof fn law_block_domains_sorted_distinct(ds: Seq<Seq<char>>)
    ensures
        strictly_sorted(sorted_distinct(ds)),
        forall|i: int, j: int| 0 <= i < j < sorted_distinct(ds).len() ==> #[trigger] sorted_distinct(ds)[i]
            != #[trigger] sorted_distinct(ds)[j],
        forall|x: Seq<char>| sorted_distinct(ds).contains(x) <==> ds.contains(x),
    decreases ds.len(),
{
    lemma_sorted_distinct_members(ds);
    if ds.len() > 0 {
        law_block_domains_sorted_distinct(ds.drop_last());
        lemma_insert_sorted_sorted(sorted_distinct(ds.drop_last()), ds.last());
    }
    let s = sorted_distinct(ds);
    assert forall|i: int, j: int| 0 <= i < j < s.len() implies #[trigger] s[i] != #[trigger] s[j] by {
        lemma_strictly_sorted_distinct(s, i, j);
    }
}

/// A strictly increasing list holds no entry twice.
pub proof fn lemma_strictly_sorted_distinct(s: Seq<Seq<char>>, i: int, j: int)
    requires
        strictly_sorted(s),
        0 <= i < s.len(),
        0 <= j < s.len(),
        i != j,
    ensures
        s[i] != s[j],
{
    if i < j {
        assert(seq_lt(s[i], s[j]));
        if s[i] == s[j] {
            lemma_seq_lt_irreflexive(s[i]);
        }
    } else {
        assert(seq_lt(s[j], s[i]));
        if s[i] == s[j] {
            lemma_seq_lt_irreflexive(s[i]);
        }
    }
}

/// Leading whitespace of a concatenation.
pub proof fn lemma_trim_start_concat(x: Seq<char>, y: Seq<char>)
    ensures
        trim_start(x + y) == if trim_start(x).len() == 0 { trim_start(y) } else { trim_start(x) + y },
    decreases x.len(),
{
    if x.len() == 0 {
        assert(x + y =~= y);
    } else if is_whitespace(x[0]) {
        assert((x + y).drop_first() =~= x.drop_first() + y);
        lemma_trim_start_concat(x.drop_first(), y);
    } else {
        assert((x + y)[0] == x[0]);
    }
}

/// A trailing carriage return makes no difference to the trimmed line.
pub proof fn lemma_trim_strip_cr(k: Seq<char>)
    ensures
        trim(strip_cr(k)) == trim(k),
{
    if k.len() > 0 && k.last() == '\r' {
        let x = k.drop_last();
        assert(k =~= x + seq!['\r']);
        lemma_trim_start_concat(x, seq!['\r']);
        if trim_start(x).len() == 0 {
            assert(trim_start(seq!['\r']) == trim_start(seq!['\r'].drop_first()));
            assert(seq!['\r'].drop_first() =~= Seq::<char>::empty());
        } else {
            let t = trim_start(x) + seq!['\r'];
            assert(t.drop_last() =~= trim_start(x));
        }
    }
}

/// The kept lines a file rewritten without domains reads back as: a final
/// empty line does not survive the trip.
pub open spec fn readback_parts(k: Seq<Seq<char>>) -> Seq<Seq<char>> {
    if k.len() > 0 && k.last().len() == 0 {
        k.drop_last()
    } else {
        k
    }
}

/// What a file rewritten without domains holds and how it reads back.
pub proof fn lemma_read_back_without_domains(content: Seq<char>)
    ensures
        ({
            let m = readback_parts(kept_lines(spec_lines(content), false));
            &&& spec_hosts_content(content, Seq::empty()) == if m.len() == 0 {
                seq!['\n']
            } else {
                join(m, '\n') + seq!['\n']
            }
            &&& spec_lines(spec_hosts_content(content, Seq::empty())) == if m.len() == 0 {
                seq![Seq::<char>::empty()]
            } else {
                m.map_values(|l: Seq<char>| strip_cr(l))
            }
            &&& forall|i: int| 0 <= i < m.len() ==> no_newline(#[trigger] m[i]) && trim(m[i]) != MARKER_START@
                && trim(m[i]) != MARKER_END@
        }),
{
    let k = kept_lines(spec_lines(content), false);
    let out = spec_hosts_content(content, Seq::empty());
    let ls = spec_lines(out);
    lemma_lines_no_newline(content, Seq::empty());
    lemma_kept_lines_members(spec_lines(content), false);
    assert(output_lines(content, Seq::empty()) == k);
    assert forall|i: int| 0 <= i < k.len() implies no_newline(#[trigger] k[i]) by {
        assert(spec_lines(content).contains(k[i]));
    }
    let m = readback_parts(k);
    assert forall|i: int| 0 <= i < m.len() implies no_newline(#[trigger] m[i]) && trim(m[i]) != MARKER_START@
        && trim(m[i]) != MARKER_END@ by {
        assert(m[i] == k[i]);
    }
    if m.len() == 0 {
        assert(join(k, '\n') =~= Seq::<char>::empty());
        assert(out =~= seq!['\n']);
        assert(out[0] == '\n');
        assert(out.drop_first() =~= Seq::<char>::empty());
        assert(lines_from(Seq::<char>::empty(), Seq::<char>::empty()) =~= Seq::<Seq<char>>::empty());
        assert(ls == lines_from(out, Seq::<char>::empty()));
        assert(lines_from(out, Seq::<char>::empty()) == seq![strip_cr(Seq::<char>::empty())] + lines_from(
            out.drop_first(),
            Seq::<char>::empty(),
        ));
        assert(ls =~= seq![Seq::<char>::empty()]);
    } else {
        if k.last().len() > 0 {
            lemma_join_last(k, '\n');
            assert(out =~= join(m, '\n') + seq!['\n']);
        } else {
            assert(join(k, '\n') =~= join(m, '\n') + seq!['\n'] + k.last());
            assert(out =~= join(m, '\n') + seq!['\n']);
        }
        lemma_lines_of_joined(m);
    }
}

/// With no domains to route, the rewritten file holds no marker line: the
/// old block is gone and no new one is written.
pub proof fn law_hosts_no_block_without_domains(content: Seq<char>)
    ensures
        forall|i: int| 0 <= i < spec_lines(spec_hosts_content(content, Seq::empty())).len() ==> trim(
            #[trigger] spec_lines(spec_hosts_content(content, Seq::empty()))[i],
        ) != MARKER_START@ && trim(spec_lines(spec_hosts_content(content, Seq::empty()))[i]) != MARKER_END@,
{
    let m = readback_parts(kept_lines(spec_lines(content), false));
    let ls = spec_lines(spec_hosts_content(content, Seq::empty()));
    lemma_read_back_without_domains(content);
    reveal_strlit("# --- DevBind Start ---");
    reveal_strlit("# --- DevBind End ---");
    assert forall|i: int| 0 <= i < ls.len() implies trim(#[trigger] ls[i]) != MARKER_START@ && trim(ls[i])
        != MARKER_END@ by {
        if m.len() == 0 {
            assert(ls[i] =~= Seq::<char>::empty());
            assert(trim(ls[i]) =~= Seq::<char>::empty());
        } else {
            assert(ls[i] == strip_cr(m[i]));
            lemma_trim_strip_cr(m[i]);
        }
    }
}

/// Rewriting a second time with no domains gives the same file as the first
/// time, unless the kept lines end in two empty lines after at least one
/// more (then each pass drops one of them), or a kept line ends with a
/// carriage return.
pub proof fn law_hosts_rewrite_idempotent_without_domains(content: Seq<char>)
    requires
        forall|i: int| 0 <= i < kept_lines(spec_lines(content), false).len() ==> strip_cr(
            #[trigger] kept_lines(spec_lines(content), false)[i],
        ) == kept_lines(spec_lines(content), false)[i],
        !({
            let k = kept_lines(spec_lines(content), false);
            k.len() >= 3 && k.last().len() == 0 && k[k.len() - 2].len() == 0
        }),
    ensures
        spec_hosts_content(spec_hosts_content(content, Seq::empty()), Seq::empty()) == spec_hosts_content(
            content,
            Seq::empty(),
        ),
{
    let k = kept_lines(spec_lines(content), false);
    let m = readback_parts(k);
    let out1 = spec_hosts_content(content, Seq::empty());
    lemma_read_back_without_domains(content);
    lemma_markers_trimmed();
    reveal_strlit("# --- DevBind Start ---");
    reveal_strlit("# --- DevBind End ---");
    let l = spec_lines(out1);
    // the lines read back are kept as they are
    if m.len() == 0 {
        assert(l =~= seq![Seq::<char>::empty()]);
        assert(trim(Seq::<char>::empty()) =~= Seq::<char>::empty());
        assert(trim(l[0]) != MARKER_START@ && trim(l[0]) != MARKER_END@);
    } else {
        assert(m.map_values(|x: Seq<char>| strip_cr(x)) =~= m) by {
            assert forall|i: int| 0 <= i < m.len() implies strip_cr(m[i]) == m[i] by {
                assert(m[i] == k[i]);
            }
        }
    }
    assert(l + Seq::<Seq<char>>::empty() =~= l);
    lemma_kept_prefix(l, Seq::<Seq<char>>::empty());
    assert(kept_lines(l, false) == l);
    lemma_read_back_without_domains(out1);
    let m2 = readback_parts(l);
    if m.len() == 0 {
        assert(m2 =~= Seq::<Seq<char>>::empty());
    } else if m.last().len() > 0 {
        assert(m2 == m);
    } else {
        assert(k.last().len() == 0);
        assert(k.len() == 2);
        assert(m =~= seq![Seq::<char>::empty()]);
        assert(m2 =~= Seq::<Seq<char>>::empty());
        assert(join(m, '\n') =~= Seq::<char>::empty());
        assert(out1 =~= seq!['\n']);
    }
}

} // verus!
