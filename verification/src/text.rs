//! Character-sequence helpers shared by the other modules: prefix and suffix
//! tests, substring search, decimal rendering and the lowercase mapping.
use vstd::prelude::*;

verus! {

// ── specifications ───────────────────────────────────────────────────────────

/// The texts of a list of strings.
pub open spec fn strings_view(v: Seq<String>) -> Seq<Seq<char>> {
    v.map_values(|s: String| s@)
}

/// Parts joined by `sep` (as `[String]::join` does).
pub open spec fn join(parts: Seq<Seq<char>>, sep: char) -> Seq<char>
    decreases parts.len(),
{
    if parts.len() == 0 {
        Seq::empty()
    } else if parts.len() == 1 {
        parts[0]
    } else {
        join(parts.drop_last(), sep) + seq![sep] + parts.last()
    }
}

/// `base` joined with the relative path `rel` (as `Path::join` does on Unix
/// for a path that does not start with `/`): a separator is added unless
/// `base` is empty or already ends with one.
pub open spec fn path_join(base: Seq<char>, rel: Seq<char>) -> Seq<char> {
    if base.len() == 0 {
        rel
    } else if base.last() == '/' {
        base + rel
    } else {
        base + seq!['/'] + rel
    }
}

/// `s` ends with `suffix`.
pub open spec fn ends_with(s: Seq<char>, suffix: Seq<char>) -> bool {
    suffix.len() <= s.len() && s.subrange(s.len() - suffix.len(), s.len() as int) == suffix
}

/// `s` starts with `prefix`.
pub open spec fn starts_with(s: Seq<char>, prefix: Seq<char>) -> bool {
    prefix.len() <= s.len() && s.subrange(0, prefix.len() as int) == prefix
}

/// `needle` occurs in `s` starting at index `i`.
pub open spec fn occurs_at<T>(s: Seq<T>, needle: Seq<T>, i: int) -> bool {
    0 <= i && i + needle.len() <= s.len() && s.subrange(i, i + needle.len()) == needle
}

/// `needle` occurs somewhere in `s`.
pub open spec fn contains_seq<T>(s: Seq<T>, needle: Seq<T>) -> bool {
    exists|i: int| occurs_at(s, needle, i)
}

/// Every character is ASCII.
pub open spec fn is_ascii_chars(s: Seq<char>) -> bool {
    forall|i: int| 0 <= i < s.len() ==> (s[i] as u32) < 128
}

/// The ASCII lowercase of one character: `A`–`Z` become `a`–`z`.
pub open spec fn ascii_lower_char(c: char) -> char {
    if 'A' <= c && c <= 'Z' {
        ((c as u32) + 32) as char
    } else {
        c
    }
}

/// Each character mapped by [`ascii_lower_char`].
pub open spec fn ascii_lowercase(s: Seq<char>) -> Seq<char> {
    s.map_values(|c: char| ascii_lower_char(c))
}

/// The lowercase form of a string, as computed by `str::to_lowercase`
/// (full Unicode case mapping).
pub uninterp spec fn lowercased(s: Seq<char>) -> Seq<char>;

/// The ASCII digit for `d < 10`.
pub open spec fn digit_char(d: nat) -> char {
    if d == 0 { '0' }
    else if d == 1 { '1' }
    else if d == 2 { '2' }
    else if d == 3 { '3' }
    else if d == 4 { '4' }
    else if d == 5 { '5' }
    else if d == 6 { '6' }
    else if d == 7 { '7' }
    else if d == 8 { '8' }
    else { '9' }
}

/// Decimal rendering of a natural number, without leading zeros.
pub open spec fn decimal(n: nat) -> Seq<char>
    decreases n,
{
    if n < 10 {
        seq![digit_char(n)]
    } else {
        decimal(n / 10).push(digit_char(n % 10))
    }
}

/// `s` with every occurrence of `from` replaced by `to`, scanning left to
/// right without overlaps (as `str::replace` does for a non-empty pattern).
pub open spec fn replaced(s: Seq<char>, from: Seq<char>, to: Seq<char>) -> Seq<char>
    decreases s.len(),
{
    if from.len() == 0 || s.len() < from.len() {
        s
    } else if s.subrange(0, from.len() as int) == from {
        to + replaced(s.subrange(from.len() as int, s.len() as int), from, to)
    } else {
        seq![s[0]] + replaced(s.drop_first(), from, to)
    }
}

/// The value of an ASCII digit character.
pub open spec fn digit_value(c: char) -> int {
    (c as int) - ('0' as int)
}

/// The number that a string of decimal digits denotes.
pub open spec fn decimal_value(s: Seq<char>) -> int
    decreases s.len(),
{
    if s.len() == 0 {
        0
    } else {
        decimal_value(s.drop_last()) * 10 + digit_value(s.last())
    }
}

/// Every character of `s` is an ASCII digit.
pub open spec fn all_digits(s: Seq<char>) -> bool {
    forall|i: int| 0 <= i < s.len() ==> '0' <= #[trigger] s[i] <= '9'
}

/// Rendering a number in decimal and reading it back gives the number.
pub proof fn lemma_decimal_round_trip(n: nat)
    ensures
        decimal_value(decimal(n)) == n,
        all_digits(decimal(n)),
        decimal(n).len() > 0,
    decreases n,
{
    lemma_digit_char(n % 10);
    if n < 10 {
        assert(decimal(n).drop_last() =~= Seq::<char>::empty());
        assert(decimal_value(Seq::<char>::empty()) == 0);
        assert(n % 10 == n);
    } else {
        lemma_decimal_round_trip(n / 10);
        assert(decimal(n).drop_last() == decimal(n / 10));
        assert(decimal(n).last() == digit_char(n % 10));
        assert(n == (n / 10) * 10 + n % 10);
    }
}

/// The digit character of `d` is an ASCII digit whose value is `d`.
pub proof fn lemma_digit_char(d: nat)
    requires
        d < 10,
    ensures
        digit_value(digit_char(d)) == d,
        '0' <= digit_char(d) <= '9',
{
}

// ── trusted calls into std ───────────────────────────────────────────────────

/// `String::push`: appends one character.
#[verifier::external_body]
pub(crate) fn string_push(s: &mut String, c: char)
    ensures
        final(s)@ == old(s)@.push(c),
{
    s.push(c);
}

/// `str::to_lowercase`: the full Unicode lowercase mapping, named by
/// [`lowercased`]. On ASCII text it is the ASCII mapping: `A`–`Z` become
/// `a`–`z` and every other character stays (Unicode lowercases no other
/// ASCII character and gives each ASCII letter one lowercase letter).
#[verifier::external_body]
pub(crate) fn to_lowercase(s: &str) -> (res: String)
    ensures
        res@ == lowercased(s@),
        is_ascii_chars(s@) ==> res@ == ascii_lowercase(s@),
{
    s.to_lowercase()
}

/// `std::str::from_utf8`: decodes `bytes` when they are well-formed UTF-8.
#[verifier::external_body]
pub(crate) fn utf8_decode(bytes: &[u8]) -> (res: Option<&str>)
    ensures
        res is Some <==> vstd::utf8::valid_utf8(bytes@),
        res matches Some(s) ==> s@ == vstd::utf8::decode_utf8(bytes@),
{
    std::str::from_utf8(bytes).ok()
}

// ── verified helpers ─────────────────────────────────────────────────────────

/// The characters of a string slice, in order.
pub fn chars_of(s: &str) -> (v: Vec<char>)
    ensures
        v@ == s@,
{
    let mut v: Vec<char> = Vec::new();
    for c in it: s.chars()
        invariant
            v@ == it.seq().take(it.index() as int),
    {
        v.push(c);
    }
    v
}

/// A string holding `v`'s characters.
pub fn string_from_chars(v: &[char]) -> (s: String)
    ensures
        s@ == v@,
{
    let mut s = String::new();
    let mut i: usize = 0;
    while i < v.len()
        invariant
            i <= v@.len(),
            s@ == v@.take(i as int),
        decreases v@.len() - i,
    {
        string_push(&mut s, v[i]);
        i = i + 1;
        assert(s@ =~= v@.take(i as int));
    }
    assert(v@.take(v@.len() as int) =~= v@);
    s
}

/// Appends `t` to `s`.
pub fn push_str(s: &mut String, t: &str)
    ensures
        final(s)@ == old(s)@ + t@,
{
    let tc = chars_of(t);
    let ghost start = s@;
    let mut i: usize = 0;
    while i < tc.len()
        invariant
            i <= tc@.len(),
            tc@ == t@,
            s@ == start + tc@.take(i as int),
        decreases tc@.len() - i,
    {
        string_push(s, tc[i]);
        i = i + 1;
        assert(s@ =~= start + tc@.take(i as int));
    }
    assert(tc@.take(tc@.len() as int) =~= tc@);
}

/// `a` followed by `b`, as a new string.
pub fn concat(a: &str, b: &str) -> (s: String)
    ensures
        s@ == a@ + b@,
{
    let mut s = String::new();
    push_str(&mut s, a);
    push_str(&mut s, b);
    assert(s@ =~= a@ + b@);
    s
}

/// A copy of a string slice.
pub fn to_owned(a: &str) -> (s: String)
    ensures
        s@ == a@,
{
    let mut s = String::new();
    push_str(&mut s, a);
    assert(s@ =~= a@);
    s
}

/// A copy of a string.
pub fn copy_string(a: &String) -> (s: String)
    ensures
        s@ == a@,
{
    to_owned(a.as_str())
}

/// Whether `needle` occurs in `hay` at index `i`.
pub fn matches_at(hay: &[char], needle: &[char], i: usize) -> (b: bool)
    ensures
        b == occurs_at(hay@, needle@, i as int),
{
    if i > hay.len() || needle.len() > hay.len() - i {
        return false;
    }
    let mut k: usize = 0;
    let hay_len = hay.len();
    while k < needle.len()
        invariant
            hay_len == hay@.len(),
            i + needle@.len() <= hay@.len(),
            k <= needle@.len(),
            forall|j: int| 0 <= j < k ==> hay@[i + j] == needle@[j],
        decreases needle@.len() - k,
    {
        if hay[i + k] != needle[k] {
            assert(hay@.subrange(i as int, i + needle@.len())[k as int] != needle@[k as int]);
            return false;
        }
        k = k + 1;
    }
    assert(hay@.subrange(i as int, i + needle@.len()) =~= needle@);
    true
}

/// Whether two strings hold the same characters.
pub fn str_eq(a: &str, b: &str) -> (r: bool)
    ensures
        r == (a@ == b@),
{
    let ac = chars_of(a);
    let bc = chars_of(b);
    if ac.len() != bc.len() {
        return false;
    }
    let r = matches_at(ac.as_slice(), bc.as_slice(), 0);
    proof {
        if r {
            assert(ac@.subrange(0, bc@.len() as int) =~= ac@);
        } else {
            assert(ac@.subrange(0, bc@.len() as int) =~= ac@);
        }
    }
    r
}

/// Whether `s` ends with `suffix`.
pub fn str_ends_with(s: &str, suffix: &str) -> (b: bool)
    ensures
        b == ends_with(s@, suffix@),
{
    let sc = chars_of(s);
    let tc = chars_of(suffix);
    if tc.len() > sc.len() {
        return false;
    }
    matches_at(sc.as_slice(), tc.as_slice(), sc.len() - tc.len())
}

/// Whether `s` starts with `prefix`.
pub fn str_starts_with(s: &str, prefix: &str) -> (b: bool)
    ensures
        b == starts_with(s@, prefix@),
{
    let sc = chars_of(s);
    let tc = chars_of(prefix);
    matches_at(sc.as_slice(), tc.as_slice(), 0)
}

/// Whether `needle` occurs in `hay`.
pub fn slice_contains(hay: &[char], needle: &[char]) -> (b: bool)
    ensures
        b == contains_seq(hay@, needle@),
{
    if needle.len() > hay.len() {
        return false;
    }
    let last = hay.len() - needle.len();
    let mut i: usize = 0;
    loop
        invariant_except_break
            i <= last,
            last + needle@.len() == hay@.len(),
            forall|j: int| 0 <= j < i ==> !occurs_at(hay@, needle@, j),
        ensures
            last + needle@.len() == hay@.len(),
            forall|j: int| 0 <= j <= last ==> !occurs_at(hay@, needle@, j),
        decreases last - i,
    {
        if matches_at(hay, needle, i) {
            return true;
        }
        if i == last {
            break;
        }
        i = i + 1;
    }
    assert forall|j: int| !occurs_at(hay@, needle@, j) by {
        if 0 <= j && j <= last {
        }
    }
    false
}

/// Whether `needle` occurs in `s`.
pub fn str_contains(s: &str, needle: &str) -> (b: bool)
    ensures
        b == contains_seq(s@, needle@),
{
    let sc = chars_of(s);
    let nc = chars_of(needle);
    slice_contains(sc.as_slice(), nc.as_slice())
}

/// `s` with every occurrence of the non-empty pattern `from` replaced by `to`.
pub fn replace_all(s: &str, from: &str, to: &str) -> (r: String)
    requires
        from@.len() > 0,
    ensures
        r@ == replaced(s@, from@, to@),
{
    let sc = chars_of(s);
    let fc = chars_of(from);
    let tc = chars_of(to);
    let n = sc.len();
    let mut out: Vec<char> = Vec::new();
    let mut i: usize = 0;
    assert(sc@.skip(0) =~= sc@);
    assert(out@ + replaced(sc@, fc@, tc@) =~= replaced(sc@, fc@, tc@));
    while i < n
        invariant
            n == sc@.len(),
            sc@ == s@,
            fc@ == from@,
            tc@ == to@,
            from@.len() > 0,
            i <= n,
            out@ + replaced(sc@.skip(i as int), fc@, tc@) == replaced(sc@, fc@, tc@),
        decreases n - i,
    {
        let ghost rest = sc@.skip(i as int);
        if fc.len() <= n - i && matches_at(sc.as_slice(), fc.as_slice(), i) {
            assert(rest.subrange(0, fc@.len() as int) =~= sc@.subrange(i as int, i + fc@.len()));
            assert(rest.subrange(fc@.len() as int, rest.len() as int) =~= sc@.skip(i + fc@.len()));
            let mut k: usize = 0;
            let ghost base = out@;
            while k < tc.len()
                invariant
                    k <= tc@.len(),
                    out@ == base + tc@.take(k as int),
                decreases tc@.len() - k,
            {
                out.push(tc[k]);
                k = k + 1;
                assert(out@ =~= base + tc@.take(k as int));
            }
            assert(tc@.take(tc@.len() as int) =~= tc@);
            assert(out@ + replaced(sc@.skip(i + fc@.len()), fc@, tc@) =~= base + replaced(rest, fc@, tc@));
            i = i + fc.len();
        } else {
            proof {
                if fc.len() <= n - i {
                    assert(rest.subrange(0, fc@.len() as int) =~= sc@.subrange(i as int, i + fc@.len()));
                }
                if fc@.len() > rest.len() {
                    assert(replaced(rest, fc@, tc@) == rest);
                }
            }
            let ghost base = out@;
            out.push(sc[i]);
            assert(rest.drop_first() =~= sc@.skip(i + 1));
            proof {
                if fc@.len() <= rest.len() {
                    assert(out@ + replaced(sc@.skip(i + 1), fc@, tc@) =~= base + replaced(rest, fc@, tc@));
                }
            }
            if fc.len() > n - i {
                // the pattern no longer fits: the rest is copied unchanged
                let mut j: usize = i + 1;
                while j < n
                    invariant
                        n == sc@.len(),
                        i < j <= n,
                        out@ == base + sc@.subrange(i as int, j as int),
                    decreases n - j,
                {
                    out.push(sc[j]);
                    j = j + 1;
                    assert(out@ =~= base + sc@.subrange(i as int, j as int));
                }
                assert(sc@.subrange(i as int, n as int) =~= rest);
                assert(replaced(sc@.skip(n as int), fc@, tc@) =~= Seq::<char>::empty());
                assert(out@ + replaced(sc@.skip(n as int), fc@, tc@) =~= out@);
                i = n;
            } else {
                i = i + 1;
            }
        }
    }
    assert(sc@.skip(n as int) =~= Seq::<char>::empty());
    assert(out@ + Seq::<char>::empty() =~= out@);
    string_from_chars(out.as_slice())
}

/// Joins strings with `sep` between them.
pub fn join_strings(parts: &Vec<String>, sep: char) -> (s: String)
    ensures
        s@ == join(strings_view(parts@), sep),
{
    let mut s = String::new();
    let mut i: usize = 0;
    while i < parts.len()
        invariant
            i <= parts@.len(),
            s@ == join(strings_view(parts@).take(i as int), sep),
        decreases parts@.len() - i,
    {
        if i > 0 {
            string_push(&mut s, sep);
        }
        push_str(&mut s, parts[i].as_str());
        i = i + 1;
        proof {
            let t = strings_view(parts@).take(i as int);
            assert(t.drop_last() =~= strings_view(parts@).take(i - 1));
            if i == 1 {
                assert(s@ =~= t[0]);
            } else {
                assert(s@ =~= join(t.drop_last(), sep) + seq![sep] + t.last());
            }
        }
    }
    assert(strings_view(parts@).take(parts@.len() as int) =~= strings_view(parts@));
    s
}

/// Joins the relative path `rel` onto `base`.
pub fn join_path(base: &str, rel: &str) -> (p: String)
    ensures
        p@ == path_join(base@, rel@),
{
    let bc = chars_of(base);
    if bc.len() == 0 {
        return to_owned(rel);
    }
    let mut p = to_owned(base);
    if bc[bc.len() - 1] != '/' {
        string_push(&mut p, '/');
    }
    push_str(&mut p, rel);
    p
}

/// Decimal rendering of a port number.
pub fn u16_to_decimal(n: u16) -> (s: String)
    ensures
        s@ == decimal(n as nat),
{
    // digits are produced least significant first, then reversed
    let mut rev: Vec<char> = Vec::new();
    let mut m: u16 = n;
    loop
        invariant_except_break
            decimal(n as nat) == decimal(m as nat) + rev@.reverse(),
        ensures
            decimal(n as nat) == rev@.reverse(),
        decreases m,
    {
        let d = m % 10;
        let c = if d == 0 { '0' } else if d == 1 { '1' } else if d == 2 { '2' } else if d == 3 {
            '3'
        } else if d == 4 { '4' } else if d == 5 { '5' } else if d == 6 { '6' } else if d == 7 {
            '7'
        } else if d == 8 { '8' } else { '9' };
        assert(c == digit_char(d as nat));
        let ghost before = rev@;
        rev.push(c);
        assert(rev@.reverse() =~= seq![c] + before.reverse());
        if m < 10 {
            assert(decimal(m as nat) =~= seq![c]);
            break;
        }
        assert(decimal(m as nat) == decimal((m / 10) as nat).push(c));
        assert(decimal((m / 10) as nat).push(c) + before.reverse() =~= decimal((m / 10) as nat)
            + rev@.reverse());
        m = m / 10;
    }
    let mut out: Vec<char> = Vec::new();
    let mut k: usize = rev.len();
    while k > 0
        invariant
            k <= rev@.len(),
            out@ == rev@.reverse().take((rev@.len() - k) as int),
        decreases k,
    {
        k = k - 1;
        out.push(rev[k]);
        assert(out@ =~= rev@.reverse().take((rev@.len() - k) as int));
    }
    assert(out@ =~= rev@.reverse());
    string_from_chars(out.as_slice())
}

} // verus!
