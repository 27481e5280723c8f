//! The embedded DNS responder: decoding one query packet and building the
//! answer (RFC 1035 §4 wire format).
//!
//! An A (type 1) query for any name under `.test` (or `test` itself, in any
//! letter case) is answered with `127.0.0.1`, an AAAA (type 28) query with
//! `::1`, any other type with an empty NOERROR answer; every other name gets
//! NXDOMAIN and a question that cannot be decoded gets FORMERR.
use vstd::prelude::*;
use crate::text::{
    chars_of, ends_with, string_from_chars, join, join_strings, lowercased, str_ends_with, str_eq, strings_view, to_lowercase,
    utf8_decode,
};


verus! {

/// Default listen address for the DevBind DNS server.
pub const DNS_LISTEN_ADDR: &'static str = "127.0.2.1:53";

// ── wire-format specifications ───────────────────────────────────────────────

/// Big-endian encoding of a 16-bit value.
pub open spec fn be_u16(v: u16) -> Seq<u8> {
    seq![(v / 256) as u8, (v % 256) as u8]
}

/// Big-endian encoding of a 32-bit value.
pub open spec fn be_u32(v: u32) -> Seq<u8> {
    seq![(v / 0x100_0000) as u8, ((v / 0x1_0000) % 256) as u8, ((v / 256) % 256) as u8, (v % 256) as u8]
}

/// The 16-bit value whose big-endian bytes are `hi`, `lo`.
pub open spec fn read_be_u16(hi: u8, lo: u8) -> u16 {
    (hi as int * 256 + lo as int) as u16
}

/// Adds `prefix` in front of the labels of a successful decoding.
pub open spec fn prefixed(prefix: Seq<Seq<u8>>, r: Option<(Seq<Seq<u8>>, int)>) -> Option<(Seq<Seq<u8>>, int)> {
    match r {
        None => None,
        Some((ls, end)) => Some((prefix + ls, end)),
    }
}

/// The raw labels of the name encoded at `pos`, and the index just after its
/// zero terminator; `None` when the data ends before the name does.
pub open spec fn spec_labels(data: Seq<u8>, pos: int) -> Option<(Seq<Seq<u8>>, int)>
    decreases data.len() - pos,
{
    if pos < 0 || pos >= data.len() {
        None
    } else if data[pos] == 0 {
        Some((Seq::empty(), pos + 1))
    } else if pos + 1 + data[pos] > data.len() {
        None
    } else {
        prefixed(
            seq![data.subrange(pos + 1, pos + 1 + data[pos])],
            spec_labels(data, pos + 1 + data[pos]),
        )
    }
}

/// Every label is well-formed UTF-8.
pub open spec fn all_utf8(labels: Seq<Seq<u8>>) -> bool {
    forall|i: int| 0 <= i < labels.len() ==> vstd::utf8::valid_utf8(#[trigger] labels[i])
}

/// The lowercased text of each label.
pub open spec fn label_texts(labels: Seq<Seq<u8>>) -> Seq<Seq<char>> {
    labels.map_values(|l: Seq<u8>| lowercased(vstd::utf8::decode_utf8(l)))
}

/// The question section that starts `data`: the lowercased domain name, the
/// query type and the number of bytes the question takes.
pub open spec fn spec_parse_question(data: Seq<u8>) -> Option<(Seq<char>, u16, int)> {
    match spec_labels(data, 0) {
        None => None,
        Some((labels, pos)) => {
            if !all_utf8(labels) || pos + 4 > data.len() {
                None
            } else {
                Some((join(label_texts(labels), '.'), read_be_u16(data[pos], data[pos + 1]), pos + 4))
            }
        },
    }
}

/// A 12-byte header: the query ID followed by five big-endian counts.
pub open spec fn header(id: Seq<u8>, flags: u16, qdcount: u16, ancount: u16) -> Seq<u8> {
    id + be_u16(flags) + be_u16(qdcount) + be_u16(ancount) + be_u16(0) + be_u16(0)
}

/// Flags of a positive answer: QR, AA, RD and RA set, RCODE 0.
pub open spec fn flags_ok() -> u16 { 0x8180 }

/// Flags of an NXDOMAIN answer (RCODE 3).
pub open spec fn flags_nxdomain() -> u16 { 0x8183 }

/// An answer holding one A record with address `ip`.
pub open spec fn spec_a_response(id: Seq<u8>, query: Seq<u8>, question_end: int, qdcount: u16, ip: Seq<u8>) -> Seq<u8> {
    header(id, flags_ok(), qdcount, 1) + query.subrange(12, question_end) + be_u16(0xC00C) + be_u16(1)
        + be_u16(1) + be_u32(60) + be_u16(4) + ip
}

/// The IPv6 loopback address `::1`.
pub open spec fn ipv6_loopback() -> Seq<u8> {
    seq![0u8, 0, 0, 0, 0, 0, 0, 0, 0, 0, 0, 0, 0, 0, 0, 1]
}

/// An answer holding one AAAA record for `::1`.
pub open spec fn spec_aaaa_response(id: Seq<u8>, query: Seq<u8>, question_end: int, qdcount: u16) -> Seq<u8> {
    header(id, flags_ok(), qdcount, 1) + query.subrange(12, question_end) + be_u16(0xC00C) + be_u16(28)
        + be_u16(1) + be_u32(60) + be_u16(16) + ipv6_loopback()
}

/// A NOERROR answer with no records.
pub open spec fn spec_empty_response(id: Seq<u8>, query: Seq<u8>, question_end: int, qdcount: u16) -> Seq<u8> {
    header(id, flags_ok(), qdcount, 0) + query.subrange(12, question_end)
}

/// An NXDOMAIN answer echoing the question.
pub open spec fn spec_nxdomain_response(id: Seq<u8>, query: Seq<u8>, question_end: int) -> Seq<u8> {
    header(id, flags_nxdomain(), 1, 0) + query.subrange(12, question_end)
}

/// A header-only answer with the given RCODE.
pub open spec fn spec_error_response(id: Seq<u8>, rcode: u8) -> Seq<u8> {
    header(id, (0x8100 + rcode) as u16, 0, 0)
}

/// A domain under the `.test` top-level domain, or `test` itself.
pub open spec fn is_test_domain(d: Seq<char>) -> bool {
    ends_with(d, ".test"@) || d == "test"@
}

/// The answer to `query`.
pub open spec fn spec_handle_query(query: Seq<u8>) -> Seq<u8> {
    let id = query.subrange(0, 2);
    let qdcount = read_be_u16(query[4], query[5]);
    match spec_parse_question(query.subrange(12, query.len() as int)) {
        None => spec_error_response(id, 1),
        Some((domain, qtype, consumed)) => {
            let question_end = 12 + consumed;
            if !is_test_domain(domain) {
                spec_nxdomain_response(id, query, question_end)
            } else if qtype == 1 {
                spec_a_response(id, query, question_end, qdcount, seq![127u8, 0, 0, 1])
            } else if qtype == 28 {
                spec_aaaa_response(id, query, question_end, qdcount)
            } else {
                spec_empty_response(id, query, question_end, qdcount)
            }
        },
    }
}

/// The RCODE carried by a response.
pub open spec fn rcode(resp: Seq<u8>) -> int {
    (resp[3] % 16) as int
}

/// The answer count carried by a response.
pub open spec fn answer_count(resp: Seq<u8>) -> int {
    resp[6] as int * 256 + resp[7] as int
}

// ── byte-building helpers ────────────────────────────────────────────────────

fn push_be_u16(v: &mut Vec<u8>, x: u16)
    ensures
        final(v)@ == old(v)@ + be_u16(x),
{
    v.push((x / 256) as u8);
    v.push((x % 256) as u8);
    assert(final(v)@ =~= old(v)@ + be_u16(x));
}

fn push_be_u32(v: &mut Vec<u8>, x: u32)
    ensures
        final(v)@ == old(v)@ + be_u32(x),
{
    v.push((x / 0x100_0000) as u8);
    v.push(((x / 0x1_0000) % 256) as u8);
    v.push(((x / 256) % 256) as u8);
    v.push((x % 256) as u8);
    assert(final(v)@ =~= old(v)@ + be_u32(x));
}

fn push_bytes(v: &mut Vec<u8>, s: &[u8])
    ensures
        final(v)@ == old(v)@ + s@,
{
    let ghost start = v@;
    let mut i: usize = 0;
    while i < s.len()
        invariant
            i <= s@.len(),
            v@ == start + s@.take(i as int),
        decreases s@.len() - i,
    {
        v.push(s[i]);
        i = i + 1;
        assert(v@ =~= start + s@.take(i as int));
    }
    assert(s@.take(s@.len() as int) =~= s@);
}

fn push_header(v: &mut Vec<u8>, id: &[u8], flags: u16, qdcount: u16, ancount: u16)
    ensures
        final(v)@ == old(v)@ + header(id@, flags, qdcount, ancount),
{
    push_bytes(v, id);
    push_be_u16(v, flags);
    push_be_u16(v, qdcount);
    push_be_u16(v, ancount);
    push_be_u16(v, 0);
    push_be_u16(v, 0);
    assert(final(v)@ =~= old(v)@ + header(id@, flags, qdcount, ancount));
}

// ── response builders ────────────────────────────────────────────────────────

/// Builds an A record answer pointing at `ip`.
pub fn build_a_response(id: &[u8], query: &[u8], question_end: usize, qdcount: u16, ip: [u8; 4]) -> (resp: Vec<u8>)
    requires
        12 <= question_end <= query@.len(),
    ensures
        resp@ == spec_a_response(id@, query@, question_end as int, qdcount, ip@),
{
    let mut resp: Vec<u8> = Vec::new();
    push_header(&mut resp, id, 0x8180, qdcount, 1);
    push_bytes(&mut resp, &query[12..question_end]);
    push_be_u16(&mut resp, 0xC00C);
    push_be_u16(&mut resp, 1);
    push_be_u16(&mut resp, 1);
    push_be_u32(&mut resp, 60);
    push_be_u16(&mut resp, 4);
    push_bytes(&mut resp, ip.as_slice());
    assert(resp@ =~= spec_a_response(id@, query@, question_end as int, qdcount, ip@));
    resp
}

/// Builds an AAAA record answer for `::1`.
pub fn build_aaaa_response(id: &[u8], query: &[u8], question_end: usize, qdcount: u16) -> (resp: Vec<u8>)
    requires
        12 <= question_end <= query@.len(),
    ensures
        resp@ == spec_aaaa_response(id@, query@, question_end as int, qdcount),
{
    let mut resp: Vec<u8> = Vec::new();
    push_header(&mut resp, id, 0x8180, qdcount, 1);
    push_bytes(&mut resp, &query[12..question_end]);
    push_be_u16(&mut resp, 0xC00C);
    push_be_u16(&mut resp, 28);
    push_be_u16(&mut resp, 1);
    push_be_u32(&mut resp, 60);
    push_be_u16(&mut resp, 16);
    let mut k: usize = 0;
    let ghost before = resp@;
    while k < 16
        invariant
            k <= 16,
            resp@ == before + ipv6_loopback().take(k as int),
        decreases 16 - k,
    {
        if k == 15 {
            resp.push(1);
        } else {
            resp.push(0);
        }
        k = k + 1;
        assert(resp@ =~= before + ipv6_loopback().take(k as int));
    }
    assert(ipv6_loopback().take(16) =~= ipv6_loopback());
    assert(resp@ =~= spec_aaaa_response(id@, query@, question_end as int, qdcount));
    resp
}

/// Builds a NOERROR answer without records.
pub fn build_empty_response(id: &[u8], query: &[u8], question_end: usize, qdcount: u16) -> (resp: Vec<u8>)
    requires
        12 <= question_end <= query@.len(),
    ensures
        resp@ == spec_empty_response(id@, query@, question_end as int, qdcount),
{
    let mut resp: Vec<u8> = Vec::new();
    push_header(&mut resp, id, 0x8180, qdcount, 0);
    push_bytes(&mut resp, &query[12..question_end]);
    resp
}

/// Builds an NXDOMAIN answer.
pub fn build_nxdomain_response(id: &[u8], query: &[u8], question_end: usize) -> (resp: Vec<u8>)
    requires
        12 <= question_end <= query@.len(),
    ensures
        resp@ == spec_nxdomain_response(id@, query@, question_end as int),
{
    let mut resp: Vec<u8> = Vec::new();
    push_header(&mut resp, id, 0x8183, 1, 0);
    push_bytes(&mut resp, &query[12..question_end]);
    resp
}

/// Builds a header-only answer carrying `rcode`.
pub fn build_error_response(id: &[u8], rcode: u8) -> (resp: Vec<u8>)
    ensures
        resp@ == spec_error_response(id@, rcode),
{
    let mut resp: Vec<u8> = Vec::new();
    push_header(&mut resp, id, 0x8100 + rcode as u16, 0, 0);
    resp
}

// ── decoding ─────────────────────────────────────────────────────────────────

/// Decodes the question section at the start of `data` (the packet after its
/// 12-byte header): the lowercased domain name, the query type, and the
/// number of bytes the question takes.
pub fn parse_question(data: &[u8]) -> (res: Option<(String, u16, usize)>)
    ensures
        match res {
            None => spec_parse_question(data@) is None,
            Some((d, t, e)) => spec_parse_question(data@) == Some((d@, t, e as int)) && 4 <= e
                <= data@.len(),
        },
{
    let mut pos: usize = 0;
    let mut labels: Vec<String> = Vec::new();
    let ghost mut raw: Seq<Seq<u8>> = Seq::empty();
    let n = data.len();
    assert(raw + Seq::<Seq<u8>>::empty() =~= raw);
    loop
        invariant_except_break
            n == data@.len(),
            pos <= n,
            spec_labels(data@, 0) == prefixed(raw, spec_labels(data@, pos as int)),
            labels@.len() == raw.len(),
            forall|i: int| 0 <= i < raw.len() ==> labels@[i]@ == lowercased(
                vstd::utf8::decode_utf8(#[trigger] raw[i]),
            ),
            all_utf8(raw),
        ensures
            n == data@.len(),
            pos <= n,
            spec_labels(data@, 0) == Some((raw, pos as int)),
            labels@.len() == raw.len(),
            forall|i: int| 0 <= i < raw.len() ==> labels@[i]@ == lowercased(
                vstd::utf8::decode_utf8(#[trigger] raw[i]),
            ),
            all_utf8(raw),
        decreases n - pos,
    {
        if pos >= n {
            return None;
        }
        let label_len = data[pos] as usize;
        if label_len == 0 {
            proof {
                assert(raw + Seq::<Seq<u8>>::empty() =~= raw);
            }
            pos = pos + 1;
            break;
        }
        if label_len > n - pos - 1 {
            return None;
        }
        let start = pos + 1;
        let end = pos + 1 + label_len;
        let label_bytes = &data[start..end];
        let decoded = utf8_decode(label_bytes);
        match decoded {
            None => {
                proof {
                    match spec_labels(data@, end as int) {
                        None => {},
                        Some((ls, e)) => {
                            let all = raw + (seq![label_bytes@] + ls);
                            assert(all[raw.len() as int] == label_bytes@);
                        },
                    }
                }
                return None;
            },
            Some(text) => {
                labels.push(to_lowercase(text));
                proof {
                    assert(label_bytes@ == data@.subrange(pos + 1, pos + 1 + data@[pos as int]));
                    match spec_labels(data@, end as int) {
                        None => {},
                        Some((ls, e)) => {
                            assert(raw + (seq![label_bytes@] + ls) =~= raw.push(label_bytes@) + ls);
                        },
                    }
                    raw = raw.push(label_bytes@);
                }
                pos = end;
            },
        }
    }
    if n < 4 || pos > n - 4 {
        return None;
    }
    let qtype: u16 = (data[pos] as u16) * 256 + (data[pos + 1] as u16);
    let domain = join_strings(&labels, '.');
    proof {
        assert(strings_view(labels@) =~= label_texts(raw));
    }
    Some((domain, qtype, pos + 4))
}

/// The parts of `s` between the `.` characters, when `cur` holds the part
/// read so far (as `str::split('.')`: a trailing or doubled dot gives an
/// empty part).
pub open spec fn split_dots_from(s: Seq<char>, cur: Seq<char>) -> Seq<Seq<char>>
    decreases s.len(),
{
    if s.len() == 0 {
        seq![cur]
    } else if s[0] == '.' {
        seq![cur] + split_dots_from(s.drop_first(), Seq::empty())
    } else {
        split_dots_from(s.drop_first(), cur.push(s[0]))
    }
}

/// The labels of a dotted domain name.
pub open spec fn split_dots(s: Seq<char>) -> Seq<Seq<char>> {
    split_dots_from(s, Seq::empty())
}

/// A label on the wire: its byte length (modulo 256) followed by its UTF-8 bytes.
pub open spec fn encode_label(l: Seq<char>) -> Seq<u8> {
    seq![(vstd::utf8::encode_utf8(l).len() % 256) as u8] + vstd::utf8::encode_utf8(l)
}

/// The wire encoding of a sequence of labels, without the terminator.
pub open spec fn encode_labels(ls: Seq<Seq<char>>) -> Seq<u8>
    decreases ls.len(),
{
    if ls.len() == 0 {
        Seq::empty()
    } else {
        encode_labels(ls.drop_last()) + encode_label(ls.last())
    }
}

/// A standard recursive query with ID `0xAABB` for `domain` and `qtype`, class IN.
pub open spec fn spec_test_query(domain: Seq<char>, qtype: u16) -> Seq<u8> {
    seq![0xAAu8, 0xBBu8] + be_u16(0x0100) + be_u16(1) + be_u16(0) + be_u16(0) + be_u16(0)
        + encode_labels(split_dots(domain)) + seq![0u8] + be_u16(qtype) + be_u16(1)
}

// ── what a built query decodes to ────────────────────────────────────────────

/// Every label is non-empty and at most 255 bytes of UTF-8, so its length
/// fits the one-byte prefix and it cannot be taken for the terminator.
pub open spec fn labels_fit(ls: Seq<Seq<char>>) -> bool {
    forall|i: int| 0 <= i < ls.len() ==> 1 <= #[trigger] vstd::utf8::encode_utf8(ls[i]).len() <= 255
}

/// The UTF-8 bytes of each label.
pub open spec fn label_bytes(ls: Seq<Seq<char>>) -> Seq<Seq<u8>> {
    ls.map_values(|l: Seq<char>| vstd::utf8::encode_utf8(l))
}

/// The encoding of a label sequence, read from the front.
pub proof fn lemma_encode_labels_front(ls: Seq<Seq<char>>)
    requires
        ls.len() > 0,
    ensures
        encode_labels(ls) == encode_label(ls[0]) + encode_labels(ls.drop_first()),
    decreases ls.len(),
{
    if ls.len() == 1 {
        assert(ls.drop_last() =~= Seq::<Seq<char>>::empty());
        assert(ls.drop_first() =~= Seq::<Seq<char>>::empty());
        assert(encode_labels(ls.drop_last()) == Seq::<u8>::empty());
        assert(encode_labels(ls.drop_first()) == Seq::<u8>::empty());
        assert(Seq::<u8>::empty() + encode_label(ls.last()) =~= encode_label(ls[0]));
        assert(encode_label(ls[0]) + Seq::<u8>::empty() =~= encode_label(ls[0]));
    } else {
        lemma_encode_labels_front(ls.drop_last());
        assert(ls.drop_last().drop_first() =~= ls.drop_first().drop_last());
        assert(ls.drop_first().last() == ls.last());
        assert(encode_labels(ls) =~= encode_label(ls[0]) + encode_labels(ls.drop_first()));
    }
}

/// Walking the labels of an encoded name gives back each label's bytes and
/// stops just after the terminator.
pub proof fn lemma_walk_labels(data: Seq<u8>, pos: int, ls: Seq<Seq<char>>)
    requires
        0 <= pos,
        labels_fit(ls),
        pos + encode_labels(ls).len() < data.len(),
        data.subrange(pos, pos + encode_labels(ls).len()) == encode_labels(ls),
        data[pos + encode_labels(ls).len()] == 0,
    ensures
        spec_labels(data, pos) == Some((label_bytes(ls), pos + encode_labels(ls).len() + 1)),
    decreases ls.len(),
{
    if ls.len() == 0 {
        assert(label_bytes(ls) =~= Seq::<Seq<u8>>::empty());
    } else {
        lemma_encode_labels_front(ls);
        let b = vstd::utf8::encode_utf8(ls[0]);
        let n = b.len() as int;
        let rest = ls.drop_first();
        let e = encode_labels(ls);
        let er = encode_labels(rest);
        assert(1 <= n <= 255);
        assert(e == seq![(n % 256) as u8] + b + er);
        assert(data[pos] == e[0]);
        assert(data[pos] == n);
        assert(data.subrange(pos + 1, pos + 1 + n) =~= b) by {
            assert forall|k: int| 0 <= k < n implies data.subrange(pos + 1, pos + 1 + n)[k] == b[k] by {
                assert(data[pos + 1 + k] == e[1 + k]);
            }
        }
        assert(data.subrange(pos + 1 + n, pos + 1 + n + er.len()) =~= er) by {
            assert forall|k: int| 0 <= k < er.len() implies data.subrange(pos + 1 + n, pos + 1 + n + er.len())[k]
                == er[k] by {
                assert(data[pos + 1 + n + k] == e[1 + n + k]);
            }
        }
        assert forall|i: int| 0 <= i < rest.len() implies 1 <= #[trigger] vstd::utf8::encode_utf8(rest[i]).len()
            <= 255 by {
            assert(rest[i] == ls[i + 1]);
        }
        lemma_walk_labels(data, pos + 1 + n, rest);
        assert(label_bytes(ls) =~= seq![b] + label_bytes(rest));
    }
}

/// A query built for `domain` and `qtype` decodes back to that type and to
/// `domain`'s labels, each lowercased, joined by dots; the question takes
/// the whole packet after the header. This holds whenever every label of
/// `domain` is non-empty and at most 255 bytes long.
pub proof fn law_query_round_trip(domain: Seq<char>, qtype: u16)
    requires
        labels_fit(split_dots(domain)),
    ensures
        spec_parse_question(spec_test_query(domain, qtype).subrange(12, spec_test_query(domain, qtype).len() as int))
            == Some((
            join(split_dots(domain).map_values(|l: Seq<char>| lowercased(l)), '.'),
            qtype,
            spec_test_query(domain, qtype).len() - 12,
        )),
{
    broadcast use vstd::utf8::encode_utf8_valid_utf8, vstd::utf8::encode_utf8_decode_utf8;

    let q = spec_test_query(domain, qtype);
    let ls = split_dots(domain);
    let body = encode_labels(ls);
    let data = q.subrange(12, q.len() as int);
    assert(data =~= body + seq![0u8] + be_u16(qtype) + be_u16(1));
    assert(data.subrange(0, body.len() as int) =~= body);
    lemma_walk_labels(data, 0, ls);
    let raw = label_bytes(ls);
    let pos: int = body.len() as int + 1;
    assert(all_utf8(raw));
    assert(label_texts(raw) =~= ls.map_values(|l: Seq<char>| lowercased(l))) by {
        assert forall|i: int| 0 <= i < ls.len() implies label_texts(raw)[i] == lowercased(ls[i]) by {
            assert(raw[i] == vstd::utf8::encode_utf8(ls[i]));
        }
    }
    assert(data[pos] == (qtype / 256) as u8);
    assert(data[pos + 1] == (qtype % 256) as u8);
    assert(read_be_u16(data[pos], data[pos + 1]) == qtype);
}

/// Walking the labels of a name cut short before its terminator fails.
pub proof fn lemma_walk_truncated(data: Seq<u8>, pos: int, ls: Seq<Seq<char>>)
    requires
        0 <= pos,
        labels_fit(ls),
        data.len() <= pos + encode_labels(ls).len(),
        forall|k: int| pos <= k < data.len() ==> data[k] == encode_labels(ls)[k - pos],
    ensures
        spec_labels(data, pos) is None,
    decreases ls.len(),
{
    if pos < data.len() {
        if ls.len() == 0 {
            assert(encode_labels(ls).len() == 0);
        } else {
            lemma_encode_labels_front(ls);
            let b = vstd::utf8::encode_utf8(ls[0]);
            let n = b.len() as int;
            let rest = ls.drop_first();
            let e = encode_labels(ls);
            let er = encode_labels(rest);
            assert(1 <= n <= 255);
            assert(e == seq![(n % 256) as u8] + b + er);
            assert(data[pos] == e[0]);
            assert(data[pos] == n);
            if pos + 1 + n <= data.len() {
                assert forall|i: int| 0 <= i < rest.len() implies 1 <= #[trigger] vstd::utf8::encode_utf8(
                    rest[i],
                ).len() <= 255 by {
                    assert(rest[i] == ls[i + 1]);
                }
                assert forall|k: int| pos + 1 + n <= k < data.len() implies data[k] == er[k - (pos + 1 + n)] by {
                    assert(data[k] == e[k - pos]);
                    assert(e[k - pos] == er[k - pos - 1 - n]);
                }
                lemma_walk_truncated(data, pos + 1 + n, rest);
            }
        }
    }
}

/// Every strict prefix of a built question is refused: the question is only
/// read once all of it, name and type and class, has arrived.
pub proof fn law_truncated_question_refused(domain: Seq<char>, qtype: u16, n: int)
    requires
        labels_fit(split_dots(domain)),
        0 <= n < spec_test_query(domain, qtype).len() - 12,
    ensures
        spec_parse_question(spec_test_query(domain, qtype).subrange(12, 12 + n)) is None,
{
    let q = spec_test_query(domain, qtype);
    let ls = split_dots(domain);
    let body = encode_labels(ls);
    let data = q.subrange(12, q.len() as int);
    assert(data =~= body + seq![0u8] + be_u16(qtype) + be_u16(1));
    let p = q.subrange(12, 12 + n);
    assert(p =~= data.take(n));
    if n <= body.len() {
        assert forall|k: int| 0 <= k < p.len() implies p[k] == body[k - 0] by {
            assert(p[k] == data[k]);
        }
        lemma_walk_truncated(p, 0, ls);
    } else {
        assert(p.subrange(0, body.len() as int) =~= body);
        assert(p[body.len() as int] == 0);
        lemma_walk_labels(p, 0, ls);
    }
}

/// The domain a query built for `domain` asks about, as the responder reads it.
pub open spec fn queried_name(domain: Seq<char>) -> Seq<char> {
    join(split_dots(domain).map_values(|l: Seq<char>| lowercased(l)), '.')
}

/// How a query built for `domain` is answered: a name under `.test` gets
/// NOERROR with one record for an A or AAAA query and none for other types;
/// any other name gets NXDOMAIN with no records. The query's ID comes back.
pub proof fn law_built_query_answer(domain: Seq<char>, qtype: u16)
    requires
        labels_fit(split_dots(domain)),
    ensures
        ({
            let r = spec_handle_query(spec_test_query(domain, qtype));
            let served = is_test_domain(queried_name(domain));
            &&& r.len() >= 12
            &&& r[0] == 0xAAu8 && r[1] == 0xBBu8
            &&& served ==> rcode(r) == 0 && answer_count(r) == (if qtype == 1 || qtype == 28 { 1int } else { 0int })
            &&& !served ==> rcode(r) == 3 && answer_count(r) == 0
        }),
{
    law_query_round_trip(domain, qtype);
    let q = spec_test_query(domain, qtype);
    let id = q.subrange(0, 2);
    assert(id =~= seq![0xAAu8, 0xBBu8]);
    assert(read_be_u16(q[4], q[5]) == 1);
    let e = q.len() as int;
    assert(12 + (q.len() - 12) == e);
    let r = spec_handle_query(q);
    let d = queried_name(domain);
    if !is_test_domain(d) {
        assert(r =~= header(id, flags_nxdomain(), 1, 0) + q.subrange(12, e));
        assert(r[3] == 0x83u8);
        assert(r[6] == 0u8 && r[7] == 0u8);
    } else if qtype == 1 {
        let h = header(id, flags_ok(), 1, 1);
        assert(r =~= h + q.subrange(12, e) + be_u16(0xC00C) + be_u16(1) + be_u16(1) + be_u32(60) + be_u16(4)
            + seq![127u8, 0, 0, 1]);
        assert(r[3] == h[3] && r[6] == h[6] && r[7] == h[7] && r[0] == h[0] && r[1] == h[1]);
    } else if qtype == 28 {
        let h = header(id, flags_ok(), 1, 1);
        assert(r =~= h + q.subrange(12, e) + be_u16(0xC00C) + be_u16(28) + be_u16(1) + be_u32(60) + be_u16(16)
            + ipv6_loopback());
        assert(r[3] == h[3] && r[6] == h[6] && r[7] == h[7] && r[0] == h[0] && r[1] == h[1]);
    } else {
        let h = header(id, flags_ok(), 1, 0);
        assert(r =~= h + q.subrange(12, e));
        assert(r[3] == h[3] && r[6] == h[6] && r[7] == h[7] && r[0] == h[0] && r[1] == h[1]);
    }
}

/// A decoded name ends after the position it starts at.
pub proof fn lemma_labels_end(data: Seq<u8>, pos: int)
    ensures
        spec_labels(data, pos) matches Some((ls, end)) ==> pos < end <= data.len(),
    decreases data.len() - pos,
{
    if 0 <= pos < data.len() && data[pos] != 0 && pos + 1 + data[pos] <= data.len() {
        lemma_labels_end(data, pos + 1 + data[pos]);
    }
}

/// The answer record of a served A or AAAA query: it points back at the
/// question's name (0xC00C), carries the question's own type (1 or 28), class
/// IN and a TTL of 60 seconds, and holds the loopback address of that family:
/// 127.0.0.1 in four bytes for A, ::1 in sixteen bytes for AAAA. The question
/// section is echoed unchanged in front of it.
pub proof fn law_answer_record(query: Seq<u8>)
    requires
        query.len() >= 12,
        spec_parse_question(query.subrange(12, query.len() as int)) matches Some((d, t, c))
            && is_test_domain(d) && (t == 1 || t == 28),
    ensures
        ({
            let (d, t, c) = spec_parse_question(query.subrange(12, query.len() as int)).unwrap();
            let e = 12 + c;
            let r = spec_handle_query(query);
            &&& r.len() == e + (if t == 1 { 16int } else { 28int })
            &&& r.subrange(12, e) == query.subrange(12, e)
            &&& r[e] == 0xC0u8 && r[e + 1] == 0x0Cu8
            &&& r[e + 2] == 0u8 && r[e + 3] as int == t as int
            &&& r[e + 4] == 0u8 && r[e + 5] == 1u8
            &&& r.subrange(e + 6, e + 10) == seq![0u8, 0, 0, 60]
            &&& t == 1 ==> r[e + 10] == 0u8 && r[e + 11] == 4u8 && r.subrange(e + 12, e + 16) == seq![127u8, 0, 0, 1]
            &&& t == 28 ==> r[e + 10] == 0u8 && r[e + 11] == 16u8 && r.subrange(e + 12, e + 28) == seq![
                0u8, 0, 0, 0, 0, 0, 0, 0, 0, 0, 0, 0, 0, 0, 0, 1,
            ]
        }),
{
    let data = query.subrange(12, query.len() as int);
    let (d, t, c) = spec_parse_question(data).unwrap();
    lemma_labels_end(data, 0);
    let e = 12 + c;
    assert(16 <= e <= query.len());
    let id = query.subrange(0, 2);
    let qdcount = read_be_u16(query[4], query[5]);
    let h = header(id, flags_ok(), qdcount, 1);
    assert(h.len() == 12);
    let q = query.subrange(12, e);
    let r = spec_handle_query(query);
    if t == 1 {
        let tail = seq![0xC0u8, 0x0C, 0, 1, 0, 1, 0, 0, 0, 60, 0, 4, 127, 0, 0, 1];
        assert(be_u16(0xC00C) + be_u16(1) + be_u16(1) + be_u32(60) + be_u16(4) + seq![127u8, 0, 0, 1] =~= tail);
        assert(r =~= h + q + tail);
        assert(r.subrange(12, e) =~= q);
        assert(r.subrange(e + 6, e + 10) =~= seq![0u8, 0, 0, 60]);
        assert(r.subrange(e + 12, e + 16) =~= seq![127u8, 0, 0, 1]);
    } else {
        let tail = seq![0xC0u8, 0x0C, 0, 28, 0, 1, 0, 0, 0, 60, 0, 16, 0, 0, 0, 0, 0, 0, 0, 0, 0, 0, 0, 0, 0, 0, 0, 1];
        assert(be_u16(0xC00C) + be_u16(28) + be_u16(1) + be_u32(60) + be_u16(16) + ipv6_loopback() =~= tail);
        assert(r =~= h + q + tail);
        assert(r.subrange(12, e) =~= q);
        assert(r.subrange(e + 6, e + 10) =~= seq![0u8, 0, 0, 60]);
        assert(r.subrange(e + 12, e + 28) =~= seq![0u8, 0, 0, 0, 0, 0, 0, 0, 0, 0, 0, 0, 0, 0, 0, 1]);
    }
}

/// Appends the wire form of one label.
fn push_label(pkt: &mut Vec<u8>, label: &Vec<char>)
    ensures
        final(pkt)@ == old(pkt)@ + encode_label(label@),
{
    let s = string_from_chars(label.as_slice());
    let bytes = s.as_str().as_bytes();
    pkt.push((bytes.len() % 256) as u8);
    push_bytes(pkt, bytes);
    assert(final(pkt)@ =~= old(pkt)@ + encode_label(label@));
}

/// Builds a minimal DNS query packet asking for `domain` with type `qtype`.
pub fn build_test_query(domain: &str, qtype: u16) -> (pkt: Vec<u8>)
    ensures
        pkt@ == spec_test_query(domain@, qtype),
{
    let mut pkt: Vec<u8> = Vec::new();
    pkt.push(0xAA);
    pkt.push(0xBB);
    push_be_u16(&mut pkt, 0x0100);
    push_be_u16(&mut pkt, 1);
    push_be_u16(&mut pkt, 0);
    push_be_u16(&mut pkt, 0);
    push_be_u16(&mut pkt, 0);
    let ghost head = pkt@;
    let cs = chars_of(domain);
    let mut cur: Vec<char> = Vec::new();
    let ghost mut done: Seq<Seq<char>> = Seq::empty();
    let mut i: usize = 0;
    assert(cs@.skip(0) =~= cs@);
    assert(done + split_dots_from(cs@, cur@) =~= split_dots(domain@));
    while i < cs.len()
        invariant
            i <= cs@.len(),
            cs@ == domain@,
            pkt@ == head + encode_labels(done),
            done + split_dots_from(cs@.skip(i as int), cur@) == split_dots(domain@),
        decreases cs@.len() - i,
    {
        let ghost rest = cs@.skip(i as int);
        assert(rest.drop_first() =~= cs@.skip(i + 1));
        if cs[i] == '.' {
            push_label(&mut pkt, &cur);
            proof {
                assert(done.push(cur@).drop_last() =~= done);
                assert(pkt@ =~= head + encode_labels(done.push(cur@)));
                assert(done + (seq![cur@] + split_dots_from(cs@.skip(i + 1), Seq::empty())) =~= done.push(cur@)
                    + split_dots_from(cs@.skip(i + 1), Seq::empty()));
                done = done.push(cur@);
            }
            cur = Vec::new();
            assert(cur@ =~= Seq::<char>::empty());
        } else {
            cur.push(cs[i]);
        }
        i = i + 1;
    }
    assert(cs@.skip(cs@.len() as int) =~= Seq::<char>::empty());
    push_label(&mut pkt, &cur);
    proof {
        assert(done.push(cur@).drop_last() =~= done);
        assert(done + seq![cur@] =~= done.push(cur@));
    }
    pkt.push(0);
    push_be_u16(&mut pkt, qtype);
    push_be_u16(&mut pkt, 1);
    assert(pkt@ =~= spec_test_query(domain@, qtype));
    pkt
}

/// Answers one DNS query packet: every name under `.test` (and `test`
/// itself) resolves to the loopback address, whatever letter case it is
/// written in; any other name gets NXDOMAIN.
pub fn handle_query(query: &[u8]) -> (resp: Vec<u8>)
    requires
        query@.len() >= 12,
    ensures
        resp@ == spec_handle_query(query@),
        resp@.len() >= 12,
        resp@[0] == query@[0] && resp@[1] == query@[1],
        rcode(resp@) == 1 <==> spec_parse_question(query@.subrange(12, query@.len() as int)) is None,
        rcode(resp@) == 3 <==> (spec_parse_question(query@.subrange(12, query@.len() as int)) matches Some((d, t, e))
            && !is_test_domain(d)),
        answer_count(resp@) == 1 <==> (spec_parse_question(query@.subrange(12, query@.len() as int)) matches Some((d, t, e))
            && is_test_domain(d) && (t == 1 || t == 28)),
{
    let id = &query[0..2];
    let qdcount: u16 = (query[4] as u16) * 256 + (query[5] as u16);
    let rest = &query[12..query.len()];
    let parsed = parse_question(rest);
    let resp = match parsed {
        None => build_error_response(id, 1),
        Some((domain, qtype, consumed)) => {
            let question_end = 12 + consumed;
            let is_test = str_ends_with(domain.as_str(), ".test") || str_eq(domain.as_str(), "test");
            if !is_test {
                build_nxdomain_response(id, query, question_end)
            } else if qtype == 1 {
                build_a_response(id, query, question_end, qdcount, [127, 0, 0, 1])
            } else if qtype == 28 {
                build_aaaa_response(id, query, question_end, qdcount)
            } else {
                build_empty_response(id, query, question_end, qdcount)
            }
        },
    };
    proof {
        reveal_strlit(".test");
        reveal_strlit("test");
        assert(seq![127u8, 0, 0, 1] =~= [127u8, 0, 0, 1]@);
    }
    resp
}

} // verus!
