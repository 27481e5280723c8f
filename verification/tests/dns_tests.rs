use devbind::dns::{build_test_query, handle_query, parse_question, DNS_LISTEN_ADDR};

// ── A record (type 1) ────────────────────────────────────────────────────

#[test]
fn test_a_query_for_test_domain() {
    let query = build_test_query("myapp.test", 1);
    let resp = handle_query(&query);

    // Check header
    assert_eq!(resp[0], 0xAA); // ID preserved
    assert_eq!(resp[1], 0xBB);

    let flags = u16::from_be_bytes([resp[2], resp[3]]);
    assert_eq!(flags & 0x000F, 0, "RCODE should be NOERROR");

    let ancount = u16::from_be_bytes([resp[6], resp[7]]);
    assert_eq!(ancount, 1, "Should have 1 answer");

    // Last 4 bytes should be 127.0.0.1
    let ip_bytes = &resp[resp.len() - 4..];
    assert_eq!(ip_bytes, &[127, 0, 0, 1]);
}

#[test]
fn test_a_query_id_is_mirrored() {
    // Build query with a distinct ID [0xDE, 0xAD]
    let mut query = build_test_query("mirror.test", 1);
    query[0] = 0xDE;
    query[1] = 0xAD;
    let resp = handle_query(&query);
    assert_eq!(resp[0], 0xDE, "Response ID byte 0 must mirror query");
    assert_eq!(resp[1], 0xAD, "Response ID byte 1 must mirror query");
}

// ── NXDOMAIN ────────────────────────────────────────────────────────────

#[test]
fn test_nxdomain_for_non_test_domain() {
    let query = build_test_query("example.com", 1);
    let resp = handle_query(&query);

    let flags = u16::from_be_bytes([resp[2], resp[3]]);
    assert_eq!(flags & 0x000F, 3, "RCODE should be NXDOMAIN");
}

#[test]
fn test_nxdomain_for_org_domain() {
    let query = build_test_query("openai.org", 1);
    let resp = handle_query(&query);
    let flags = u16::from_be_bytes([resp[2], resp[3]]);
    assert_eq!(flags & 0x000F, 3, "*.org must be NXDOMAIN");
}

#[test]
fn test_nxdomain_for_io_domain() {
    let query = build_test_query("myapp.io", 1);
    let resp = handle_query(&query);
    let flags = u16::from_be_bytes([resp[2], resp[3]]);
    assert_eq!(flags & 0x000F, 3, "*.io must be NXDOMAIN");
}

#[test]
fn test_nxdomain_for_test_lookalike_domain() {
    // "nottest" must not be confused with ".test"
    let query = build_test_query("myapp.nottest", 1);
    let resp = handle_query(&query);
    let flags = u16::from_be_bytes([resp[2], resp[3]]);
    assert_eq!(flags & 0x000F, 3, "non-.test TLD must be NXDOMAIN");
}

// ── AAAA record (type 28) ────────────────────────────────────────────────

#[test]
fn test_aaaa_query_for_test_domain() {
    let query = build_test_query("myapp.test", 28);
    let resp = handle_query(&query);

    let ancount = u16::from_be_bytes([resp[6], resp[7]]);
    assert_eq!(ancount, 1, "Should have 1 AAAA answer");

    // Last 16 bytes should be ::1
    let ip6_bytes = &resp[resp.len() - 16..];
    let mut expected = [0u8; 16];
    expected[15] = 1;
    assert_eq!(ip6_bytes, &expected);
}

// ── Special .test forms ──────────────────────────────────────────────────

#[test]
fn test_bare_test_domain() {
    let query = build_test_query("test", 1);
    let resp = handle_query(&query);

    let flags = u16::from_be_bytes([resp[2], resp[3]]);
    assert_eq!(flags & 0x000F, 0, "bare .test should resolve");

    let ancount = u16::from_be_bytes([resp[6], resp[7]]);
    assert_eq!(ancount, 1);
}

#[test]
fn test_deeply_nested_test_subdomain() {
    let query = build_test_query("a.b.c.d.test", 1);
    let resp = handle_query(&query);

    let ancount = u16::from_be_bytes([resp[6], resp[7]]);
    assert_eq!(ancount, 1, "deeply nested .test should resolve");
}

#[test]
fn test_uppercase_test_domain_resolves() {
    // Label parsing lowercases; uppercase MYAPP.TEST must still resolve
    let query = build_test_query("MYAPP.TEST", 1);
    let resp = handle_query(&query);
    let flags = u16::from_be_bytes([resp[2], resp[3]]);
    assert_eq!(
        flags & 0x000F,
        0,
        "uppercase .TEST must resolve (case-insensitive)"
    );
    let ancount = u16::from_be_bytes([resp[6], resp[7]]);
    assert_eq!(ancount, 1);
}

// ── Unknown query types ──────────────────────────────────────────────────

#[test]
fn test_mx_query_for_test_domain_returns_empty_answer() {
    // Type 15 = MX — should get NOERROR with 0 answers
    let query = build_test_query("myapp.test", 15);
    let resp = handle_query(&query);
    let flags = u16::from_be_bytes([resp[2], resp[3]]);
    assert_eq!(flags & 0x000F, 0, "MX query must not error");
    let ancount = u16::from_be_bytes([resp[6], resp[7]]);
    assert_eq!(ancount, 0, "MX query on .test must return 0 answers");
}

#[test]
fn test_soa_query_for_test_domain_returns_empty_answer() {
    // Type 6 = SOA
    let query = build_test_query("myapp.test", 6);
    let resp = handle_query(&query);
    let flags = u16::from_be_bytes([resp[2], resp[3]]);
    assert_eq!(flags & 0x000F, 0, "SOA query must be NOERROR");
    let ancount = u16::from_be_bytes([resp[6], resp[7]]);
    assert_eq!(ancount, 0, "SOA query on .test must return 0 answers");
}

// ── Malformed packet ─────────────────────────────────────────────────────

#[test]
fn test_truncated_packet_returns_formerr() {
    // A 12-byte header with no question section will fail parse_question.
    let short_pkt = vec![
        0xCA, 0xFE, 0x01, 0x00, 0x00, 0x01, 0x00, 0x00, 0x00, 0x00, 0x00, 0x00,
    ];
    let resp = handle_query(&short_pkt);
    // Must return at least an 8-byte response (ID + flags + counts)
    assert!(resp.len() >= 4, "even FORMERR must have at least ID+flags");
    let flags = u16::from_be_bytes([resp[2], resp[3]]);
    // RCODE should be 1 (FORMERR) when the question is missing
    assert_eq!(
        flags & 0x000F,
        1,
        "truncated question section must return FORMERR"
    );
    // ID must still be mirrored
    assert_eq!(resp[0], 0xCA);
    assert_eq!(resp[1], 0xFE);
}

// ── further cases ────────────────────────────────────────────────────────

#[test]
fn any_test_name_resolves() {
    let query = build_test_query("www.example.io.test", 1);
    let resp = handle_query(&query);
    assert_eq!(u16::from_be_bytes([resp[2], resp[3]]), 0x8180);
    assert_eq!(u16::from_be_bytes([resp[6], resp[7]]), 1);
    assert_eq!(&resp[resp.len() - 4..], &[127, 0, 0, 1]);
}

#[test]
fn nxdomain_echoes_the_question() {
    let query = build_test_query("example.com", 1);
    let resp = handle_query(&query);
    assert_eq!(u16::from_be_bytes([resp[2], resp[3]]), 0x8183);
    assert_eq!(u16::from_be_bytes([resp[4], resp[5]]), 1);
    assert_eq!(&resp[12..], &query[12..]);
}

#[test]
fn error_response_carries_any_code() {
    assert_eq!(
        devbind::dns::build_error_response(&[0xCA, 0xFE], 1),
        vec![0xCA, 0xFE, 0x81, 0x01, 0, 0, 0, 0, 0, 0, 0, 0]
    );
    assert_eq!(
        devbind::dns::build_error_response(&[0, 7], 0xFF),
        vec![0, 7, 0x81, 0xFF, 0, 0, 0, 0, 0, 0, 0, 0]
    );
}

#[test]
fn a_response_exact_bytes() {
    let query = build_test_query("myapp.test", 1);
    let resp = handle_query(&query);
    let mut expected = vec![0xAA, 0xBB, 0x81, 0x80, 0x00, 0x01, 0x00, 0x01, 0x00, 0x00, 0x00, 0x00];
    expected.extend_from_slice(&query[12..]);
    expected.extend_from_slice(&[0xC0, 0x0C, 0x00, 0x01, 0x00, 0x01, 0x00, 0x00, 0x00, 0x3C, 0x00, 0x04, 127, 0, 0, 1]);
    assert_eq!(resp, expected);
}

#[test]
fn invalid_utf8_label_is_formerr() {
    let mut query = build_test_query("ab.test", 1);
    query[13] = 0xFF;
    let resp = handle_query(&query);
    assert_eq!(resp.len(), 12);
    assert_eq!(resp[2], 0x81);
    assert_eq!(resp[3], 0x01);
}

#[test]
fn label_running_past_end_is_formerr() {
    let mut query = build_test_query("myapp.test", 1);
    query[12] = 200;
    let resp = handle_query(&query);
    assert_eq!(resp[3] & 0x0F, 1);
}

#[test]
fn parse_question_reads_name_type_and_end() {
    let query = build_test_query("Foo.Bar", 28);
    let (domain, qtype, consumed) = parse_question(&query[12..]).unwrap();
    assert_eq!(domain, "foo.bar");
    assert_eq!(qtype, 28);
    assert_eq!(consumed, query.len() - 12);
    let data = [5, b'M', b'y', b'A', b'p', b'p', 4, b't', b'e', b's', b't', 0, 0, 1, 0, 1];
    assert_eq!(parse_question(&data), Some(("myapp.test".to_string(), 1, 16)));
}

#[test]
fn build_test_query_encodes_labels() {
    let q = build_test_query("ab.c", 1);
    assert_eq!(
        q,
        vec![0xAA, 0xBB, 0x01, 0x00, 0, 1, 0, 0, 0, 0, 0, 0, 2, b'a', b'b', 1, b'c', 0, 0, 1, 0, 1]
    );
}

#[test]
fn dns_listen_address() {
    assert_eq!(DNS_LISTEN_ADDR, "127.0.2.1:53");
}

#[test]
fn dns_built_query_round_trips() {
    let pkt = build_test_query("MyApp.Test", 28);
    let (domain, qtype, consumed) = parse_question(&pkt[12..]).unwrap();
    assert_eq!(domain, "myapp.test");
    assert_eq!(qtype, 28);
    assert_eq!(consumed, pkt.len() - 12);
}

#[test]
fn dns_every_strict_prefix_of_a_question_is_refused() {
    let q = build_test_query("a.bc.test", 1);
    for n in 0..q.len() - 12 {
        assert_eq!(parse_question(&q[12..12 + n]), None, "prefix of {} bytes", n);
    }
    assert!(parse_question(&q[12..]).is_some());
}
