use dns_codec::decode::parse_data_to_dns_message;
use dns_codec::encode::{build_dns_query, encode_query_with_id, frame_message};
use dns_codec::extract::{extract_domain_from_dns_message, extract_ipaddr_from_dns_message};
use dns_codec::name::parse_domain_name;
use dns_codec::types::{DnsError, IpAddress, MessageType};

fn header(id: u16, flags_hi: u8, flags_lo: u8, qd: u16, an: u16, ns: u16, ar: u16) -> Vec<u8> {
    let mut v = Vec::new();
    v.extend_from_slice(&id.to_be_bytes());
    v.push(flags_hi);
    v.push(flags_lo);
    v.extend_from_slice(&qd.to_be_bytes());
    v.extend_from_slice(&an.to_be_bytes());
    v.extend_from_slice(&ns.to_be_bytes());
    v.extend_from_slice(&ar.to_be_bytes());
    v
}

fn name_bytes(labels: &[&str]) -> Vec<u8> {
    let mut v = Vec::new();
    for l in labels {
        v.push(l.len() as u8);
        v.extend_from_slice(l.as_bytes());
    }
    v.push(0);
    v
}

fn question(labels: &[&str], qtype: u16) -> Vec<u8> {
    let mut v = name_bytes(labels);
    v.extend_from_slice(&qtype.to_be_bytes());
    v.extend_from_slice(&1u16.to_be_bytes());
    v
}

fn record(name: Vec<u8>, rtype: u16, rdata: &[u8]) -> Vec<u8> {
    let mut v = name;
    v.extend_from_slice(&rtype.to_be_bytes());
    v.extend_from_slice(&1u16.to_be_bytes());
    v.extend_from_slice(&[0, 0, 0, 60]);
    v.extend_from_slice(&(rdata.len() as u16).to_be_bytes());
    v.extend_from_slice(rdata);
    v
}

#[test]
fn build_query_and_extract_request_name() {
    let buf = build_dns_query("example.com", 1, false).unwrap();
    let msg = parse_data_to_dns_message(&buf, false).unwrap();
    let domain = extract_domain_from_dns_message(&msg).unwrap();
    assert_eq!(domain, "example.com.");
}

#[test]
fn encode_decode_round_trip_fields() {
    let name = parse_domain_name("example.com").unwrap();
    let buf = encode_query_with_id(0x1234, &name, 28);
    let msg = parse_data_to_dns_message(&buf, false).unwrap();
    assert_eq!(msg.id, 0x1234);
    assert!(matches!(msg.message_type, MessageType::Query));
    assert_eq!(msg.op_code, 0);
    assert!(msg.recursion_desired);
    assert_eq!(msg.response_code, 0);
    assert_eq!(msg.queries.len(), 1);
    assert_eq!(msg.queries[0].qtype, 28);
    assert_eq!(
        msg.queries[0].name.labels,
        vec![b"example".to_vec(), b"com".to_vec()]
    );
    assert_eq!(msg.answers.len(), 0);
}

#[test]
fn framed_decode_equals_unframed_decode() {
    let name = parse_domain_name("example.com").unwrap();
    let buf = encode_query_with_id(7, &name, 1);
    let mut framed = frame_message(&buf).unwrap();
    // a pipelined read may carry bytes beyond the first frame
    framed.extend_from_slice(&[0xde, 0xad]);
    let m1 = parse_data_to_dns_message(&framed, true).unwrap();
    let m2 = parse_data_to_dns_message(&buf, false).unwrap();
    assert_eq!(m1.id, m2.id);
    assert_eq!(m1.queries[0].qtype, m2.queries[0].qtype);
    assert_eq!(
        extract_domain_from_dns_message(&m1).unwrap(),
        extract_domain_from_dns_message(&m2).unwrap()
    );
}

#[test]
fn frame_prefix_layout() {
    let framed = frame_message(&vec![1, 2, 3]).unwrap();
    assert_eq!(framed, vec![0, 3, 1, 2, 3]);
}

#[test]
fn frame_rejects_oversized_message() {
    let big = vec![0u8; 65536];
    assert!(matches!(frame_message(&big), Err(DnsError::MessageTooLarge)));
}

#[test]
fn truncated_frames_are_detected() {
    // declared length 5, only 2 payload bytes present
    assert!(matches!(
        parse_data_to_dns_message(&[0, 5, 1, 2], true),
        Err(DnsError::TruncatedFrame)
    ));
    // fewer than two bytes of prefix
    assert!(matches!(
        parse_data_to_dns_message(&[7], true),
        Err(DnsError::TruncatedFrame)
    ));
    assert!(matches!(
        parse_data_to_dns_message(&[], true),
        Err(DnsError::TruncatedFrame)
    ));
    // a valid message declared one byte longer than what follows
    let name = parse_domain_name("example.com").unwrap();
    let buf = encode_query_with_id(1, &name, 1);
    let mut framed = ((buf.len() + 1) as u16).to_be_bytes().to_vec();
    framed.extend_from_slice(&buf);
    assert!(matches!(
        parse_data_to_dns_message(&framed, true),
        Err(DnsError::TruncatedFrame)
    ));
}

#[test]
fn invalid_domain_names_are_rejected() {
    let long_label = "a".repeat(64);
    let long_name = ["a"; 128].join(".");
    for bad in [
        "",
        ".",
        "a..b",
        ".example.com",
        "a b",
        "exa$mple.com",
        "ex\u{e4}mple.com",
        long_label.as_str(),
        long_name.as_str(),
    ] {
        assert!(
            matches!(build_dns_query(bad, 1, false), Err(DnsError::InvalidDomainName)),
            "accepted: {bad:?}"
        );
        assert!(matches!(parse_domain_name(bad), Err(DnsError::InvalidDomainName)));
    }
}

#[test]
fn valid_domain_names_are_accepted() {
    let max_label = "a".repeat(63);
    let max_name = ["a"; 127].join(".");
    for good in [
        "example.com",
        "example.com.",
        "a-b_c.tld",
        "_dmarc.example.com",
        "9lives.net",
        max_label.as_str(),
        max_name.as_str(),
    ] {
        assert!(build_dns_query(good, 1, true).is_ok(), "rejected: {good:?}");
    }
}

#[test]
fn absolute_name_encodes_like_relative() {
    let a = parse_domain_name("example.com").unwrap();
    let b = parse_domain_name("example.com.").unwrap();
    assert_eq!(a.labels, b.labels);
}

#[test]
fn malformed_messages_are_rejected() {
    // shorter than a header
    assert!(matches!(
        parse_data_to_dns_message(&[0u8; 11], false),
        Err(DnsError::MalformedMessage)
    ));
    // question count declared but no question present
    assert!(matches!(
        parse_data_to_dns_message(&header(1, 0, 0, 1, 0, 0, 0), false),
        Err(DnsError::MalformedMessage)
    ));
    // reserved label tag
    let mut bad_tag = header(1, 0x80, 0, 1, 0, 0, 0);
    bad_tag.extend_from_slice(&[0x80, 0, 0, 1, 0, 1]);
    assert!(matches!(
        parse_data_to_dns_message(&bad_tag, false),
        Err(DnsError::MalformedMessage)
    ));
    // address record with a payload of the wrong size
    let mut short_a = header(1, 0x80, 0, 0, 1, 0, 0);
    short_a.extend_from_slice(&record(name_bytes(&["x"]), 1, &[1, 2, 3]));
    assert!(matches!(
        parse_data_to_dns_message(&short_a, false),
        Err(DnsError::MalformedMessage)
    ));
    // trailing bytes after the message
    let name = parse_domain_name("example.com").unwrap();
    let mut buf = encode_query_with_id(1, &name, 1);
    buf.push(0);
    assert!(matches!(
        parse_data_to_dns_message(&buf, false),
        Err(DnsError::MalformedMessage)
    ));
}

#[test]
fn a_record_response_yields_ipv4() {
    let mut buf = header(0, 0x80, 0, 0, 1, 0, 0);
    buf.extend_from_slice(&record(name_bytes(&["example", "com"]), 1, &[93, 184, 216, 34]));
    let msg = parse_data_to_dns_message(&buf, false).unwrap();
    let addr = extract_ipaddr_from_dns_message(&msg).unwrap();
    assert_eq!(addr, IpAddress::V4(u32::from_be_bytes([93, 184, 216, 34])));
}

#[test]
fn aaaa_record_response_yields_ipv6() {
    let rdata = [
        0x20, 0x01, 0x0d, 0xb8, 0, 0, 0, 0, 0, 0, 0, 0, 0, 0, 0, 0x42,
    ];
    let mut buf = header(0, 0x80, 0, 0, 1, 0, 0);
    buf.extend_from_slice(&record(name_bytes(&["example", "com"]), 28, &rdata));
    let msg = parse_data_to_dns_message(&buf, false).unwrap();
    let addr = extract_ipaddr_from_dns_message(&msg).unwrap();
    assert_eq!(addr, IpAddress::V6(u128::from_be_bytes(rdata)));
}

#[test]
fn response_code_takes_precedence_over_answers() {
    // response code 2: server failure, despite a well-formed A answer
    let mut buf = header(0, 0x80, 2, 0, 1, 0, 0);
    buf.extend_from_slice(&record(name_bytes(&["example", "com"]), 1, &[93, 184, 216, 34]));
    let msg = parse_data_to_dns_message(&buf, false).unwrap();
    assert!(matches!(
        extract_ipaddr_from_dns_message(&msg),
        Err(DnsError::ProtocolError(2))
    ));
}

#[test]
fn alias_followed_by_address_yields_address() {
    let mut buf = header(0, 0x80, 0, 0, 2, 0, 0);
    buf.extend_from_slice(&record(
        name_bytes(&["www", "example", "com"]),
        5,
        &name_bytes(&["example", "com"]),
    ));
    buf.extend_from_slice(&record(name_bytes(&["example", "com"]), 1, &[93, 184, 216, 34]));
    let msg = parse_data_to_dns_message(&buf, false).unwrap();
    let addr = extract_ipaddr_from_dns_message(&msg).unwrap();
    assert_eq!(addr, IpAddress::V4(u32::from_be_bytes([93, 184, 216, 34])));
}

#[test]
fn alias_only_yields_unresolved_alias() {
    let mut buf = header(0, 0x80, 0, 0, 1, 0, 0);
    buf.extend_from_slice(&record(
        name_bytes(&["www", "example", "com"]),
        5,
        &name_bytes(&["alias", "example"]),
    ));
    let msg = parse_data_to_dns_message(&buf, false).unwrap();
    match extract_ipaddr_from_dns_message(&msg) {
        Err(DnsError::UnresolvedAlias(name)) => assert_eq!(name, "alias.example."),
        other => panic!("expected UnresolvedAlias, got {other:?}"),
    }
}

#[test]
fn no_answers_yields_no_usable_answer() {
    let buf = header(0, 0x80, 0, 0, 0, 0, 0);
    let msg = parse_data_to_dns_message(&buf, false).unwrap();
    assert!(matches!(
        extract_ipaddr_from_dns_message(&msg),
        Err(DnsError::NoUsableAnswer)
    ));
}

#[test]
fn unknown_record_types_are_skipped() {
    // a TXT-style record before the address must not stop the scan
    let mut buf = header(0, 0x80, 0, 0, 2, 0, 0);
    buf.extend_from_slice(&record(name_bytes(&["example", "com"]), 16, b"\x04text"));
    buf.extend_from_slice(&record(name_bytes(&["example", "com"]), 1, &[1, 2, 3, 4]));
    let msg = parse_data_to_dns_message(&buf, false).unwrap();
    let addr = extract_ipaddr_from_dns_message(&msg).unwrap();
    assert_eq!(addr, IpAddress::V4(u32::from_be_bytes([1, 2, 3, 4])));
}

#[test]
fn compressed_names_are_decoded() {
    // answer name and alias payload both point back at the question name
    let mut buf = header(0, 0x80, 0, 1, 1, 0, 0);
    buf.extend_from_slice(&question(&["example", "com"], 1));
    buf.extend_from_slice(&record(vec![0xC0, 12], 5, &[0xC0, 12]));
    let msg = parse_data_to_dns_message(&buf, false).unwrap();
    assert_eq!(
        msg.answers[0].name.labels,
        vec![b"example".to_vec(), b"com".to_vec()]
    );
    match extract_ipaddr_from_dns_message(&msg) {
        Err(DnsError::UnresolvedAlias(name)) => assert_eq!(name, "example.com."),
        other => panic!("expected UnresolvedAlias, got {other:?}"),
    }
}

#[test]
fn forward_compression_pointer_is_rejected() {
    // a pointer must point strictly backwards; this one points at itself
    let mut buf = header(0, 0x80, 0, 1, 0, 0, 0);
    let pointer_pos = buf.len() as u16;
    buf.push(0xC0);
    buf.push(pointer_pos as u8);
    buf.extend_from_slice(&1u16.to_be_bytes());
    buf.extend_from_slice(&1u16.to_be_bytes());
    assert!(matches!(
        parse_data_to_dns_message(&buf, false),
        Err(DnsError::MalformedMessage)
    ));
}

#[test]
fn empty_query_section_has_no_request_name() {
    let buf = header(0, 0x80, 0, 0, 0, 0, 0);
    let msg = parse_data_to_dns_message(&buf, false).unwrap();
    assert!(matches!(
        extract_domain_from_dns_message(&msg),
        Err(DnsError::NoQueryPresent)
    ));
}

#[test]
fn framed_query_carries_its_own_length() {
    let buf = build_dns_query("example.com", 1, true).unwrap();
    let declared = u16::from_be_bytes([buf[0], buf[1]]) as usize;
    assert_eq!(declared, buf.len() - 2);
    let msg = parse_data_to_dns_message(&buf, true).unwrap();
    assert_eq!(extract_domain_from_dns_message(&msg).unwrap(), "example.com.");
}

#[test]
fn alias_chain_reports_last_alias() {
    // two aliases, no address: the most recently seen alias is reported
    let mut buf = header(0, 0x80, 0, 0, 2, 0, 0);
    buf.extend_from_slice(&record(
        name_bytes(&["www", "example", "com"]),
        5,
        &name_bytes(&["one", "example"]),
    ));
    buf.extend_from_slice(&record(
        name_bytes(&["one", "example"]),
        5,
        &name_bytes(&["two", "example"]),
    ));
    let msg = parse_data_to_dns_message(&buf, false).unwrap();
    match extract_ipaddr_from_dns_message(&msg) {
        Err(DnsError::UnresolvedAlias(name)) => assert_eq!(name, "two.example."),
        other => panic!("expected UnresolvedAlias, got {other:?}"),
    }
}
