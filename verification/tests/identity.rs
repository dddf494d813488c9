use easyshare::identity::{
    address_setting, build_nbstat_query, build_ptr_query, choose_local_hostname, clean_hostname,
    display_name, hostname_or_ip, hostname_setting, mdns_worth_asking, netbios_worth_asking,
    parse_nbstat_response, parse_ptr_response,
};

#[test]
fn ptr_query_encoding() {
    let q = build_ptr_query([192, 168, 3, 104]);
    // Header: qdcount=1.
    assert_eq!(&q[4..6], &[0, 1]);
    // Question labels: 104.3.168.192.in-addr.arpa
    let expected_name: &[u8] = b"\x03104\x013\x03168\x03192\x07in-addr\x04arpa\x00";
    assert_eq!(&q[12..12 + expected_name.len()], expected_name);
    let tail = &q[12 + expected_name.len()..];
    assert_eq!(tail, &[0, 12, 0x80, 0x01]); // PTR, IN+QU
}

#[test]
fn parses_ptr_response() {
    let mut pkt: Vec<u8> = Vec::new();
    // Header: id=0, flags=0x8400 (response, authoritative), qd=1, an=1.
    pkt.extend_from_slice(&[0, 0, 0x84, 0x00, 0, 1, 0, 1, 0, 0, 0, 0]);
    let question: &[u8] = b"\x03104\x013\x03168\x03192\x07in-addr\x04arpa\x00\x00\x0c\x80\x01";
    pkt.extend_from_slice(question);
    // Answer: name = ptr to offset 12, type PTR, class IN, ttl=120,
    // rdlength = 17, rdata = "my-laptop.local"
    pkt.extend_from_slice(&[0xC0, 0x0C, 0, 12, 0, 1, 0, 0, 0, 120, 0, 17]);
    pkt.extend_from_slice(b"\x09my-laptop\x05local\x00");
    let name = parse_ptr_response(&pkt).expect("should parse PTR");
    assert!(name.starts_with("my-laptop.local"), "got: {name}");
}

#[test]
fn rejects_non_response_packet() {
    let q = build_ptr_query([10, 0, 0, 1]);
    assert!(parse_ptr_response(&q).is_none());
}

#[test]
fn rejects_garbage_packet() {
    assert!(parse_ptr_response(&[1, 2, 3]).is_none());
    assert!(parse_ptr_response(&[]).is_none());
}

#[test]
fn nbstat_query_encoding() {
    let q = build_nbstat_query();
    assert_eq!(&q[4..6], &[0, 1]); // qdcount = 1
    assert_eq!(q[12], 0x20); // 32-char encoded name label
    assert_eq!(&q[13..17], b"CKAA"); // '*' + first padding byte
    assert_eq!(q[45], 0); // root label
    assert_eq!(&q[46..50], &[0, 0x21, 0, 1]); // NBSTAT, IN
    assert_eq!(q.len(), 50);
}

fn nbstat_packet(rdlen: u8, entries: &[(&[u8], u8, u8)]) -> Vec<u8> {
    let mut pkt: Vec<u8> = Vec::new();
    pkt.extend_from_slice(&[0, 1, 0x85, 0x00, 0, 1, 0, 1, 0, 0, 0, 0]);
    pkt.extend_from_slice(&build_nbstat_query()[12..]);
    pkt.extend_from_slice(&[0xC0, 0x0C, 0, 0x21, 0, 1, 0, 0, 0, 0, 0, rdlen]);
    pkt.push(entries.len() as u8);
    for (name, suffix, flags_hi) in entries {
        pkt.extend_from_slice(name);
        pkt.extend_from_slice(&[*suffix, *flags_hi, 0x00]);
    }
    pkt
}

#[test]
fn parses_nbstat_response() {
    let mut pkt: Vec<u8> = Vec::new();
    pkt.extend_from_slice(&[0, 1, 0x85, 0x00, 0, 1, 0, 1, 0, 0, 0, 0]);
    pkt.extend_from_slice(&build_nbstat_query()[12..]); // question section
    pkt.extend_from_slice(&[0xC0, 0x0C, 0, 0x21, 0, 1, 0, 0, 0, 0, 0, 37]);
    pkt.push(2); // two name entries
    pkt.extend_from_slice(b"DESKTOP-ABC123 ");
    pkt.extend_from_slice(&[0x00, 0x00, 0x00]);
    pkt.extend_from_slice(b"WORKGROUP      ");
    pkt.extend_from_slice(&[0x00, 0x80, 0x00]);
    assert_eq!(parse_nbstat_response(&pkt).as_deref(), Some("DESKTOP-ABC123"));
}

#[test]
fn nbstat_skips_group_names() {
    let mut pkt: Vec<u8> = Vec::new();
    pkt.extend_from_slice(&[0, 1, 0x85, 0x00, 0, 1, 0, 1, 0, 0, 0, 0]);
    pkt.extend_from_slice(&build_nbstat_query()[12..]);
    pkt.extend_from_slice(&[0xC0, 0x0C, 0, 0x21, 0, 1, 0, 0, 0, 0, 0, 19]);
    pkt.push(1);
    pkt.extend_from_slice(b"WORKGROUP      ");
    pkt.extend_from_slice(&[0x00, 0x80, 0x00]);
    assert_eq!(parse_nbstat_response(&pkt), None);
}

#[test]
fn nbstat_rejections() {
    let good = nbstat_packet(19, &[(b"PC1            ", 0, 0)]);
    assert_eq!(parse_nbstat_response(&good).as_deref(), Some("PC1"));
    // Too short.
    assert_eq!(parse_nbstat_response(&good[..11]), None);
    // Not a response.
    let mut q = good.clone();
    q[2] = 0x05;
    assert_eq!(parse_nbstat_response(&q), None);
    // No answers.
    let mut q = good.clone();
    q[7] = 0;
    assert_eq!(parse_nbstat_response(&q), None);
    // Wrong answer type.
    let mut q = good.clone();
    q[53] = 0x20;
    assert_eq!(parse_nbstat_response(&q), None);
    // Answer name not a compression pointer.
    let mut q = good.clone();
    q[50] = 0x00;
    assert_eq!(parse_nbstat_response(&q), None);
    // Data length beyond the packet.
    let mut q = good.clone();
    q[61] = 200;
    assert_eq!(parse_nbstat_response(&q), None);
    // Entry count larger than the data.
    let mut q = good.clone();
    q[62] = 2;
    assert_eq!(parse_nbstat_response(&q), None);
}

#[test]
fn nbstat_skips_non_workstation_and_blank_names() {
    let pkt = nbstat_packet(
        55,
        &[(b"SERVER         ", 0x20, 0), (b"               ", 0, 0), (b"REAL\x01NAME      ", 0, 0)],
    );
    assert_eq!(parse_nbstat_response(&pkt).as_deref(), Some("REAL NAME"));
}

#[test]
fn display_format() {
    assert_eq!(display_name("macbook", "192.168.1.5"), "macbook (192.168.1.5)");
}

#[test]
fn cleans_resolved_names() {
    assert_eq!(clean_hostname("my-laptop.local."), "my-laptop");
    assert_eq!(clean_hostname("host.example.com."), "host.example.com");
    assert_eq!(clean_hostname("a.local.local"), "a.local");
    assert_eq!(hostname_or_ip(Some("my-laptop.local."), "10.0.0.2"), "my-laptop");
    assert_eq!(hostname_or_ip(Some(".local"), "10.0.0.2"), "10.0.0.2");
    assert_eq!(hostname_or_ip(Some("..."), "10.0.0.2"), "10.0.0.2");
    assert_eq!(hostname_or_ip(None, "192.0.2.1"), "192.0.2.1");
}

#[test]
fn local_hostname_choice() {
    assert_eq!(choose_local_hostname(Some("box"), Some("sys.local")).as_deref(), Some("box"));
    assert_eq!(choose_local_hostname(Some(""), Some("sys")), None);
    assert_eq!(choose_local_hostname(None, Some("sys.local.")).as_deref(), Some("sys"));
    assert_eq!(choose_local_hostname(None, Some(".local")), None);
    assert_eq!(choose_local_hostname(None, None), None);
}

#[test]
fn lookup_eligibility() {
    assert!(!mdns_worth_asking([127, 0, 0, 1]));
    assert!(!mdns_worth_asking([0, 0, 0, 0]));
    assert!(mdns_worth_asking([192, 0, 2, 1]));
    assert!(netbios_worth_asking([10, 1, 2, 3]));
    assert!(netbios_worth_asking([172, 16, 0, 1]));
    assert!(netbios_worth_asking([172, 31, 255, 1]));
    assert!(!netbios_worth_asking([172, 32, 0, 1]));
    assert!(netbios_worth_asking([192, 168, 1, 1]));
    assert!(netbios_worth_asking([169, 254, 3, 4]));
    assert!(!netbios_worth_asking([8, 8, 8, 8]));
}

#[test]
fn settings() {
    assert_eq!(address_setting("  10.0.0.7 ").as_deref(), Some("10.0.0.7"));
    assert_eq!(address_setting("   "), None);
    assert_eq!(hostname_setting(" studio.  ").as_deref(), Some("studio"));
    assert_eq!(hostname_setting(" .. "), None);
}
