use easyshare::avatar::{avatar_file_name, avatar_svg, avatar_url, first_letter, fnv1a, hue, identity_hash, svg};

#[test]
fn deterministic_hash_and_color() {
    let h1 = identity_hash("macbook", "192.168.1.2");
    let h2 = identity_hash("macbook", "192.168.1.2");
    assert_eq!(h1, h2);
    assert_eq!(hue("macbook", "192.168.1.2"), hue("macbook", "192.168.1.2"));
    assert_eq!(
        avatar_file_name("macbook", "192.168.1.2"),
        avatar_file_name("macbook", "192.168.1.2")
    );
}

#[test]
fn different_identities_get_different_hashes() {
    let mut hues = std::collections::HashSet::new();
    let mut hash_differs = false;
    let base = identity_hash("host0", "192.168.1.0");
    for i in 1..50 {
        let h = identity_hash(&format!("host{i}"), &format!("192.168.1.{i}"));
        if h != base {
            hash_differs = true;
        }
        hues.insert((h % 360) as u32);
    }
    assert!(hash_differs);
    // Expect reasonable hue spread across 49 distinct identities.
    assert!(hues.len() > 30, "hues too clustered: {}", hues.len());
}

#[test]
fn first_letter_extraction() {
    assert_eq!(first_letter("macbook", "1.2.3.4"), 'M');
    assert_eq!(first_letter("Desktop-PC", "1.2.3.4"), 'D');
    assert_eq!(first_letter("", "192.168.1.1"), '1');
    assert_eq!(first_letter("", ""), '?');
}

#[test]
fn svg_contains_legible_midtone_color() {
    let s = svg('A', 200);
    assert!(s.contains("hsl(200,55%,45%)"));
    assert!(s.contains("fill=\"#ffffff\""));
    assert!(s.contains(">A</text>"));
}

/// Reference FNV-1a over the bytes of "hostname+ip", written independently.
fn reference_hash(hostname: &str, ip: &str) -> u64 {
    let mut hash: u64 = 0xcbf29ce484222325;
    for b in format!("{hostname}+{ip}").as_bytes() {
        hash ^= *b as u64;
        hash = hash.wrapping_mul(0x100000001b3);
    }
    hash
}

#[test]
fn fnv1a_known_values() {
    // Published FNV-1a 64-bit test vectors.
    assert_eq!(fnv1a(""), 0xcbf29ce484222325);
    assert_eq!(fnv1a("a"), 0xaf63dc4c8601ec8c);
    assert_eq!(fnv1a("foobar"), 0x85944171f73967e8);
}

#[test]
fn identity_hash_is_fnv_of_joined_identity() {
    for (h, ip) in [("macbook", "192.168.1.2"), ("", ""), ("主机", "fe80::1"), ("a+b", "c")] {
        assert_eq!(identity_hash(h, ip), reference_hash(h, ip));
        assert_eq!(identity_hash(h, ip), fnv1a(&format!("{h}+{ip}")));
    }
}

#[test]
fn hue_is_hash_mod_360() {
    let h = identity_hash("macbook", "192.168.1.2");
    assert_eq!(hue("macbook", "192.168.1.2"), (h % 360) as u32);
    assert!(hue("x", "y") < 360);
}

#[test]
fn first_letter_uppercases_only_ascii() {
    assert_eq!(first_letter("émile", "1.1.1.1"), 'é');
    assert_eq!(first_letter("zed", ""), 'Z');
    assert_eq!(first_letter("", "fe80::1"), 'F');
}

#[test]
fn avatar_file_name_is_sixteen_hex_digits() {
    let h = identity_hash("macbook", "192.168.1.2");
    let name = avatar_file_name("macbook", "192.168.1.2");
    assert_eq!(name, format!("{:016x}.svg", h));
    assert_eq!(name.len(), 20);
    assert_eq!(avatar_url("macbook", "192.168.1.2"), format!("/files/icons/{name}"));
}

#[test]
fn svg_exact_text() {
    let s = svg('T', 7);
    assert_eq!(
        s,
        "<svg xmlns=\"http://www.w3.org/2000/svg\" width=\"96\" height=\"96\"><circle cx=\"48\" cy=\"48\" r=\"48\" fill=\"hsl(7,55%,45%)\"/><text x=\"48\" y=\"64\" font-size=\"48\" font-family=\"sans-serif\" fill=\"#ffffff\" text-anchor=\"middle\">T</text></svg>"
    );
}

#[test]
fn avatar_svg_uses_letter_and_hue() {
    let s = avatar_svg("testhost", "10.0.0.1");
    assert!(s.contains("<svg"));
    assert!(s.contains(">T</text>"));
    assert!(s.contains(&format!("hsl({},55%,45%)", hue("testhost", "10.0.0.1"))));
}
