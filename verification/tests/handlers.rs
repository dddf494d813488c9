use easyshare::db::RecallDecision;
use easyshare::handlers::{
    content_length_too_large, is_file_field, me_response, no_file_field_reply, original_name,
    page_limit, parse_u64, partial_file_name, plan_upload, post_content, recall_reply,
    render_index, replace_all, sanitize_file_name, stored_file_name, stored_upload_reply,
    too_large_reply, upload_kind,
};
use easyshare::models::MessageKind;

#[test]
fn page_limits() {
    assert_eq!(page_limit(None), 10);
    assert_eq!(page_limit(Some(0)), 1);
    assert_eq!(page_limit(Some(-4)), 1);
    assert_eq!(page_limit(Some(51)), 50);
    assert_eq!(page_limit(Some(25)), 25);
}

#[test]
fn empty_text_rejected() {
    assert_eq!(post_content("   "), None);
    assert_eq!(post_content(""), None);
    assert_eq!(post_content("\u{3000}\t\n"), None);
    assert_eq!(post_content("  hi there \n").as_deref(), Some("hi there"));
}

#[test]
fn parses_lengths_like_std() {
    for s in ["0", "42", "+7", "0018446744073709551615", "18446744073709551615", "18446744073709551616", "", "+", "-1", " 1", "1 ", "12a"] {
        assert_eq!(parse_u64(s), s.parse::<u64>().ok(), "input {s:?}");
    }
}

#[test]
fn upload_rejected_early_by_content_length() {
    assert!(content_length_too_large(Some(&(2u64 * 1024 * 1024 * 1024).to_string())));
    assert!(!content_length_too_large(Some("1073741824")));
    assert!(content_length_too_large(Some("1073741825")));
    assert!(!content_length_too_large(Some("abc")));
    assert!(!content_length_too_large(None));
    let r = too_large_reply();
    assert_eq!((r.status, r.body), (413, "file exceeds the 1GB upload limit"));
}

#[test]
fn upload_naming() {
    assert!(is_file_field(Some("file")));
    assert!(!is_file_field(Some("files")));
    assert!(!is_file_field(None));
    assert_eq!(upload_kind(Some("image/png")), MessageKind::Image);
    assert_eq!(upload_kind(Some("application/octet-stream")), MessageKind::File);
    assert_eq!(upload_kind(Some("image")), MessageKind::File);
    assert_eq!(upload_kind(None), MessageKind::File);
    assert_eq!(original_name(None), "unnamed");
    assert_eq!(original_name(Some("pic.png")), "pic.png");
    assert_eq!(sanitize_file_name("../a\\b\0c.txt"), ".._a_b_c.txt");
    assert_eq!(stored_file_name("ID", "x/y.png"), "ID_x_y.png");
    assert_eq!(partial_file_name("ID_x.png"), ".ID_x.png.part");
}

#[test]
fn upload_plans() {
    let p = plan_upload(Some("../pic.png"), Some("image/png"));
    assert_eq!(p.orig_name, "../pic.png");
    assert_eq!(p.kind, MessageKind::Image);
    assert_eq!(p.stored_name.len(), 36 + 1 + "../pic.png".len());
    assert!(p.stored_name.ends_with("_.._pic.png"));
    let id = &p.stored_name[..36];
    assert_eq!(id.as_bytes()[14], b'4');
    assert!(id.chars().enumerate().all(|(i, c)| if [8, 13, 18, 23].contains(&i) { c == '-' } else { c.is_ascii_hexdigit() && !c.is_ascii_uppercase() }));
    assert_eq!(p.partial_name, format!(".{}.part", p.stored_name));
    let q = plan_upload(None, None);
    assert_eq!(q.orig_name, "unnamed");
    assert_eq!(q.kind, MessageKind::File);
    assert_ne!(p.stored_name[..36], q.stored_name[..36]);
}

#[test]
fn upload_replies() {
    let r = stored_upload_reply(0);
    assert_eq!((r.status, r.body), (400, "empty file"));
    let r = stored_upload_reply(9);
    assert_eq!(r.status, 201);
    let r = no_file_field_reply();
    assert_eq!((r.status, r.body), (400, "no file field"));
}

#[test]
fn recall_replies() {
    assert_eq!(recall_reply(RecallDecision::Allowed).status, 200);
    let r = recall_reply(RecallDecision::Denied);
    assert_eq!((r.status, r.body), (403, "not the message owner"));
    let r = recall_reply(RecallDecision::NotFound);
    assert_eq!((r.status, r.body), (404, "message not found"));
}

#[test]
fn me_identity() {
    let me = me_response("studio", "10.1.2.3");
    assert_eq!(me.hostname, "studio");
    assert_eq!(me.ip, "10.1.2.3");
    assert_eq!(me.display, "studio (10.1.2.3)");
    assert!(me.display.ends_with(" (10.1.2.3)"));
    assert!(me.avatar_url.starts_with("/files/icons/"));
}

#[test]
fn replace_matches_std() {
    for (s, from, to) in [("aaa", "aa", "b"), ("abcabc", "bc", "XY"), ("", "x", "y"), ("__LANG____LANG__", "__LANG__", "en"), ("x", "xyz", "q")] {
        assert_eq!(replace_all(s, from, to), s.replace(from, to));
    }
}

#[test]
fn index_placeholders_filled() {
    let t = "<title>EasyShare - __SERVER_IP__</title><script>window.LANG = \"__LANG__\"; window.I18N = __I18N_ALL_JSON__;</script>";
    let html = render_index(t, "10.1.2.3", "en", "{\"en\":{\"send\":\"Send\"}}");
    assert!(html.contains("<title>EasyShare - 10.1.2.3</title>"));
    assert!(html.contains("window.LANG = \"en\""));
    assert!(html.contains("\"send\":\"Send\""));
    assert!(!html.contains("__SERVER_IP__"));
    assert!(!html.contains("__LANG__"));
    assert!(!html.contains("__I18N_ALL_JSON__"));
}

#[test]
fn trimming_matches_std() {
    let samples = [
        "  a b  ",
        "\u{3000}x\u{2028}",
        "\u{200b}x\u{200b}",
        "\u{85}\u{a0}\u{1680}y\u{2000}\u{200a}\u{202f}\u{205f}",
        "\t\r\n\u{b}\u{c}z",
        "\u{180e}",
    ];
    for s in samples {
        let expected = s.trim();
        let got = post_content(s);
        if expected.is_empty() {
            assert_eq!(got, None, "input {s:?}");
        } else {
            assert_eq!(got.as_deref(), Some(expected), "input {s:?}");
        }
    }
}
