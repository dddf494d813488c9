use easyshare::i18n::{code, lang_of_best, lang_of_tag, language_ranges, strings, Lang};

fn ranges(header: &str) -> Vec<(String, Option<String>)> {
    language_ranges(header).into_iter().map(|r| (r.tag, r.q)).collect()
}

fn r(tag: &str, q: Option<&str>) -> (String, Option<String>) {
    (tag.to_string(), q.map(|s| s.to_string()))
}

#[test]
fn ranges_of_chinese_headers() {
    assert_eq!(
        ranges("zh-CN,zh;q=0.9,en;q=0.8"),
        vec![r("zh-CN", None), r("zh", Some("0.9")), r("en", Some("0.8"))]
    );
    assert_eq!(ranges("zh"), vec![r("zh", None)]);
    assert_eq!(ranges("zh-TW"), vec![r("zh-TW", None)]);
    assert_eq!(lang_of_tag("zh-CN"), Lang::Zh);
    assert_eq!(lang_of_tag("zh"), Lang::Zh);
    assert_eq!(lang_of_tag("zh-TW"), Lang::Zh);
}

#[test]
fn ranges_of_other_headers() {
    assert_eq!(ranges("en-US,en;q=0.9"), vec![r("en-US", None), r("en", Some("0.9"))]);
    assert_eq!(ranges("fr-FR"), vec![r("fr-FR", None)]);
    assert_eq!(ranges(""), vec![]);
    assert_eq!(ranges("*"), vec![r("*", None)]);
    assert_eq!(lang_of_tag("en-US"), Lang::En);
    assert_eq!(lang_of_tag("fr-FR"), Lang::En);
    assert_eq!(lang_of_tag("*"), Lang::En);
    assert_eq!(lang_of_best(None), Lang::En);
}

#[test]
fn ranges_keep_q_values_in_order() {
    assert_eq!(ranges("zh;q=0.3,en;q=0.9"), vec![r("zh", Some("0.3")), r("en", Some("0.9"))]);
    assert_eq!(
        ranges("en;q=0.5,zh-CN;q=0.9"),
        vec![r("en", Some("0.5")), r("zh-CN", Some("0.9"))]
    );
}

#[test]
fn ranges_edge_cases() {
    // Blank elements and empty tags are skipped; whitespace is trimmed.
    assert_eq!(ranges(" , ;q=1, de ; q = 0.2 ;x=1"), vec![r("de", None)]);
    assert_eq!(ranges(" da ; q= 0.7 ; level=1 ;q=0.1 "), vec![r("da", Some("0.1"))]);
    assert_eq!(ranges("ja;level=1"), vec![r("ja", None)]);
    assert_eq!(ranges("ko;q="), vec![r("ko", Some(""))]);
    assert_eq!(ranges(",,,"), vec![]);
}

#[test]
fn chinese_tag_ignores_case() {
    assert_eq!(lang_of_tag("ZH-hant"), Lang::Zh);
    assert_eq!(lang_of_tag("Zh"), Lang::Zh);
    assert_eq!(lang_of_tag("z"), Lang::En);
    assert_eq!(lang_of_tag("xzh"), Lang::En);
    assert_eq!(lang_of_best(Some("zH")), Lang::Zh);
}

#[test]
fn string_tables() {
    assert_eq!(strings(Lang::Zh).send, "发送");
    assert_eq!(strings(Lang::En).send, "Send");
    assert_eq!(strings(Lang::Zh).recall, "撤回");
    assert_eq!(strings(Lang::En).file_too_large, "File exceeds the size limit (max 1 GB)");
    assert_eq!(code(Lang::Zh), "zh");
    assert_eq!(code(Lang::En), "en");
}

/// The header reading written the way the server's detection walks it.
fn reference_ranges(header: &str) -> Vec<(String, Option<String>)> {
    let mut out = Vec::new();
    for part in header.split(',') {
        let part = part.trim();
        if part.is_empty() {
            continue;
        }
        let mut tag = part;
        let mut q: Option<String> = None;
        if let Some((t, params)) = part.split_once(';') {
            tag = t.trim();
            for p in params.split(';') {
                let p = p.trim();
                if let Some(v) = p.strip_prefix("q=") {
                    q = Some(v.trim().to_string());
                }
            }
        }
        if tag.is_empty() {
            continue;
        }
        out.push((tag.to_string(), q));
    }
    out
}

#[test]
fn ranges_match_reference_reading() {
    let headers = [
        "zh-CN,zh;q=0.9,en;q=0.8",
        "en-US,en;q=0.9",
        "",
        " ",
        "*",
        ";;,;q=0.5",
        "de;q=0.5;q=0.7, fr ;Q=0.1 , it;q =0.3",
        "ja-JP\u{3000};\u{a0}q=1",
        "a,b,,c;;q=;",
        "zh-Hant-TW;q=0.8,zh;q=0.9,en-GB;q=1.0",
    ];
    for h in headers {
        assert_eq!(ranges(h), reference_ranges(h), "header {h:?}");
    }
}
