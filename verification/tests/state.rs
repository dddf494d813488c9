use easyshare::db::new_message;
use easyshare::models::MessageKind;
use easyshare::state::{message_dto, IdentityCache, IpKey, IDENTITY_CACHE_TTL_MS};

#[test]
fn cache_keeps_names_for_ten_minutes() {
    let mut c = IdentityCache::new();
    let k = IpKey::V4(0xC0A80102);
    assert_eq!(c.lookup(k, 5), None);
    c.store(k, "laptop", 1000);
    assert_eq!(c.lookup(k, 1000).as_deref(), Some("laptop"));
    assert_eq!(c.lookup(k, 1000 + IDENTITY_CACHE_TTL_MS - 1).as_deref(), Some("laptop"));
    assert_eq!(c.lookup(k, 1000 + IDENTITY_CACHE_TTL_MS), None);
    assert_eq!(c.lookup(k, 10).as_deref(), Some("laptop"));
    // Other keys are unaffected; v4 and v6 keys are distinct.
    assert_eq!(c.lookup(IpKey::V6(0xC0A80102), 1000), None);
    c.store(IpKey::V6(1), "v6host", 2000);
    assert_eq!(c.lookup(k, 2000).as_deref(), Some("laptop"));
    c.store(k, "renamed", 3000);
    assert_eq!(c.lookup(k, 3000).as_deref(), Some("renamed"));
}

#[test]
fn dto_of_file_message() {
    let m = new_message(5, "alice", "10.0.0.2", MessageKind::File, None, Some("abc_x.bin"), Some("x.bin"), 7);
    let d = message_dto(&m, Some(12));
    assert_eq!(d.id, 5);
    assert_eq!(d.sender, "alice (10.0.0.2)");
    assert_eq!(d.file_url.as_deref(), Some("/files/abc_x.bin"));
    assert_eq!(d.orig_name.as_deref(), Some("x.bin"));
    assert_eq!(d.size, Some(12));
    assert_eq!(d.avatar_url, easyshare::avatar::avatar_url("alice", "10.0.0.2"));
    assert!(d.avatar_url.starts_with("/files/icons/"));
    assert_eq!(d.kind, MessageKind::File);
    assert!(!d.recalled);
}

#[test]
fn dto_of_text_message() {
    let m = new_message(6, "bob", "10.0.0.3", MessageKind::Text, Some("hi"), None, None, 8);
    let d = message_dto(&m, None);
    assert_eq!(d.content.as_deref(), Some("hi"));
    assert_eq!(d.file_url, None);
    assert_eq!(d.size, None);
    assert_eq!(d.created_at, 8);
}
