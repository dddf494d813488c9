use easyshare::models::MessageKind;

#[test]
fn kind_names_round_trip() {
    for k in [MessageKind::Text, MessageKind::Image, MessageKind::File] {
        assert_eq!(MessageKind::from_str(k.as_str()), Some(k));
    }
    assert_eq!(MessageKind::Text.as_str(), "text");
    assert_eq!(MessageKind::Image.as_str(), "image");
    assert_eq!(MessageKind::File.as_str(), "file");
    assert_eq!(MessageKind::from_str("video"), None);
    assert_eq!(MessageKind::from_str("Text"), None);
    assert_eq!(MessageKind::from_str(""), None);
}
