use mnemo_core::models::classification::Classification;

#[test]
fn classification_classification_ordering() {
    assert!(Classification::Public < Classification::Internal);
    assert!(Classification::Internal < Classification::Confidential);
    assert!(Classification::Confidential < Classification::Restricted);
}

#[test]
fn classification_default_is_internal() {
    assert_eq!(Classification::default(), Classification::Internal);
}

#[test]
fn classification_display() {
    assert_eq!(Classification::Public.to_string(), "public");
    assert_eq!(Classification::Restricted.to_string(), "restricted");
}

#[test]
fn classification_as_str() {
    assert_eq!(Classification::Internal.as_str(), "internal");
    assert_eq!(Classification::Confidential.as_str(), "confidential");
}

#[test]
fn classification_from_str_flexible_trims_and_lowercases() {
    assert_eq!(Classification::from_str_flexible("  CONFIDENTIAL "), Classification::Confidential);
    assert_eq!(Classification::from_str_flexible("public"), Classification::Public);
    assert_eq!(Classification::from_str_flexible("unknown"), Classification::Internal);
    assert!(Classification::Restricted.is_above(&Classification::Confidential));
    assert!(!Classification::Public.is_above(&Classification::Public));
}

#[test]
fn labels_parse_back_to_their_classification() {
    for c in [Classification::Public, Classification::Internal, Classification::Confidential, Classification::Restricted] {
        assert_eq!(Classification::from_str_flexible(c.as_str()), c);
        assert_eq!(Classification::from_str_flexible(&format!("  {}  ", c.as_str().to_uppercase())), c);
    }
}
