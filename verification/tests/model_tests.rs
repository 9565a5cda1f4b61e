use onep::model::{
    field_type_for, filter_items, nonempty_fields, ItemField, ItemFieldType, ListItem,
};

fn field(name: &str, value: &str) -> ItemField {
    ItemField {
        name: name.to_string(),
        field_type: ItemFieldType::Unknown,
        value: value.to_string(),
    }
}

fn listing(uuid: &str, title: &str, tags: Vec<&str>) -> ListItem {
    ListItem {
        uuid: uuid.to_string(),
        vault_uuid: "vault-1".to_string(),
        title: title.to_string(),
        account_info: "bob@example.com".to_string(),
        urls: vec!["https://Example.com/login".to_string()],
        tags: tags.into_iter().map(|t| t.to_string()).collect(),
    }
}

#[test]
fn totp_marked_keys_are_classified() {
    assert_eq!(field_type_for("TOTP_SEED"), ItemFieldType::Totp);
    assert_eq!(field_type_for("TOTP_"), ItemFieldType::Totp);
    assert_eq!(field_type_for("TOTP"), ItemFieldType::Unknown);
    assert_eq!(field_type_for("totp_seed"), ItemFieldType::Unknown);
    assert_eq!(field_type_for("password"), ItemFieldType::Unknown);
}

#[test]
fn empty_valued_fields_are_dropped() {
    let fields = vec![
        field("username", "bob"),
        field("empty", ""),
        field("password", "hunter2"),
        field("also-empty", ""),
    ];
    let kept = nonempty_fields(fields);
    assert_eq!(kept.len(), 2);
    assert_eq!(kept[0].name, "username");
    assert_eq!(kept[1].name, "password");
}

#[test]
fn matching_by_exact_uuid() {
    let e = listing("abc-123", "GitHub", vec![]);
    assert!(e.matches("abc-123"));
    assert!(!e.matches("abc-12"));
}

#[test]
fn matching_is_case_insensitive_on_display_strings() {
    let e = listing("abc-123", "GitHub", vec!["Work"]);
    assert!(e.matches("github"));
    assert!(e.matches("HUB"));
    assert!(e.matches("work"));
    assert!(e.matches("example.com"));
    assert!(e.matches("BOB@"));
    assert!(!e.matches("gitlab"));
}

#[test]
fn filtering_without_terms_keeps_everything() {
    let items = vec![listing("a", "GitHub", vec![]), listing("b", "Mail", vec![])];
    let kept = filter_items(items, None);
    assert_eq!(kept.len(), 2);
}

#[test]
fn filtering_with_terms_keeps_matches_in_order() {
    let items = vec![
        listing("a", "GitHub", vec![]),
        listing("b", "Mail", vec![]),
        listing("c", "GitLab", vec![]),
    ];
    let kept = filter_items(items, Some("git"));
    assert_eq!(kept.len(), 2);
    assert_eq!(kept[0].uuid, "a");
    assert_eq!(kept[1].uuid, "c");
}
