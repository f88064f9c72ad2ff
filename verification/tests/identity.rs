use missive::database::Database;

#[test]
fn resolve_is_deterministic_across_spellings() {
    let mut db = Database::new();
    let first = db.get_or_create_user("a@example.com", Some("A")).unwrap().unwrap();
    let second = db.get_or_create_user(" A@Example.com ", Some("A2")).unwrap().unwrap();
    assert_eq!(first, second);
    assert_eq!(first, "user:a_example_com");

    // Last write wins for the display name.
    let stored = db.get_user(&first).unwrap();
    assert_eq!(stored.name.as_deref(), Some("A2"));
    assert_eq!(stored.email, " A@Example.com ");
}

#[test]
fn user_key_normalizes_address_text() {
    assert_eq!(
        Database::user_key("John.Doe+tag@Example.COM").as_deref(),
        Some("john_doe_tag_example_com"),
    );
    assert_eq!(Database::user_key("  bob@x.y  ").as_deref(), Some("bob_x_y"));
    assert_eq!(Database::user_key(""), None);
    assert_eq!(Database::user_key("   \t  "), None);
}

#[test]
fn empty_address_resolves_to_no_identity() {
    let mut db = Database::new();
    let r = db.get_or_create_user("   ", Some("Nobody")).unwrap();
    assert!(r.is_none());
    // Nothing was stored for it.
    assert!(db.get_user("user:").is_none());
}

#[test]
fn repeated_resolution_keeps_one_record() {
    let mut db = Database::new();
    let r1 = db.get_or_create_user("carol@example.com", Some("Carol")).unwrap().unwrap();
    let r2 = db.get_or_create_user("CAROL@example.com", None).unwrap().unwrap();
    assert_eq!(r1, r2);
    let stored = db.get_user(&r1).unwrap();
    // The most recent call carried no name, and that is what is stored.
    assert_eq!(stored.name, None);
}
