use missive::database::{Database, DatabaseError};
use missive::models::{Email, EmailAddress};

fn addr(name: &str, email: &str) -> EmailAddress {
    EmailAddress { name: String::from(name), email: String::from(email) }
}

fn sample_email(id: &str, subject: &str, folder: &str) -> Email {
    let mut e = Email::new(
        addr("Test", "test@example.com"),
        vec![addr("Recipient", "recipient@example.com")],
        String::from(subject),
        String::from("Test Body"),
        String::from(folder),
    );
    e.id = String::from(id);
    e
}

#[test]
fn test_database_operations() {
    let mut db = Database::new();

    let email = Email::new(
        EmailAddress { name: "Test".to_string(), email: "test@example.com".to_string() },
        vec![EmailAddress {
            name: "Recipient".to_string(),
            email: "recipient@example.com".to_string(),
        }],
        "Test Subject".to_string(),
        "Test Body".to_string(),
        "inbox".to_string(),
    );

    let created = db.create_email(&email).unwrap();
    assert_eq!(created.subject, "Test Subject");

    let fetched = db.get_email(&email.id);
    assert!(fetched.is_some());

    let mut updated_email = email.clone();
    updated_email.read = true;
    let updated = db.update_email(&updated_email).unwrap();
    assert!(updated.read);

    db.delete_email(&email.id).unwrap();
    let deleted = db.get_email(&email.id);
    assert!(deleted.is_none());
}

#[test]
fn duplicate_external_id_is_rejected() {
    let mut db = Database::new();
    let first = sample_email("m:1", "One", "inbox");
    let mut second = sample_email("m:1", "Two", "inbox");
    second.body = String::from("other body");

    db.create_email(&first).unwrap();
    let err = db.create_email(&second).unwrap_err();
    assert!(matches!(err, DatabaseError::Duplicate(_)));

    // The first record was not overwritten.
    let stored = db.get_email("m:1").unwrap();
    assert_eq!(stored.subject, "One");
    assert_eq!(db.get_all_emails().len(), 1);
}

#[test]
fn update_absent_email_is_not_found() {
    let mut db = Database::new();
    let email = sample_email("missing:1", "Ghost", "inbox");
    let err = db.update_email(&email).unwrap_err();
    assert!(matches!(err, DatabaseError::NotFound(_)));
}

#[test]
fn field_updates_touch_one_field() {
    let mut db = Database::new();
    db.create_email(&sample_email("m:1", "A", "inbox")).unwrap();

    db.mark_as_read("m:1", true).unwrap();
    let e = db.get_email("m:1").unwrap();
    assert!(e.read);
    assert_eq!(e.subject, "A");

    db.toggle_star("m:1", true).unwrap();
    assert!(db.get_email("m:1").unwrap().starred);

    db.move_to_folder("m:1", "archive").unwrap();
    let moved = db.get_email("m:1").unwrap();
    assert_eq!(moved.folder, "archive");
    assert!(moved.read && moved.starred);

    // Absent identifiers are a quiet no-op.
    db.mark_as_read("nope", true).unwrap();
    db.move_to_folder("nope", "x").unwrap();
    assert_eq!(db.get_all_emails().len(), 1);
}

#[test]
fn folder_listing_is_most_recent_first() {
    let mut db = Database::new();
    let mut a = sample_email("m:1", "oldest", "inbox");
    a.date = String::from("2024-01-01T00:00:00+00:00");
    let mut b = sample_email("m:2", "newest", "inbox");
    b.date = String::from("2024-01-03T00:00:00+00:00");
    let mut c = sample_email("m:3", "middle", "inbox");
    c.date = String::from("2024-01-02T00:00:00+00:00");
    let mut other = sample_email("m:4", "elsewhere", "archive");
    other.date = String::from("2024-01-04T00:00:00+00:00");
    for e in [&a, &b, &c, &other] {
        db.create_email(e).unwrap();
    }

    let listed = db.get_emails_by_folder("inbox");
    let subjects: Vec<&str> = listed.iter().map(|e| e.subject.as_str()).collect();
    assert_eq!(subjects, vec!["newest", "middle", "oldest"]);

    assert!(db.get_emails_by_folder("empty-folder").is_empty());
}

#[test]
fn search_is_case_insensitive_substring() {
    let mut db = Database::new();
    db.create_email(&sample_email("m:1", "Invoice #42", "inbox")).unwrap();
    db.create_email(&sample_email("m:2", "Lunch plans", "inbox")).unwrap();

    let hits = db.search_emails("invoice");
    assert_eq!(hits.len(), 1);
    assert_eq!(hits[0].subject, "Invoice #42");

    // Sender fields are searched too.
    let by_sender = db.search_emails("TEST@EXAMPLE");
    assert_eq!(by_sender.len(), 2);

    assert!(db.search_emails("no such words").is_empty());
}

#[test]
fn account_cascade_delete_spares_other_accounts() {
    let mut db = Database::new();
    let a1 = missive::models::EmailAccount::new(
        String::from("one@example.com"),
        String::from("One"),
        String::from("imap.example.com"),
        993,
        String::from("smtp.example.com"),
        587,
        String::from("user1"),
        String::from("SECRET-REDACTED"),
        true,
        false,
        false,
    );
    let a2 = missive::models::EmailAccount::new(
        String::from("two@example.com"),
        String::from("Two"),
        String::from("imap.example.com"),
        993,
        String::from("smtp.example.com"),
        587,
        String::from("user2"),
        String::from("SECRET-REDACTED"),
        true,
        false,
        false,
    );
    db.create_account(&a1).unwrap();
    db.create_account(&a2).unwrap();

    let mut m1 = sample_email("a1:1", "first", "inbox");
    m1.account_id = Some(a1.id.clone());
    let mut m2 = sample_email("a1:2", "second", "inbox");
    m2.account_id = Some(a1.id.clone());
    let mut m3 = sample_email("a2:1", "third", "inbox");
    m3.account_id = Some(a2.id.clone());
    for e in [&m1, &m2, &m3] {
        db.create_email(e).unwrap();
    }

    db.delete_account(&a1.id).unwrap();

    assert!(db.get_account(&a1.id).is_none());
    assert!(db.get_account(&a2.id).is_some());
    let left = db.get_all_emails();
    assert_eq!(left.len(), 1);
    assert_eq!(left[0].id, "a2:1");
}

#[test]
fn duplicate_account_registration_is_rejected() {
    let mut db = Database::new();
    let a1 = missive::models::EmailAccount::new(
        String::from("one@example.com"),
        String::from("One"),
        String::from("imap.example.com"),
        993,
        String::from("smtp.example.com"),
        587,
        String::from("user1"),
        String::from("SECRET-REDACTED"),
        true,
        false,
        false,
    );
    db.create_account(&a1).unwrap();

    let mut same_email = a1.clone();
    same_email.id = String::from("other-id");
    let err = db.create_account(&same_email).unwrap_err();
    assert!(matches!(err, DatabaseError::Duplicate(_)));
    assert_eq!(db.get_all_accounts().len(), 1);
}

#[test]
fn folder_counts_track_read_state() {
    let mut db = Database::new();
    let mut a = sample_email("m:1", "a", "inbox");
    a.read = false;
    let mut b = sample_email("m:2", "b", "inbox");
    b.read = true;
    db.create_email(&a).unwrap();
    db.create_email(&b).unwrap();

    assert_eq!(db.get_folder_count("inbox"), 2);
    assert_eq!(db.get_unread_count("inbox"), 1);
    assert_eq!(db.get_folder_count("trash"), 0);
    assert_eq!(db.get_unread_count("trash"), 0);
}

#[test]
fn error_messages_render_kind_and_payload() {
    let nf = DatabaseError::NotFound(String::from("m:9"));
    assert_eq!(nf.message(), "Not found: m:9");
    let dup = DatabaseError::Duplicate(String::from("m:1"));
    assert_eq!(dup.message(), "Database error: duplicate record m:1");
}
