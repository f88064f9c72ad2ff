use missive::commands::{
    fetch_emails, mark_as_read, move_to_trash, record_sent_email, save_account, sync_emails,
    test_connection, test_imap_connection, test_smtp_connection,
};
use missive::database::Database;
use missive::email::{EmailClient, EmailError};
use missive::models::{Email, EmailAccount, EmailAddress, NewEmail};

fn addr(name: &str, email: &str) -> EmailAddress {
    EmailAddress { name: String::from(name), email: String::from(email) }
}

fn account() -> EmailAccount {
    EmailAccount::new(
        String::from("me@example.com"),
        String::from("Me"),
        String::from("imap.example.com"),
        993,
        String::from("smtp.example.com"),
        587,
        String::from("me"),
        String::from("SECRET-REDACTED"),
        true,
        false,
        false,
    )
}

fn fetched_batch(account_id: &str) -> Vec<Email> {
    let mut batch = Vec::new();
    for (n, subject) in [(1, "first"), (2, "second"), (3, "third")] {
        let mut e = Email::new(
            addr("Sender", "sender@example.com"),
            vec![addr("Me", "me@example.com")],
            String::from(subject),
            String::from("body"),
            String::from("inbox"),
        );
        e.id = format!("{}:{}", account_id, n);
        e.account_id = Some(String::from(account_id));
        batch.push(e);
    }
    batch
}

#[test]
fn sync_twice_does_not_duplicate() {
    let mut db = Database::new();
    let acct = save_account(&mut db, account()).unwrap();

    sync_emails(&mut db, &acct.id, fetched_batch(&acct.id)).unwrap();
    let count_after_first = db.get_folder_count("inbox");

    sync_emails(&mut db, &acct.id, fetched_batch(&acct.id)).unwrap();
    let count_after_second = db.get_folder_count("inbox");

    assert_eq!(count_after_first, 3);
    assert_eq!(count_after_second, count_after_first);
}

#[test]
fn sync_of_unknown_account_fails_cleanly() {
    let mut db = Database::new();
    let err = sync_emails(&mut db, "nope", Vec::new()).unwrap_err();
    assert_eq!(err, "Account not found");
    assert!(db.get_all_emails().is_empty());
}

#[test]
fn end_to_end_sync_read_and_move() {
    let mut db = Database::new();
    let acct = save_account(&mut db, account()).unwrap();
    assert_eq!(acct.user_id.as_deref(), Some("user:me_example_com"));

    let stored = sync_emails(&mut db, &acct.id, fetched_batch(&acct.id)).unwrap();
    assert_eq!(stored.len(), 3);

    let inbox = fetch_emails(&db, "inbox").unwrap();
    assert_eq!(inbox.len(), 3);
    for e in &inbox {
        assert_eq!(e.from_user_id.as_deref(), Some("user:sender_example_com"));
    }

    let unread_before = db.get_unread_count("inbox");
    mark_as_read(&mut db, &inbox[0].id).unwrap();
    assert_eq!(db.get_unread_count("inbox"), unread_before - 1);

    move_to_trash(&mut db, &inbox[1].id).unwrap();
    assert_eq!(db.get_folder_count("inbox"), 2);
    assert_eq!(db.get_folder_count("trash"), 1);
}

#[test]
fn save_account_upserts_by_address() {
    let mut db = Database::new();
    let first = save_account(&mut db, account()).unwrap();

    // A new profile for the same address must replace, not duplicate.
    let second = save_account(&mut db, account()).unwrap();
    assert_eq!(second.id, first.id);
    assert_eq!(db.get_all_accounts().len(), 1);

    // Saving under a known identifier replaces in place.
    let mut renamed = second.clone();
    renamed.name = String::from("New Name");
    let third = save_account(&mut db, renamed).unwrap();
    assert_eq!(third.id, first.id);
    assert_eq!(db.get_account(&first.id).unwrap().name, "New Name");
}

#[test]
fn recording_sent_mail_files_it_read_in_sent() {
    let mut db = Database::new();
    let acct = save_account(&mut db, account()).unwrap();
    let outbound = NewEmail {
        from: addr("Me", "me@example.com"),
        to: vec![addr("Friend", "friend@example.com")],
        cc: None,
        bcc: None,
        subject: String::from("Hi"),
        body: String::from("hello"),
        attachments: None,
    };
    let sent = record_sent_email(&mut db, &acct, outbound).unwrap();
    assert_eq!(sent.folder, "sent");
    assert!(sent.read);
    assert_eq!(sent.account_id.as_deref(), Some(acct.id.as_str()));
    assert_eq!(sent.from_user_id.as_deref(), Some("user:me_example_com"));
    assert_eq!(
        sent.to_user_ids,
        Some(vec![String::from("user:friend_example_com")]),
    );
    assert_eq!(db.get_folder_count("sent"), 1);
}

#[test]
fn connection_diagnostics_convert_failures_to_messages() {
    let ok = test_connection(Ok(()));
    assert!(ok.success);
    assert_eq!(ok.message, "Connexion réussie !");

    let bad = test_connection(Err(EmailError::ConnectionError(String::from("boom"))));
    assert!(!bad.success);
    assert_eq!(bad.message, "Échec de la connexion: Connection error: boom");

    let imap = test_imap_connection(Err(EmailError::AuthError(String::from("denied"))));
    assert!(!imap.success);
    assert_eq!(imap.message, "Échec IMAP: Authentication error: denied");

    let smtp = test_smtp_connection(Ok(()));
    assert!(smtp.success);
    assert_eq!(smtp.message, "Connexion SMTP réussie !");
}

#[test]
fn client_keeps_its_account_and_stubs_succeed() {
    let acct = account();
    let client = EmailClient::new(acct.clone());
    assert_eq!(client.account().email, acct.email);
    assert!(client.set_read_flag("1", true).is_ok());
    assert!(client.delete_email("1").is_ok());

    let msg = EmailError::ImapError(String::from("x")).message();
    assert_eq!(msg, "IMAP error: x");
}
