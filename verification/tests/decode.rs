use missive::email::{
    decode_message, find_body, header_value, select_recent_uids, EmailClient, Header, MimePart,
    RawMessage,
};
use missive::models::EmailAccount;

#[test]
fn fetch_bound_takes_highest_fifty_sorted_ascending() {
    // 120 identifiers, deliberately scrambled.
    let uids: Vec<u32> = (0u32..120).map(|i| (i * 37) % 120 + 1).collect();
    let picked = select_recent_uids(uids, 50);
    let expected: Vec<u32> = (71u32..=120).collect();
    assert_eq!(picked, expected);
}

#[test]
fn fetch_bound_yields_everything_when_folder_is_smaller() {
    let picked = select_recent_uids(vec![9, 3, 7], 50);
    assert_eq!(picked, vec![3, 7, 9]);
    assert!(select_recent_uids(Vec::new(), 50).is_empty());
}

#[test]
fn fetch_bound_of_zero_still_takes_one() {
    let picked = select_recent_uids(vec![4, 9, 2], 0);
    assert_eq!(picked, vec![9]);
}

#[test]
fn decode_reads_headers_addresses_and_body() {
    let raw = b"From: Alice <alice@example.com>\r\n\
To: Bob <bob@example.com>, carol@example.com\r\n\
Subject: Invoice #42\r\n\
Date: Thu, 1 Jan 2015 00:00:00 +0000\r\n\
Message-ID: <m1@example.com>\r\n\
\r\n\
Hello body";
    let email = decode_message("acc", "inbox", 5, true, raw, "FALLBACK").unwrap();

    assert_eq!(email.id, "acc:5");
    assert_eq!(email.from.name, "Alice");
    assert_eq!(email.from.email, "alice@example.com");
    assert_eq!(email.to.len(), 2);
    assert_eq!(email.to[0].email, "bob@example.com");
    assert_eq!(email.to[1].name, "");
    assert_eq!(email.to[1].email, "carol@example.com");
    assert_eq!(email.subject, "Invoice #42");
    assert_eq!(email.body, "Hello body");
    assert_eq!(email.html_body, None);
    assert_eq!(email.date, "2015-01-01T00:00:00+00:00");
    assert!(email.read);
    assert_eq!(email.folder, "inbox");
    assert_eq!(email.account_id.as_deref(), Some("acc"));
    assert_eq!(email.message_id.as_deref(), Some("<m1@example.com>"));
    assert!(email.cc.is_none() && email.bcc.is_none());
}

#[test]
fn decode_html_only_message_leaves_plain_body_empty() {
    let raw = b"Content-Type: text/html\r\n\
Subject: Pretty\r\n\
\r\n\
<p>Hi there</p>";
    let email = decode_message("acc", "inbox", 1, false, raw, "FALLBACK").unwrap();
    assert_eq!(email.body, "");
    assert_eq!(email.html_body.as_deref(), Some("<p>Hi there</p>"));
    assert!(!email.read);
}

#[test]
fn decode_substitutes_ingestion_time_for_bad_dates() {
    // A day number followed by an unknown month name is rejected outright.
    let raw = b"Subject: S\r\nDate: 15 Foo 2015 00:00:00 +0000\r\n\r\nx";
    let email = decode_message("acc", "inbox", 2, false, raw, "2030-05-05T05:05:05+00:00").unwrap();
    assert_eq!(email.date, "2030-05-05T05:05:05+00:00");

    let raw2 = b"Subject: S\r\n\r\nx";
    let email2 =
        decode_message("acc", "inbox", 3, false, raw2, "2030-05-05T05:05:05+00:00").unwrap();
    assert_eq!(email2.date, "2030-05-05T05:05:05+00:00");
}

#[test]
fn decode_defaults_missing_subject_and_sender() {
    let raw = b"Date: Thu, 1 Jan 2015 00:00:00 +0000\r\n\r\nonly a body";
    let email = decode_message("acc", "inbox", 9, false, raw, "F").unwrap();
    assert_eq!(email.subject, "(Sans objet)");
    assert_eq!(email.from.name, "");
    assert_eq!(email.from.email, "");
    assert!(email.to.is_empty());
}

#[test]
fn find_body_walks_depth_first_pre_order() {
    let tree = MimePart {
        mime_type: String::from("multipart/alternative"),
        body: String::new(),
        parts: vec![
            MimePart {
                mime_type: String::from("multipart/related"),
                body: String::new(),
                parts: vec![MimePart {
                    mime_type: String::from("TEXT/PLAIN"),
                    body: String::from("nested plain"),
                    parts: Vec::new(),
                }],
            },
            MimePart {
                mime_type: String::from("text/plain"),
                body: String::from("later plain"),
                parts: Vec::new(),
            },
            MimePart {
                mime_type: String::from("text/html"),
                body: String::from("<b>html</b>"),
                parts: Vec::new(),
            },
        ],
    };
    // The first match in depth-first pre-order wins, case-insensitively.
    assert_eq!(find_body(&tree, "text/plain").as_deref(), Some("nested plain"));
    assert_eq!(find_body(&tree, "text/html").as_deref(), Some("<b>html</b>"));
    assert_eq!(find_body(&tree, "application/pdf"), None);
}

#[test]
fn header_value_matches_case_insensitively_and_trims() {
    let headers = vec![
        Header { name: String::from("X-Other"), value: String::from("zzz") },
        Header { name: String::from("SUBJECT"), value: String::from("  padded  ") },
        Header { name: String::from("Subject"), value: String::from("second") },
    ];
    assert_eq!(header_value(&headers, "subject").as_deref(), Some("padded"));
    assert_eq!(header_value(&headers, "Missing"), None);
}

#[test]
fn fetch_decodes_a_downloaded_batch_in_order() {
    let mut account = EmailAccount::new(
        String::from("me@example.com"),
        String::from("Me"),
        String::from("imap.example.com"),
        993,
        String::from("smtp.example.com"),
        587,
        String::from("me"),
        String::from("SECRET-REDACTED"),
        true,
        false,
        false,
    );
    account.id = String::from("acc");
    let client = EmailClient::new(account);
    let batch = vec![
        RawMessage { uid: 4, seen: false, raw: b"Subject: A\r\n\r\none".to_vec() },
        RawMessage { uid: 9, seen: true, raw: b"Subject: B\r\n\r\ntwo".to_vec() },
    ];
    let fetched = client.fetch_emails("inbox", batch, "2020-01-01T00:00:00+00:00").unwrap();
    assert_eq!(fetched.len(), 2);
    assert_eq!(fetched[0].id, "acc:4");
    assert_eq!(fetched[0].subject, "A");
    assert!(!fetched[0].read);
    assert_eq!(fetched[1].id, "acc:9");
    assert_eq!(fetched[1].body, "two");
    assert!(fetched[1].read);
}

#[test]
fn decode_rejects_unparseable_bytes() {
    // A message whose first header line starts with a space has no header
    // to hang the continuation on, and the whole message is rejected.
    let raw = b" Overhang: broken\r\n\r\nbody";
    let err = decode_message("acc", "inbox", 1, false, raw, "F").unwrap_err();
    assert!(matches!(err, missive::email::EmailError::ParseError(_)));
    assert!(err.message().starts_with("Parse error: "));
}
