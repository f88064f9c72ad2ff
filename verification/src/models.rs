//! Canonical record model: addresses, messages, accounts, identities.
//!
//! Each executable type has a mathematical view (`View`/`DeepView`) over
//! which every contract in this crate is stated.

use vstd::prelude::*;
use crate::sys::{fresh_uuid, now_rfc3339};

verus! {

/// A mail participant: a free-form display name and a mail address.
/// Either field may be empty; nothing is validated at this layer.
#[derive(Debug)]
pub struct EmailAddress {
    pub name: String,
    pub email: String,
}

/// Mathematical value of an [`EmailAddress`].
#[verifier::ext_equal]
pub struct AddressView {
    pub name: Seq<char>,
    pub email: Seq<char>,
}

impl View for EmailAddress {
    type V = AddressView;

    open spec fn view(&self) -> AddressView {
        AddressView { name: self.name@, email: self.email@ }
    }
}

impl DeepView for EmailAddress {
    type V = AddressView;

    open spec fn deep_view(&self) -> AddressView {
        self@
    }
}

impl Clone for EmailAddress {
    fn clone(&self) -> (r: Self)
        ensures
            r@ == self@,
    {
        EmailAddress { name: self.name.clone(), email: self.email.clone() }
    }
}

/// A deduplicated contact record, keyed by the normalized mail address.
#[derive(Debug)]
pub struct User {
    pub id: String,
    pub name: Option<String>,
    pub email: String,
}

/// Mathematical value of a [`User`].
#[verifier::ext_equal]
pub struct UserView {
    pub id: Seq<char>,
    pub name: Option<Seq<char>>,
    pub email: Seq<char>,
}

impl View for User {
    type V = UserView;

    open spec fn view(&self) -> UserView {
        UserView { id: self.id@, name: self.name.deep_view(), email: self.email@ }
    }
}

impl DeepView for User {
    type V = UserView;

    open spec fn deep_view(&self) -> UserView {
        self@
    }
}

impl Clone for User {
    fn clone(&self) -> (r: Self)
        ensures
            r@ == self@,
    {
        User {
            id: self.id.clone(),
            name: clone_opt_string(&self.name),
            email: self.email.clone(),
        }
    }
}

/// A file attached to a message.
#[derive(Debug)]
pub struct Attachment {
    pub id: String,
    pub filename: String,
    pub size: u64,
    pub mime_type: String,
    pub data: Option<Vec<u8>>,
}

/// Mathematical value of an [`Attachment`].
#[verifier::ext_equal]
pub struct AttachmentView {
    pub id: Seq<char>,
    pub filename: Seq<char>,
    pub size: u64,
    pub mime_type: Seq<char>,
    pub data: Option<Seq<u8>>,
}

impl View for Attachment {
    type V = AttachmentView;

    open spec fn view(&self) -> AttachmentView {
        AttachmentView {
            id: self.id@,
            filename: self.filename@,
            size: self.size,
            mime_type: self.mime_type@,
            data: self.data.deep_view(),
        }
    }
}

impl DeepView for Attachment {
    type V = AttachmentView;

    open spec fn deep_view(&self) -> AttachmentView {
        self@
    }
}

impl Clone for Attachment {
    fn clone(&self) -> (r: Self)
        ensures
            r@ == self@,
    {
        let data = match &self.data {
            Some(v) => {
                let c = v.clone();
                assert(c@ =~= v@);
                Some(c)
            },
            None => None,
        };
        Attachment {
            id: self.id.clone(),
            filename: self.filename.clone(),
            size: self.size,
            mime_type: self.mime_type.clone(),
            data,
        }
    }
}

/// The canonical message record.
#[derive(Debug)]
pub struct Email {
    pub id: String,
    pub from: EmailAddress,
    pub to: Vec<EmailAddress>,
    pub cc: Option<Vec<EmailAddress>>,
    pub bcc: Option<Vec<EmailAddress>>,
    pub subject: String,
    pub body: String,
    pub html_body: Option<String>,
    pub date: String,
    pub read: bool,
    pub starred: bool,
    pub folder: String,
    pub attachments: Option<Vec<Attachment>>,
    pub account_id: Option<String>,
    pub message_id: Option<String>,
    pub from_user_id: Option<String>,
    pub to_user_ids: Option<Vec<String>>,
    pub cc_user_ids: Option<Vec<String>>,
    pub bcc_user_ids: Option<Vec<String>>,
}

/// Mathematical value of an [`Email`].
#[verifier::ext_equal]
pub struct EmailView {
    pub id: Seq<char>,
    pub from: AddressView,
    pub to: Seq<AddressView>,
    pub cc: Option<Seq<AddressView>>,
    pub bcc: Option<Seq<AddressView>>,
    pub subject: Seq<char>,
    pub body: Seq<char>,
    pub html_body: Option<Seq<char>>,
    pub date: Seq<char>,
    pub read: bool,
    pub starred: bool,
    pub folder: Seq<char>,
    pub attachments: Option<Seq<AttachmentView>>,
    pub account_id: Option<Seq<char>>,
    pub message_id: Option<Seq<char>>,
    pub from_user_id: Option<Seq<char>>,
    pub to_user_ids: Option<Seq<Seq<char>>>,
    pub cc_user_ids: Option<Seq<Seq<char>>>,
    pub bcc_user_ids: Option<Seq<Seq<char>>>,
}

impl View for Email {
    type V = EmailView;

    open spec fn view(&self) -> EmailView {
        EmailView {
            id: self.id@,
            from: self.from@,
            to: self.to.deep_view(),
            cc: self.cc.deep_view(),
            bcc: self.bcc.deep_view(),
            subject: self.subject@,
            body: self.body@,
            html_body: self.html_body.deep_view(),
            date: self.date@,
            read: self.read,
            starred: self.starred,
            folder: self.folder@,
            attachments: self.attachments.deep_view(),
            account_id: self.account_id.deep_view(),
            message_id: self.message_id.deep_view(),
            from_user_id: self.from_user_id.deep_view(),
            to_user_ids: self.to_user_ids.deep_view(),
            cc_user_ids: self.cc_user_ids.deep_view(),
            bcc_user_ids: self.bcc_user_ids.deep_view(),
        }
    }
}

impl DeepView for Email {
    type V = EmailView;

    open spec fn deep_view(&self) -> EmailView {
        self@
    }
}

impl Clone for Email {
    fn clone(&self) -> (r: Self)
        ensures
            r@ == self@,
    {
        Email {
            id: self.id.clone(),
            from: self.from.clone(),
            to: clone_addresses(&self.to),
            cc: clone_opt_addresses(&self.cc),
            bcc: clone_opt_addresses(&self.bcc),
            subject: self.subject.clone(),
            body: self.body.clone(),
            html_body: clone_opt_string(&self.html_body),
            date: self.date.clone(),
            read: self.read,
            starred: self.starred,
            folder: self.folder.clone(),
            attachments: clone_opt_attachments(&self.attachments),
            account_id: clone_opt_string(&self.account_id),
            message_id: clone_opt_string(&self.message_id),
            from_user_id: clone_opt_string(&self.from_user_id),
            to_user_ids: clone_opt_strings(&self.to_user_ids),
            cc_user_ids: clone_opt_strings(&self.cc_user_ids),
            bcc_user_ids: clone_opt_strings(&self.bcc_user_ids),
        }
    }
}

/// A mail-server connection profile.
#[derive(Debug)]
pub struct EmailAccount {
    pub id: String,
    pub email: String,
    pub name: String,
    pub imap_server: String,
    pub imap_port: u16,
    pub smtp_server: String,
    pub smtp_port: u16,
    pub username: String,
    pub password: String,
    pub use_ssl: bool,
    pub allow_invalid_certs: bool,
    pub allow_invalid_smtp_certs: bool,
    pub user_id: Option<String>,
}

/// Mathematical value of an [`EmailAccount`].
#[verifier::ext_equal]
pub struct AccountView {
    pub id: Seq<char>,
    pub email: Seq<char>,
    pub name: Seq<char>,
    pub imap_server: Seq<char>,
    pub imap_port: u16,
    pub smtp_server: Seq<char>,
    pub smtp_port: u16,
    pub username: Seq<char>,
    pub password: Seq<char>,
    pub use_ssl: bool,
    pub allow_invalid_certs: bool,
    pub allow_invalid_smtp_certs: bool,
    pub user_id: Option<Seq<char>>,
}

impl View for EmailAccount {
    type V = AccountView;

    open spec fn view(&self) -> AccountView {
        AccountView {
            id: self.id@,
            email: self.email@,
            name: self.name@,
            imap_server: self.imap_server@,
            imap_port: self.imap_port,
            smtp_server: self.smtp_server@,
            smtp_port: self.smtp_port,
            username: self.username@,
            password: self.password@,
            use_ssl: self.use_ssl,
            allow_invalid_certs: self.allow_invalid_certs,
            allow_invalid_smtp_certs: self.allow_invalid_smtp_certs,
            user_id: self.user_id.deep_view(),
        }
    }
}

impl DeepView for EmailAccount {
    type V = AccountView;

    open spec fn deep_view(&self) -> AccountView {
        self@
    }
}

impl Clone for EmailAccount {
    fn clone(&self) -> (r: Self)
        ensures
            r@ == self@,
    {
        EmailAccount {
            id: self.id.clone(),
            email: self.email.clone(),
            name: self.name.clone(),
            imap_server: self.imap_server.clone(),
            imap_port: self.imap_port,
            smtp_server: self.smtp_server.clone(),
            smtp_port: self.smtp_port,
            username: self.username.clone(),
            password: self.password.clone(),
            use_ssl: self.use_ssl,
            allow_invalid_certs: self.allow_invalid_certs,
            allow_invalid_smtp_certs: self.allow_invalid_smtp_certs,
            user_id: clone_opt_string(&self.user_id),
        }
    }
}

/// An outbound message as composed by the user, before sending.
#[derive(Debug)]
pub struct NewEmail {
    pub from: EmailAddress,
    pub to: Vec<EmailAddress>,
    pub cc: Option<Vec<EmailAddress>>,
    pub bcc: Option<Vec<EmailAddress>>,
    pub subject: String,
    pub body: String,
    pub attachments: Option<Vec<Attachment>>,
}

/// Mathematical value of a [`NewEmail`].
#[verifier::ext_equal]
pub struct NewEmailView {
    pub from: AddressView,
    pub to: Seq<AddressView>,
    pub cc: Option<Seq<AddressView>>,
    pub bcc: Option<Seq<AddressView>>,
    pub subject: Seq<char>,
    pub body: Seq<char>,
    pub attachments: Option<Seq<AttachmentView>>,
}

impl View for NewEmail {
    type V = NewEmailView;

    open spec fn view(&self) -> NewEmailView {
        NewEmailView {
            from: self.from@,
            to: self.to.deep_view(),
            cc: self.cc.deep_view(),
            bcc: self.bcc.deep_view(),
            subject: self.subject@,
            body: self.body@,
            attachments: self.attachments.deep_view(),
        }
    }
}

/// Outcome of a connection diagnostic: a flag and a human-readable message.
#[derive(Debug)]
pub struct ConnectionTestResult {
    pub success: bool,
    pub message: String,
}

/// Clones a vector of addresses, preserving its mathematical value.
pub fn clone_addresses(v: &Vec<EmailAddress>) -> (r: Vec<EmailAddress>)
    ensures
        r.deep_view() == v.deep_view(),
{
    let mut r: Vec<EmailAddress> = Vec::new();
    let mut i: usize = 0;
    while i < v.len()
        invariant
            i <= v.len(),
            r.deep_view() =~= v.deep_view().take(i as int),
        decreases v.len() - i,
    {
        let ghost prev = r.deep_view();
        let c = v[i].clone();
        r.push(c);
        proof {
            assert(r.deep_view() =~= prev.push(v.deep_view()[i as int]));
            assert(v.deep_view().take(i + 1) =~= v.deep_view().take(i as int).push(
                v.deep_view()[i as int],
            ));
        }
        i += 1;
    }
    assert(r.deep_view() =~= v.deep_view());
    r
}

fn clone_opt_addresses(v: &Option<Vec<EmailAddress>>) -> (r: Option<Vec<EmailAddress>>)
    ensures
        r.deep_view() == v.deep_view(),
{
    match v {
        Some(inner) => Some(clone_addresses(inner)),
        None => None,
    }
}

/// Clones an optional string, preserving its mathematical value.
pub fn clone_opt_string(v: &Option<String>) -> (r: Option<String>)
    ensures
        r.deep_view() == v.deep_view(),
{
    match v {
        Some(s) => Some(s.clone()),
        None => None,
    }
}

fn clone_strings(v: &Vec<String>) -> (r: Vec<String>)
    ensures
        r.deep_view() == v.deep_view(),
{
    let mut r: Vec<String> = Vec::new();
    let mut i: usize = 0;
    while i < v.len()
        invariant
            i <= v.len(),
            r.deep_view() =~= v.deep_view().take(i as int),
        decreases v.len() - i,
    {
        let ghost prev = r.deep_view();
        let c = v[i].clone();
        r.push(c);
        proof {
            assert(r.deep_view() =~= prev.push(v.deep_view()[i as int]));
            assert(v.deep_view().take(i + 1) =~= v.deep_view().take(i as int).push(
                v.deep_view()[i as int],
            ));
        }
        i += 1;
    }
    assert(r.deep_view() =~= v.deep_view());
    r
}

fn clone_opt_strings(v: &Option<Vec<String>>) -> (r: Option<Vec<String>>)
    ensures
        r.deep_view() == v.deep_view(),
{
    match v {
        Some(inner) => Some(clone_strings(inner)),
        None => None,
    }
}

fn clone_attachments(v: &Vec<Attachment>) -> (r: Vec<Attachment>)
    ensures
        r.deep_view() == v.deep_view(),
{
    let mut r: Vec<Attachment> = Vec::new();
    let mut i: usize = 0;
    while i < v.len()
        invariant
            i <= v.len(),
            r.deep_view() =~= v.deep_view().take(i as int),
        decreases v.len() - i,
    {
        let ghost prev = r.deep_view();
        let c = v[i].clone();
        r.push(c);
        proof {
            assert(r.deep_view() =~= prev.push(v.deep_view()[i as int]));
            assert(v.deep_view().take(i + 1) =~= v.deep_view().take(i as int).push(
                v.deep_view()[i as int],
            ));
        }
        i += 1;
    }
    assert(r.deep_view() =~= v.deep_view());
    r
}

fn clone_opt_attachments(v: &Option<Vec<Attachment>>) -> (r: Option<Vec<Attachment>>)
    ensures
        r.deep_view() == v.deep_view(),
{
    match v {
        Some(inner) => Some(clone_attachments(inner)),
        None => None,
    }
}

impl Email {
    /// Creates a locally-originated message: a fresh identifier, the current
    /// time as its timestamp, unread, unstarred, and no identity links yet.
    pub fn new(
        from: EmailAddress,
        to: Vec<EmailAddress>,
        subject: String,
        body: String,
        folder: String,
    ) -> (r: Email)
        ensures
            r@.from == from@,
            r@.to == to.deep_view(),
            r@.cc is None,
            r@.bcc is None,
            r@.subject == subject@,
            r@.body == body@,
            r@.html_body is None,
            r@.read == false,
            r@.starred == false,
            r@.folder == folder@,
            r@.attachments is None,
            r@.account_id is None,
            r@.message_id is None,
            r@.from_user_id is None,
            r@.to_user_ids is None,
            r@.cc_user_ids is None,
            r@.bcc_user_ids is None,
    {
        Email {
            id: fresh_uuid(),
            from,
            to,
            cc: None,
            bcc: None,
            subject,
            body,
            html_body: None,
            date: now_rfc3339(),
            read: false,
            starred: false,
            folder,
            attachments: None,
            account_id: None,
            message_id: None,
            from_user_id: None,
            to_user_ids: None,
            cc_user_ids: None,
            bcc_user_ids: None,
        }
    }
}

impl EmailAccount {
    /// Creates a connection profile with a fresh identifier and no owner
    /// identity yet.
    pub fn new(
        email: String,
        name: String,
        imap_server: String,
        imap_port: u16,
        smtp_server: String,
        smtp_port: u16,
        username: String,
        password: String,
        use_ssl: bool,
        allow_invalid_certs: bool,
        allow_invalid_smtp_certs: bool,
    ) -> (r: EmailAccount)
        ensures
            r@.email == email@,
            r@.name == name@,
            r@.imap_server == imap_server@,
            r@.imap_port == imap_port,
            r@.smtp_server == smtp_server@,
            r@.smtp_port == smtp_port,
            r@.username == username@,
            r@.password == password@,
            r@.use_ssl == use_ssl,
            r@.allow_invalid_certs == allow_invalid_certs,
            r@.allow_invalid_smtp_certs == allow_invalid_smtp_certs,
            r@.user_id is None,
    {
        EmailAccount {
            id: fresh_uuid(),
            email,
            name,
            imap_server,
            imap_port,
            smtp_server,
            smtp_port,
            username,
            password,
            use_ssl,
            allow_invalid_certs,
            allow_invalid_smtp_certs,
            user_id: None,
        }
    }
}

} // verus!
