//! Command-level operations as the front end invokes them: the one-shot
//! fetch-and-persist synchronization cycle, recording sent mail, account
//! upsert, and thin pass-throughs over the store. Every error is flattened
//! to a display string at this boundary.

use vstd::prelude::*;
use vstd::string::StringExecFns;
use crate::models::{
    Email, EmailView, EmailAddress, AddressView, EmailAccount, AccountView, NewEmail,
    ConnectionTestResult, UserView,
};
use crate::database::{
    Database, DatabaseError, has_email_id, has_account_id, has_account_email, upsert_user_view,
    user_ref_of, sorted_by_date_desc,
};
use crate::email::EmailError;

verus! {

/// The identity references resolved from an address list, in order; an
/// address without a key contributes nothing.
pub open spec fn resolved_id_seq(addrs: Seq<AddressView>) -> Seq<Seq<char>>
    decreases addrs.len(),
{
    if addrs.len() == 0 {
        Seq::empty()
    } else {
        let rest = resolved_id_seq(addrs.drop_last());
        match user_ref_of(addrs.last().email) {
            Some(rf) => rest.push(rf),
            None => rest,
        }
    }
}

/// The identity references for an address list as stored on a message:
/// `None` when no address resolved.
pub open spec fn resolved_ids(addrs: Seq<AddressView>) -> Option<Seq<Seq<char>>> {
    let ids = resolved_id_seq(addrs);
    if ids.len() == 0 {
        None
    } else {
        Some(ids)
    }
}

/// The identity collection after upserting every address of a list in
/// order, each with its display name.
pub open spec fn upsert_addrs(users: Seq<UserView>, addrs: Seq<AddressView>) -> Seq<UserView>
    decreases addrs.len(),
{
    if addrs.len() == 0 {
        users
    } else {
        upsert_user_view(
            upsert_addrs(users, addrs.drop_last()),
            addrs.last().email,
            Some(addrs.last().name),
        )
    }
}

/// Resolves every address of a list to a stable identity reference,
/// upserting each identity record; addresses without a key are skipped.
/// Yields `None` when nothing resolved.
pub fn resolve_user_ids(db: &mut Database, addrs: &Vec<EmailAddress>) -> (r: Result<
    Option<Vec<String>>,
    DatabaseError,
>)
    requires
        old(db).wf(),
    ensures
        final(db).wf(),
        final(db)@.emails == old(db)@.emails,
        final(db)@.accounts == old(db)@.accounts,
        final(db)@.users == upsert_addrs(old(db)@.users, addrs.deep_view()),
        match r {
            Ok(ids) => ids.deep_view() == resolved_ids(addrs.deep_view()),
            Err(_) => false,
        },
{
    let ghost init = db@;
    let mut ids: Vec<String> = Vec::new();
    let mut i: usize = 0;
    let n = addrs.len();
    proof {
        assert(addrs.deep_view().take(0) =~= Seq::<AddressView>::empty());
        assert(ids.deep_view() =~= resolved_id_seq(addrs.deep_view().take(0)));
    }
    while i < n
        invariant
            i <= n,
            n == addrs.deep_view().len(),
            old(db)@ == init,
            old(db).wf(),
            db.wf(),
            db@.emails == init.emails,
            db@.accounts == init.accounts,
            db@.users == upsert_addrs(init.users, addrs.deep_view().take(i as int)),
            ids.deep_view() == resolved_id_seq(addrs.deep_view().take(i as int)),
        decreases n - i,
    {
        proof {
            assert(addrs.deep_view()[i as int] == addrs@[i as int]@);
            assert(addrs.deep_view().take(i + 1).drop_last() =~= addrs.deep_view().take(i as int));
            assert(addrs.deep_view().take(i + 1).last() == addrs.deep_view()[i as int]);
        }
        let ghost prev_ids = ids.deep_view();
        match db.get_or_create_user(addrs[i].email.as_str(), Some(addrs[i].name.as_str())) {
            Ok(Some(id)) => {
                ids.push(id);
                proof {
                    assert(ids.deep_view() =~= prev_ids.push(
                        user_ref_of(addrs.deep_view()[i as int].email).unwrap(),
                    ));
                }
            },
            Ok(None) => {},
            Err(e) => {
                return Err(e);
            },
        }
        i += 1;
    }
    proof {
        assert(addrs.deep_view().take(n as int) =~= addrs.deep_view());
    }
    if ids.len() == 0 {
        Ok(None)
    } else {
        Ok(Some(ids))
    }
}

/// A fetched message with its participants resolved to stable identity
/// references; every other field is untouched.
pub open spec fn enriched(e: EmailView) -> EmailView {
    EmailView {
        from_user_id: user_ref_of(e.from.email),
        to_user_ids: resolved_ids(e.to),
        cc_user_ids: match e.cc {
            Some(l) => resolved_ids(l),
            None => None,
        },
        bcc_user_ids: match e.bcc {
            Some(l) => resolved_ids(l),
            None => None,
        },
        ..e
    }
}

/// Every fetched message enriched, in fetch order.
pub open spec fn enriched_all(s: Seq<EmailView>) -> Seq<EmailView> {
    Seq::new(s.len(), |i: int| enriched(s[i]))
}

/// The identity collection after resolving one message's participants:
/// sender first, then the recipient lists in order.
pub open spec fn upsert_participants(
    users: Seq<UserView>,
    from: AddressView,
    to: Seq<AddressView>,
    cc: Option<Seq<AddressView>>,
    bcc: Option<Seq<AddressView>>,
) -> Seq<UserView> {
    let u1 = upsert_user_view(users, from.email, Some(from.name));
    let u2 = upsert_addrs(u1, to);
    let u3 = match cc {
        Some(l) => upsert_addrs(u2, l),
        None => u2,
    };
    match bcc {
        Some(l) => upsert_addrs(u3, l),
        None => u3,
    }
}

/// The identity collection after resolving every participant of one
/// fetched message.
pub open spec fn upsert_email_users(users: Seq<UserView>, e: EmailView) -> Seq<UserView> {
    upsert_participants(users, e.from, e.to, e.cc, e.bcc)
}

/// The identity collection after a whole synchronization batch.
pub open spec fn sync_users(users: Seq<UserView>, fetched: Seq<EmailView>) -> Seq<UserView>
    decreases fetched.len(),
{
    if fetched.len() == 0 {
        users
    } else {
        upsert_email_users(sync_users(users, fetched.drop_last()), fetched.last())
    }
}

/// The message collection after a whole synchronization batch: each fetched
/// message is enriched and, unless a message with its external identifier is
/// already present, appended — never overwriting prior state.
pub open spec fn sync_store(emails: Seq<EmailView>, fetched: Seq<EmailView>) -> Seq<EmailView>
    decreases fetched.len(),
{
    if fetched.len() == 0 {
        emails
    } else {
        let prior = sync_store(emails, fetched.drop_last());
        let e = enriched(fetched.last());
        if has_email_id(prior, e.id) {
            prior
        } else {
            prior.push(e)
        }
    }
}

proof fn lemma_sync_store_has_all(emails: Seq<EmailView>, f: Seq<EmailView>)
    ensures
        forall|k: int|
            0 <= k < f.len() ==> has_email_id(sync_store(emails, f), enriched(#[trigger] f[k]).id),
    decreases f.len(),
{
    if f.len() > 0 {
        lemma_sync_store_has_all(emails, f.drop_last());
        let prior = sync_store(emails, f.drop_last());
        let e = enriched(f.last());
        assert forall|k: int|
            0 <= k < f.len() implies has_email_id(
            sync_store(emails, f),
            enriched(#[trigger] f[k]).id,
        ) by {
            if k < f.len() - 1 {
                assert(f.drop_last()[k] == f[k]);
                assert(has_email_id(prior, enriched(f[k]).id));
                let i = choose|i: int| 0 <= i < prior.len() && prior[i].id == enriched(f[k]).id;
                if !has_email_id(prior, e.id) {
                    assert(prior.push(e)[i].id == enriched(f[k]).id);
                }
            } else {
                if has_email_id(prior, e.id) {
                } else {
                    assert(prior.push(e)[prior.len() as int].id == e.id);
                }
            }
        }
    }
}

proof fn lemma_sync_store_stable(emails: Seq<EmailView>, f: Seq<EmailView>)
    requires
        forall|k: int| 0 <= k < f.len() ==> has_email_id(emails, enriched(#[trigger] f[k]).id),
    ensures
        sync_store(emails, f) == emails,
    decreases f.len(),
{
    if f.len() > 0 {
        assert(forall|k: int|
            0 <= k < f.drop_last().len() ==> has_email_id(
                emails,
                enriched(#[trigger] f.drop_last()[k]).id,
            ));
        lemma_sync_store_stable(emails, f.drop_last());
        assert(has_email_id(emails, enriched(f[f.len() - 1]).id));
    }
}

/// Synchronization is idempotent: running the whole fetch-and-persist fold
/// a second time against an unchanged fetched batch leaves the message
/// collection — and with it every folder's message count — exactly as the
/// first run left it.
pub proof fn lemma_sync_idempotent(emails: Seq<EmailView>, fetched: Seq<EmailView>)
    ensures
        sync_store(sync_store(emails, fetched), fetched) == sync_store(emails, fetched),
{
    lemma_sync_store_has_all(emails, fetched);
    lemma_sync_store_stable(sync_store(emails, fetched), fetched);
}

/// One fetch-and-persist cycle, after the transport has fetched a batch:
/// fails (changing nothing) when the account is unknown; otherwise resolves
/// identities for every fetched message, skips those already present, and
/// persists the rest in order. Already-persisted messages are never
/// duplicated, and earlier writes are never rolled back.
pub fn sync_emails(db: &mut Database, account_id: &str, fetched: Vec<Email>) -> (r: Result<
    Vec<Email>,
    String,
>)
    requires
        old(db).wf(),
    ensures
        final(db).wf(),
        final(db)@.accounts == old(db)@.accounts,
        !has_account_id(old(db)@.accounts, account_id@) ==> final(db)@ == old(db)@ && (r matches Err(m)
            && m@ == "Account not found"@),
        has_account_id(old(db)@.accounts, account_id@) ==> final(db)@.emails == sync_store(
            old(db)@.emails,
            fetched.deep_view(),
        ) && final(db)@.users == sync_users(old(db)@.users, fetched.deep_view()) && (r matches Ok(
            v,
        ) && v.deep_view() == enriched_all(fetched.deep_view())),
{
    let ghost init = db@;
    if db.get_account(account_id).is_none() {
        return Err(String::from_str("Account not found"));
    }
    let mut out: Vec<Email> = Vec::new();
    let mut i: usize = 0;
    let n = fetched.len();
    proof {
        assert(fetched.deep_view().take(0) =~= Seq::<EmailView>::empty());
    }
    while i < n
        invariant
            i <= n,
            n == fetched.deep_view().len(),
            old(db)@ == init,
            old(db).wf(),
            db.wf(),
            db@.accounts == init.accounts,
            db@.emails == sync_store(init.emails, fetched.deep_view().take(i as int)),
            db@.users == sync_users(init.users, fetched.deep_view().take(i as int)),
            out.deep_view() =~= enriched_all(fetched.deep_view().take(i as int)),
        decreases n - i,
    {
        let ghost fv = fetched.deep_view()[i as int];
        proof {
            assert(fv == fetched@[i as int]@);
            assert(fetched.deep_view().take(i + 1).drop_last() =~= fetched.deep_view().take(
                i as int,
            ));
            assert(fetched.deep_view().take(i + 1).last() == fv);
        }
        let mut em = fetched[i].clone();
        let from_id = match db.get_or_create_user(
            em.from.email.as_str(),
            Some(em.from.name.as_str()),
        ) {
            Ok(o) => o,
            Err(e) => {
                return Err(e.message());
            },
        };
        em.from_user_id = from_id;
        let to_ids = match resolve_user_ids(db, &em.to) {
            Ok(o) => o,
            Err(e) => {
                return Err(e.message());
            },
        };
        em.to_user_ids = to_ids;
        let cc_ids = match &em.cc {
            Some(l) => match resolve_user_ids(db, l) {
                Ok(o) => o,
                Err(e) => {
                    return Err(e.message());
                },
            },
            None => None,
        };
        em.cc_user_ids = cc_ids;
        let bcc_ids = match &em.bcc {
            Some(l) => match resolve_user_ids(db, l) {
                Ok(o) => o,
                Err(e) => {
                    return Err(e.message());
                },
            },
            None => None,
        };
        em.bcc_user_ids = bcc_ids;
        proof {
            assert(em@ =~= enriched(fv));
            assert(db@.users =~= upsert_email_users(
                sync_users(init.users, fetched.deep_view().take(i as int)),
                fv,
            ));
        }
        if db.get_email(em.id.as_str()).is_none() {
            match db.create_email(&em) {
                Ok(_) => {},
                Err(e) => {
                    return Err(e.message());
                },
            }
        }
        let ghost prev_out = out.deep_view();
        out.push(em);
        proof {
            assert(out.deep_view() =~= prev_out.push(enriched(fv)));
            assert(out.deep_view() =~= enriched_all(fetched.deep_view().take(i + 1)));
        }
        i += 1;
    }
    proof {
        assert(fetched.deep_view().take(n as int) =~= fetched.deep_view());
    }
    Ok(out)
}

/// The stored messages of a folder, most recent first; a folder with no
/// stored messages yields an empty listing, never a failure.
pub fn fetch_emails(db: &Database, folder: &str) -> (r: Result<Vec<Email>, String>)
    ensures
        r matches Ok(v) && v.deep_view().to_multiset() == db@.emails.filter(
            |e: EmailView| e.folder == folder@,
        ).to_multiset() && sorted_by_date_desc(v.deep_view()),
{
    Ok(db.get_emails_by_folder(folder))
}

/// The account profile as it is saved: its owner identity resolved from its
/// mail address.
pub open spec fn with_owner(account: AccountView) -> AccountView {
    AccountView { user_id: user_ref_of(account.email), ..account }
}

/// Saves an account profile, preferring its identifier and falling back to
/// its mail address to avoid duplicate registrations: an account with the
/// same identifier is replaced; else one with the same address is replaced
/// keeping its identifier; else the profile is newly registered. The owner
/// identity is resolved and upserted first. Fails only when replacing by
/// identifier would leave two accounts sharing a mail address.
pub fn save_account(db: &mut Database, account: EmailAccount) -> (r: Result<EmailAccount, String>)
    requires
        old(db).wf(),
    ensures
        final(db).wf(),
        final(db)@.emails == old(db)@.emails,
        final(db)@.users == upsert_user_view(
            old(db)@.users,
            account@.email,
            Some(account@.name),
        ),
        match r {
            Ok(a) => {
                if has_account_id(old(db)@.accounts, account@.id) {
                    exists|i: int|
                        #![auto]
                        0 <= i < old(db)@.accounts.len() && old(db)@.accounts[i].id == account@.id
                            && final(db)@.accounts == old(db)@.accounts.update(
                            i,
                            with_owner(account@),
                        ) && a@ == with_owner(account@)
                } else if has_account_email(old(db)@.accounts, account@.email) {
                    exists|i: int|
                        #![auto]
                        0 <= i < old(db)@.accounts.len() && old(db)@.accounts[i].email
                            == account@.email && final(db)@.accounts == old(db)@.accounts.update(
                            i,
                            AccountView { id: old(db)@.accounts[i].id, ..with_owner(account@) },
                        ) && a@ == (AccountView {
                            id: old(db)@.accounts[i].id,
                            ..with_owner(account@)
                        })
                } else {
                    final(db)@.accounts == old(db)@.accounts.push(with_owner(account@)) && a@
                        == with_owner(account@)
                }
            },
            Err(_) => final(db)@.accounts == old(db)@.accounts && has_account_id(
                old(db)@.accounts,
                account@.id,
            ) && exists|i: int, j: int|
                #![auto]
                0 <= i < old(db)@.accounts.len() && 0 <= j < old(db)@.accounts.len() && i != j
                    && old(db)@.accounts[i].id == account@.id && old(db)@.accounts[j].email
                    == account@.email,
        },
{
    let mut account = account;
    let user_id = match db.get_or_create_user(account.email.as_str(), Some(account.name.as_str()))
        {
        Ok(o) => o,
        Err(e) => {
            return Err(e.message());
        },
    };
    account.user_id = user_id;
    if db.get_account(account.id.as_str()).is_some() {
        return match db.update_account(&account) {
            Ok(a) => Ok(a),
            Err(e) => Err(e.message()),
        };
    }
    let existing = db.get_account_by_email(account.email.as_str());
    match existing {
        Some(prior) => {
            let mut updated = account.clone();
            updated.id = prior.id.clone();
            match db.update_account(&updated) {
                Ok(a) => Ok(a),
                Err(e) => {
                    // Unreachable: the identifier was just taken from a
                    // stored account, and a second account with this mail
                    // address would break the address-uniqueness invariant.
                    proof {
                        assert(false);
                    }
                    Err(e.message())
                },
            }
        },
        None => match db.create_account(&account) {
            Ok(a) => Ok(a),
            Err(e) => {
                // Unreachable: neither the identifier nor the address was
                // found just above.
                proof {
                    assert(false);
                }
                Err(e.message())
            },
        },
    }
}

/// Records a just-sent message: a fresh record filed in `sent`, marked read,
/// owned by the sending account, its participants resolved, and persisted.
/// Earlier identity upserts stay even if persisting fails on an identifier
/// collision.
pub fn record_sent_email(db: &mut Database, account: &EmailAccount, email: NewEmail) -> (r: Result<
    Email,
    String,
>)
    requires
        old(db).wf(),
    ensures
        final(db).wf(),
        final(db)@.accounts == old(db)@.accounts,
        final(db)@.users == upsert_participants(
            old(db)@.users,
            email@.from,
            email@.to,
            email@.cc,
            email@.bcc,
        ),
        match r {
            Ok(e) => {
                &&& e@.from == email@.from
                &&& e@.to == email@.to
                &&& e@.cc == email@.cc
                &&& e@.bcc == email@.bcc
                &&& e@.subject == email@.subject
                &&& e@.body == email@.body
                &&& e@.html_body is None
                &&& e@.read == true
                &&& e@.starred == false
                &&& e@.folder == "sent"@
                &&& e@.attachments == email@.attachments
                &&& e@.account_id == Some(account@.id)
                &&& e@.message_id is None
                &&& e@.from_user_id == user_ref_of(email@.from.email)
                &&& e@.to_user_ids == resolved_ids(email@.to)
                &&& e@.cc_user_ids == (match email@.cc {
                    Some(l) => resolved_ids(l),
                    None => None,
                })
                &&& e@.bcc_user_ids == (match email@.bcc {
                    Some(l) => resolved_ids(l),
                    None => None,
                })
                &&& !has_email_id(old(db)@.emails, e@.id)
                &&& final(db)@.emails == old(db)@.emails.push(e@)
            },
            Err(_) => final(db)@.emails == old(db)@.emails,
        },
{
    let NewEmail { from, to, cc, bcc, subject, body, attachments } = email;
    let mut sent = Email::new(from, to, subject, body, String::from_str("sent"));
    sent.cc = cc;
    sent.bcc = bcc;
    sent.read = true;
    sent.attachments = attachments;
    sent.account_id = Some(account.id.clone());
    let from_id = match db.get_or_create_user(
        sent.from.email.as_str(),
        Some(sent.from.name.as_str()),
    ) {
        Ok(o) => o,
        Err(e) => {
            return Err(e.message());
        },
    };
    sent.from_user_id = from_id;
    let to_ids = match resolve_user_ids(db, &sent.to) {
        Ok(o) => o,
        Err(e) => {
            return Err(e.message());
        },
    };
    sent.to_user_ids = to_ids;
    let cc_ids = match &sent.cc {
        Some(l) => match resolve_user_ids(db, l) {
            Ok(o) => o,
            Err(e) => {
                return Err(e.message());
            },
        },
        None => None,
    };
    sent.cc_user_ids = cc_ids;
    let bcc_ids = match &sent.bcc {
        Some(l) => match resolve_user_ids(db, l) {
            Ok(o) => o,
            Err(e) => {
                return Err(e.message());
            },
        },
        None => None,
    };
    sent.bcc_user_ids = bcc_ids;
    match db.create_email(&sent) {
        Ok(_) => Ok(sent),
        Err(e) => Err(e.message()),
    }
}

/// Marks a stored message read.
pub fn mark_as_read(db: &mut Database, id: &str) -> (r: Result<(), String>)
    requires
        old(db).wf(),
    ensures
        final(db).wf(),
        r is Ok,
        final(db)@.accounts == old(db)@.accounts,
        final(db)@.users == old(db)@.users,
        has_email_id(old(db)@.emails, id@) ==> exists|i: int|
            #![auto]
            0 <= i < old(db)@.emails.len() && old(db)@.emails[i].id == id@ && final(db)@.emails
                == old(db)@.emails.update(i, EmailView { read: true, ..old(db)@.emails[i] }),
        !has_email_id(old(db)@.emails, id@) ==> final(db)@ == old(db)@,
{
    match db.mark_as_read(id, true) {
        Ok(_) => Ok(()),
        Err(_) => Ok(()),
    }
}

/// Marks a stored message unread.
pub fn mark_as_unread(db: &mut Database, id: &str) -> (r: Result<(), String>)
    requires
        old(db).wf(),
    ensures
        final(db).wf(),
        r is Ok,
        final(db)@.accounts == old(db)@.accounts,
        final(db)@.users == old(db)@.users,
        has_email_id(old(db)@.emails, id@) ==> exists|i: int|
            #![auto]
            0 <= i < old(db)@.emails.len() && old(db)@.emails[i].id == id@ && final(db)@.emails
                == old(db)@.emails.update(i, EmailView { read: false, ..old(db)@.emails[i] }),
        !has_email_id(old(db)@.emails, id@) ==> final(db)@ == old(db)@,
{
    match db.mark_as_read(id, false) {
        Ok(_) => Ok(()),
        Err(_) => Ok(()),
    }
}

/// Sets or clears the star on a stored message.
pub fn toggle_star(db: &mut Database, id: &str, starred: bool) -> (r: Result<(), String>)
    requires
        old(db).wf(),
    ensures
        final(db).wf(),
        r is Ok,
        final(db)@.accounts == old(db)@.accounts,
        final(db)@.users == old(db)@.users,
        has_email_id(old(db)@.emails, id@) ==> exists|i: int|
            #![auto]
            0 <= i < old(db)@.emails.len() && old(db)@.emails[i].id == id@ && final(db)@.emails
                == old(db)@.emails.update(i, EmailView { starred: starred, ..old(db)@.emails[i] }),
        !has_email_id(old(db)@.emails, id@) ==> final(db)@ == old(db)@,
{
    match db.toggle_star(id, starred) {
        Ok(_) => Ok(()),
        Err(_) => Ok(()),
    }
}

/// Deletes a stored message by explicit user action.
pub fn delete_email(db: &mut Database, id: &str) -> (r: Result<(), String>)
    requires
        old(db).wf(),
    ensures
        final(db).wf(),
        r is Ok,
        final(db)@.accounts == old(db)@.accounts,
        final(db)@.users == old(db)@.users,
        has_email_id(old(db)@.emails, id@) ==> exists|i: int|
            #![auto]
            0 <= i < old(db)@.emails.len() && old(db)@.emails[i].id == id@ && final(db)@.emails
                == old(db)@.emails.remove(i),
        !has_email_id(old(db)@.emails, id@) ==> final(db)@ == old(db)@,
{
    match db.delete_email(id) {
        Ok(_) => Ok(()),
        Err(_) => Ok(()),
    }
}

/// Moves a stored message to the `trash` folder.
pub fn move_to_trash(db: &mut Database, id: &str) -> (r: Result<(), String>)
    requires
        old(db).wf(),
    ensures
        final(db).wf(),
        r is Ok,
        final(db)@.accounts == old(db)@.accounts,
        final(db)@.users == old(db)@.users,
        has_email_id(old(db)@.emails, id@) ==> exists|i: int|
            #![auto]
            0 <= i < old(db)@.emails.len() && old(db)@.emails[i].id == id@ && final(db)@.emails
                == old(db)@.emails.update(
                i,
                EmailView { folder: "trash"@, ..old(db)@.emails[i] },
            ),
        !has_email_id(old(db)@.emails, id@) ==> final(db)@ == old(db)@,
{
    match db.move_to_folder(id, "trash") {
        Ok(_) => Ok(()),
        Err(_) => Ok(()),
    }
}

/// Moves a stored message to another folder.
pub fn move_to_folder(db: &mut Database, id: &str, folder: &str) -> (r: Result<(), String>)
    requires
        old(db).wf(),
    ensures
        final(db).wf(),
        r is Ok,
        final(db)@.accounts == old(db)@.accounts,
        final(db)@.users == old(db)@.users,
        has_email_id(old(db)@.emails, id@) ==> exists|i: int|
            #![auto]
            0 <= i < old(db)@.emails.len() && old(db)@.emails[i].id == id@ && final(db)@.emails
                == old(db)@.emails.update(i, EmailView { folder: folder@, ..old(db)@.emails[i] }),
        !has_email_id(old(db)@.emails, id@) ==> final(db)@ == old(db)@,
{
    match db.move_to_folder(id, folder) {
        Ok(_) => Ok(()),
        Err(_) => Ok(()),
    }
}

/// Removes an account and, cascading, all of its messages.
pub fn remove_account(db: &mut Database, id: &str) -> (r: Result<(), String>)
    requires
        old(db).wf(),
    ensures
        final(db).wf(),
        r is Ok,
        final(db)@.users == old(db)@.users,
        final(db)@.emails == old(db)@.emails.filter(|e: EmailView| e.account_id != Some(id@)),
        has_account_id(old(db)@.accounts, id@) ==> exists|i: int|
            #![auto]
            0 <= i < old(db)@.accounts.len() && old(db)@.accounts[i].id == id@ && final(db)@.accounts
                == old(db)@.accounts.remove(i),
        !has_account_id(old(db)@.accounts, id@) ==> final(db)@.accounts == old(db)@.accounts,
{
    match db.delete_account(id) {
        Ok(_) => Ok(()),
        Err(_) => Ok(()),
    }
}

/// Lists every saved account.
pub fn get_accounts(db: &Database) -> (r: Result<Vec<EmailAccount>, String>)
    ensures
        r matches Ok(v) && v.deep_view() == db@.accounts,
{
    Ok(db.get_all_accounts())
}

/// Renders the outcome of a combined IMAP and SMTP diagnostic as a
/// structured result rather than an error.
pub fn test_connection(outcome: Result<(), EmailError>) -> (r: ConnectionTestResult)
    ensures
        r.success == outcome is Ok,
        outcome is Ok ==> r.message@ == "Connexion réussie !"@,
        outcome matches Err(e) ==> r.message@ == "Échec de la connexion: "@ + e.spec_message(),
{
    match outcome {
        Ok(_) => ConnectionTestResult {
            success: true,
            message: String::from_str("Connexion réussie !"),
        },
        Err(e) => ConnectionTestResult {
            success: false,
            message: String::from_str("Échec de la connexion: ").concat(e.message().as_str()),
        },
    }
}

/// Renders the outcome of an IMAP-only diagnostic.
pub fn test_imap_connection(outcome: Result<(), EmailError>) -> (r: ConnectionTestResult)
    ensures
        r.success == outcome is Ok,
        outcome is Ok ==> r.message@ == "Connexion IMAP réussie !"@,
        outcome matches Err(e) ==> r.message@ == "Échec IMAP: "@ + e.spec_message(),
{
    match outcome {
        Ok(_) => ConnectionTestResult {
            success: true,
            message: String::from_str("Connexion IMAP réussie !"),
        },
        Err(e) => ConnectionTestResult {
            success: false,
            message: String::from_str("Échec IMAP: ").concat(e.message().as_str()),
        },
    }
}

/// Renders the outcome of an SMTP-only diagnostic.
pub fn test_smtp_connection(outcome: Result<(), EmailError>) -> (r: ConnectionTestResult)
    ensures
        r.success == outcome is Ok,
        outcome is Ok ==> r.message@ == "Connexion SMTP réussie !"@,
        outcome matches Err(e) ==> r.message@ == "Échec SMTP: "@ + e.spec_message(),
{
    match outcome {
        Ok(_) => ConnectionTestResult {
            success: true,
            message: String::from_str("Connexion SMTP réussie !"),
        },
        Err(e) => ConnectionTestResult {
            success: false,
            message: String::from_str("Échec SMTP: ").concat(e.message().as_str()),
        },
    }
}

} // verus!
