//! Schema-enforced embedded store for messages, accounts and identities:
//! uniqueness constraints, folder listing ordered by recency, substring
//! search, aggregate counts, and cascading account deletion.

use vstd::prelude::*;
use vstd::string::StringExecFns;
use vstd::multiset::Multiset;
use crate::models::{
    Email, EmailView, EmailAccount, AccountView, User, UserView,
};
use crate::text::{
    trim_seq, lower_char, trim_text, lower_char_ex, ascii_string, str_eq, str_le, contains_ci,
    lower_seq, seq_contains, seq_le, lemma_seq_le_total, lemma_seq_le_trans,
};

verus! {

/// A store failure: an attempt to create a record whose external identifier
/// is already present, or a reference to an absent record.
#[derive(Debug)]
pub enum DatabaseError {
    Duplicate(String),
    NotFound(String),
}

impl DatabaseError {
    /// The display string for this failure, as the outer boundary renders it.
    pub fn message(&self) -> (r: String)
        ensures
            match self {
                DatabaseError::Duplicate(s) => r@ == "Database error: duplicate record "@ + s@,
                DatabaseError::NotFound(s) => r@ == "Not found: "@ + s@,
            },
    {
        match self {
            DatabaseError::Duplicate(s) => String::from_str(
                "Database error: duplicate record ",
            ).concat(s.as_str()),
            DatabaseError::NotFound(s) => String::from_str("Not found: ").concat(s.as_str()),
        }
    }
}

broadcast use vstd::seq_lib::group_to_multiset_ensures, vstd::multiset::group_multiset_axioms;

/// Messages ordered by timestamp, most recent first.
pub open spec fn sorted_by_date_desc(s: Seq<EmailView>) -> bool {
    forall|a: int, b: int| 0 <= a <= b < s.len() ==> seq_le(s[b].date, s[a].date)
}

/// True when the message matches a lowercased search query: case-insensitive
/// substring containment over subject, body, sender address or sender name.
pub open spec fn matches_query(e: EmailView, q: Seq<char>) -> bool {
    ||| seq_contains(lower_seq(e.subject), lower_seq(q))
    ||| seq_contains(lower_seq(e.body), lower_seq(q))
    ||| seq_contains(lower_seq(e.from.email), lower_seq(q))
    ||| seq_contains(lower_seq(e.from.name), lower_seq(q))
}

/// One step of [`Seq::filter`] along a growing prefix.
proof fn lemma_filter_take_step<A>(s: Seq<A>, pred: spec_fn(A) -> bool, i: int)
    requires
        0 <= i < s.len(),
    ensures
        s.take(i + 1).filter(pred) == if pred(s[i]) {
            s.take(i).filter(pred).push(s[i])
        } else {
            s.take(i).filter(pred)
        },
{
    reveal(Seq::filter);
    assert(s.take(i + 1).drop_last() =~= s.take(i));
    assert(s.take(i + 1).last() == s[i]);
}

/// True when some message in `s` carries the external identifier `id`.
pub open spec fn has_email_id(s: Seq<EmailView>, id: Seq<char>) -> bool {
    exists|i: int| 0 <= i < s.len() && s[i].id == id
}

/// True when some account in `s` carries the identifier `id`.
pub open spec fn has_account_id(s: Seq<AccountView>, id: Seq<char>) -> bool {
    exists|i: int| 0 <= i < s.len() && s[i].id == id
}

/// True when some account in `s` is registered for the mail address `email`.
pub open spec fn has_account_email(s: Seq<AccountView>, email: Seq<char>) -> bool {
    exists|i: int| 0 <= i < s.len() && s[i].email == email
}

/// True when some identity record in `s` carries the reference `id`.
pub open spec fn has_user_id(s: Seq<UserView>, id: Seq<char>) -> bool {
    exists|i: int| 0 <= i < s.len() && s[i].id == id
}

/// Message external identifiers are pairwise distinct.
pub open spec fn emails_unique(s: Seq<EmailView>) -> bool {
    forall|i: int, j: int| 0 <= i < j < s.len() ==> s[i].id != s[j].id
}

/// Account identifiers and account mail addresses are pairwise distinct.
pub open spec fn accounts_unique(s: Seq<AccountView>) -> bool {
    forall|i: int, j: int|
        0 <= i < j < s.len() ==> s[i].id != s[j].id && s[i].email != s[j].email
}

/// Identity references are pairwise distinct.
pub open spec fn users_unique(s: Seq<UserView>) -> bool {
    forall|i: int, j: int| 0 <= i < j < s.len() ==> s[i].id != s[j].id
}

/// The embedded structured store: one collection per entity.
pub struct Database {
    emails: Vec<Email>,
    accounts: Vec<EmailAccount>,
    users: Vec<User>,
}

/// Mathematical value of the whole store.
#[verifier::ext_equal]
pub struct DatabaseView {
    pub emails: Seq<EmailView>,
    pub accounts: Seq<AccountView>,
    pub users: Seq<UserView>,
}

impl View for Database {
    type V = DatabaseView;

    closed spec fn view(&self) -> DatabaseView {
        DatabaseView {
            emails: self.emails.deep_view(),
            accounts: self.accounts.deep_view(),
            users: self.users.deep_view(),
        }
    }
}

/// The normalization of one character of a mail address: ASCII lower-cased,
/// and everything but an ASCII letter or digit replaced by an underscore.
pub open spec fn normalize_char(c: char) -> char {
    let l = lower_char(c);
    if ('a' <= l && l <= 'z') || ('0' <= l && l <= '9') {
        l
    } else {
        '_'
    }
}

/// The deterministic identity key of a mail address: trimmed, lower-cased,
/// every other character replaced. An address that is empty after trimming
/// has no key.
pub open spec fn user_key_of(s: Seq<char>) -> Option<Seq<char>> {
    let t = trim_seq(s);
    if t.len() == 0 {
        None
    } else {
        Some(Seq::new(t.len(), |i: int| normalize_char(t[i])))
    }
}

/// The stable identity reference derived from a mail address.
pub open spec fn user_ref_of(s: Seq<char>) -> Option<Seq<char>> {
    match user_key_of(s) {
        Some(k) => Some(seq!['u', 's', 'e', 'r', ':'] + k),
        None => None,
    }
}

/// Identity resolution is deterministic: two spellings of an address that
/// agree once trimmed and lower-cased get the same key and the same stable
/// reference, across calls and process restarts.
pub proof fn lemma_resolve_deterministic(a: Seq<char>, b: Seq<char>)
    requires
        lower_seq(trim_seq(a)) == lower_seq(trim_seq(b)),
    ensures
        user_key_of(a) == user_key_of(b),
        user_ref_of(a) == user_ref_of(b),
{
    let ta = trim_seq(a);
    let tb = trim_seq(b);
    assert(lower_seq(ta).len() == ta.len());
    assert(lower_seq(tb).len() == tb.len());
    if ta.len() > 0 {
        assert forall|i: int| 0 <= i < ta.len() implies normalize_char(ta[i]) == normalize_char(
            tb[i],
        ) by {
            assert(lower_seq(ta)[i] == lower_seq(tb)[i]);
            assert(lower_char(ta[i]) == lower_char(tb[i]));
        }
        assert(Seq::new(ta.len(), |i: int| normalize_char(ta[i])) =~= Seq::new(
            tb.len(),
            |i: int| normalize_char(tb[i]),
        ));
    }
}

/// The position of the identity record carrying `id`; meaningful only when
/// [`has_user_id`] holds and references are unique.
pub open spec fn user_index(s: Seq<UserView>, id: Seq<char>) -> int {
    choose|i: int| 0 <= i < s.len() && s[i].id == id
}

/// The identity collection after idempotently upserting the record for
/// `email` under its derived reference, with last-write-wins display name.
/// An address without a key leaves the collection unchanged.
pub open spec fn upsert_user_view(
    users: Seq<UserView>,
    email: Seq<char>,
    name: Option<Seq<char>>,
) -> Seq<UserView> {
    match user_ref_of(email) {
        None => users,
        Some(rf) => {
            let u = UserView { id: rf, name: name, email: email };
            if has_user_id(users, rf) {
                users.update(user_index(users, rf), u)
            } else {
                users.push(u)
            }
        },
    }
}

impl Database {
    /// Every uniqueness constraint of the schema.
    pub open spec fn wf(&self) -> bool {
        &&& emails_unique(self@.emails)
        &&& accounts_unique(self@.accounts)
        &&& users_unique(self@.users)
    }

    /// Creates an empty store with its three collections defined.
    pub fn new() -> (r: Database)
        ensures
            r.wf(),
            r@.emails.len() == 0,
            r@.accounts.len() == 0,
            r@.users.len() == 0,
    {
        Database { emails: Vec::new(), accounts: Vec::new(), users: Vec::new() }
    }

    /// The deterministic identity key of a mail address, or `None` for an
    /// address that is empty once trimmed.
    pub fn user_key(email: &str) -> (r: Option<String>)
        ensures
            r.deep_view() == user_key_of(email@),
    {
        let t = trim_text(email);
        let n = t.as_str().unicode_len();
        if n == 0 {
            return None;
        }
        let mut bytes: Vec<u8> = Vec::new();
        let mut i: usize = 0;
        while i < n
            invariant
                i <= n,
                n == t@.len(),
                t@ == trim_seq(email@),
                bytes@.len() == i,
                forall|j: int|
                    0 <= j < i ==> #[trigger] bytes@[j] < 128 && (bytes@[j] as char)
                        == normalize_char(t@[j]),
            decreases n - i,
        {
            let c = t.as_str().get_char(i);
            let lc = lower_char_ex(c);
            let x = lc as u32;
            let b: u8 = if (97 <= x && x <= 122) || (48 <= x && x <= 57) {
                x as u8
            } else {
                95
            };
            proof {
                assert((b as char) == normalize_char(t@[i as int]));
            }
            bytes.push(b);
            i += 1;
        }
        let s = ascii_string(&bytes);
        proof {
            assert(s@ =~= user_key_of(email@).unwrap());
        }
        Some(s)
    }

    /// Idempotently upserts the identity record for a mail address and hands
    /// back its stable reference; an address that is empty after trimming
    /// resolves to no identity. The stored display name is the one given
    /// here: the most recent call wins.
    pub fn get_or_create_user(&mut self, email: &str, name: Option<&str>) -> (r: Result<
        Option<String>,
        DatabaseError,
    >)
        requires
            old(self).wf(),
        ensures
            final(self).wf(),
            final(self)@.emails == old(self)@.emails,
            final(self)@.accounts == old(self)@.accounts,
            final(self)@.users == upsert_user_view(old(self)@.users, email@, name.deep_view()),
            match r {
                Ok(opt) => opt.deep_view() == user_ref_of(email@),
                Err(_) => false,
            },
    {
        let key = match Self::user_key(email) {
            Some(k) => k,
            None => {
                return Ok(None);
            },
        };
        let rf = String::from_str("user:").concat(key.as_str());
        proof {
            reveal_strlit("user:");
            assert("user:"@ =~= seq!['u', 's', 'e', 'r', ':']);
            assert(rf@ == user_ref_of(email@).unwrap());
        }
        let record = User {
            id: rf.clone(),
            name: match name {
                Some(n) => Some(String::from_str(n)),
                None => None,
            },
            email: String::from_str(email),
        };
        let ghost uv = record@;
        let ghost init = self@;
        let mut i: usize = 0;
        let n = self.users.len();
        while i < n
            invariant
                i <= n,
                self@ == init,
                old(self)@ == init,
                n == self@.users.len(),
                uv == (UserView { id: rf@, name: name.deep_view(), email: email@ }),
                record@ == uv,
                user_ref_of(email@) == Some(rf@),
                old(self).wf(),
                forall|j: int| 0 <= j < i ==> self@.users[j].id != uv.id,
            decreases n - i,
        {
            proof {
                assert(self@.users[i as int] == self.users@[i as int]@);
            }
            if str_eq(self.users[i].id.as_str(), record.id.as_str()) {
                proof {
                    assert(self@.users[i as int].id == uv.id);
                    assert(has_user_id(self@.users, uv.id));
                    assert(users_unique(self@.users));
                    let w = user_index(self@.users, uv.id);
                    assert(0 <= w < self@.users.len() && self@.users[w].id == uv.id);
                    assert(w == i as int);
                }
                self.users.set(i, record);
                proof {
                    assert(self@.users =~= init.users.update(i as int, uv));
                    assert(self@.users =~= upsert_user_view(init.users, email@, name.deep_view()));
                    assert(self@.emails =~= init.emails);
                    assert(self@.accounts =~= init.accounts);
                    assert(users_unique(self@.users));
                }
                return Ok(Some(rf));
            }
            i += 1;
        }
        proof {
            assert(!has_user_id(init.users, uv.id));
        }
        self.users.push(record);
        proof {
            assert(self@.users =~= init.users.push(uv));
            assert(self@.users =~= upsert_user_view(init.users, email@, name.deep_view()));
            assert(self@.emails =~= init.emails);
            assert(self@.accounts =~= init.accounts);
            assert forall|a: int, b: int| 0 <= a < b < self@.users.len() implies self@.users[a].id
                != self@.users[b].id by {
                if b == self@.users.len() - 1 {
                    assert(self@.users[a] == init.users[a]);
                }
            }
        }
        Ok(Some(rf))
    }

    /// Point lookup of an identity record by its stable reference.
    pub fn get_user(&self, id: &str) -> (r: Option<User>)
        ensures
            match r {
                Some(u) => exists|i: int|
                    #![auto]
                    0 <= i < self@.users.len() && self@.users[i].id == id@ && u@ == self@.users[i],
                None => !has_user_id(self@.users, id@),
            },
    {
        let n = self.users.len();
        let mut k: usize = 0;
        while k < n
            invariant
                k <= n,
                n == self@.users.len(),
                forall|j: int| 0 <= j < k ==> self@.users[j].id != id@,
            decreases n - k,
        {
            proof {
                assert(self@.users[k as int] == self.users@[k as int]@);
            }
            if str_eq(self.users[k].id.as_str(), id) {
                return Some(self.users[k].clone());
            }
            k += 1;
        }
        None
    }

    /// The position of the first message carrying `id`, if any.
    fn find_email_index(&self, id: &str) -> (r: Option<usize>)
        ensures
            match r {
                Some(i) => i < self@.emails.len() && self@.emails[i as int].id == id@,
                None => !has_email_id(self@.emails, id@),
            },
    {
        let n = self.emails.len();
        let mut k: usize = 0;
        while k < n
            invariant
                k <= n,
                n == self@.emails.len(),
                forall|j: int| 0 <= j < k ==> self@.emails[j].id != id@,
            decreases n - k,
        {
            proof {
                assert(self@.emails[k as int] == self.emails@[k as int]@);
            }
            if str_eq(self.emails[k].id.as_str(), id) {
                return Some(k);
            }
            k += 1;
        }
        None
    }

    /// Persists a new message. Fails, changing nothing, when a message with
    /// the same external identifier is already present.
    pub fn create_email(&mut self, email: &Email) -> (r: Result<Email, DatabaseError>)
        requires
            old(self).wf(),
        ensures
            final(self).wf(),
            final(self)@.accounts == old(self)@.accounts,
            final(self)@.users == old(self)@.users,
            match r {
                Ok(e) => !has_email_id(old(self)@.emails, email@.id) && final(self)@.emails
                    == old(self)@.emails.push(email@) && e@ == email@,
                Err(err) => has_email_id(old(self)@.emails, email@.id) && final(self)@ == old(self)@ && err is Duplicate,
            },
    {
        let ghost init = self@;
        match self.find_email_index(email.id.as_str()) {
            Some(_) => Err(DatabaseError::Duplicate(email.id.clone())),
            None => {
                self.emails.push(email.clone());
                proof {
                    assert(self@.emails =~= init.emails.push(email@));
                    assert(self@.accounts =~= init.accounts);
                    assert(self@.users =~= init.users);
                    assert forall|a: int, b: int|
                        0 <= a < b < self@.emails.len() implies self@.emails[a].id
                        != self@.emails[b].id by {
                        if b == self@.emails.len() - 1 {
                            assert(self@.emails[a] == init.emails[a]);
                        }
                    }
                }
                Ok(email.clone())
            },
        }
    }

    /// Point lookup by external identifier.
    pub fn get_email(&self, id: &str) -> (r: Option<Email>)
        ensures
            match r {
                Some(e) => exists|i: int|
                    #![auto]
                    0 <= i < self@.emails.len() && self@.emails[i].id == id@ && e@
                        == self@.emails[i],
                None => !has_email_id(self@.emails, id@),
            },
    {
        match self.find_email_index(id) {
            Some(i) => {
                proof {
                    assert(self@.emails[i as int] == self.emails@[i as int]@);
                }
                Some(self.emails[i].clone())
            },
            None => None,
        }
    }

    /// Full listing of every stored message, in storage order.
    pub fn get_all_emails(&self) -> (r: Vec<Email>)
        ensures
            r.deep_view() == self@.emails,
    {
        let mut r: Vec<Email> = Vec::new();
        let mut i: usize = 0;
        let n = self.emails.len();
        while i < n
            invariant
                i <= n,
                n == self@.emails.len(),
                r.deep_view() =~= self@.emails.take(i as int),
            decreases n - i,
        {
            let ghost prev = r.deep_view();
            r.push(self.emails[i].clone());
            proof {
                assert(r.deep_view() =~= prev.push(self@.emails[i as int]));
                assert(self@.emails.take(i + 1) =~= self@.emails.take(i as int).push(
                    self@.emails[i as int],
                ));
            }
            i += 1;
        }
        proof {
            assert(r.deep_view() =~= self@.emails);
        }
        r
    }

    /// Replaces the whole record carrying the given message's external
    /// identifier. Fails, changing nothing, when no such record exists.
    pub fn update_email(&mut self, email: &Email) -> (r: Result<Email, DatabaseError>)
        requires
            old(self).wf(),
        ensures
            final(self).wf(),
            final(self)@.accounts == old(self)@.accounts,
            final(self)@.users == old(self)@.users,
            match r {
                Ok(e) => exists|i: int|
                    #![auto]
                    0 <= i < old(self)@.emails.len() && old(self)@.emails[i].id == email@.id
                        && final(self)@.emails == old(self)@.emails.update(i, email@) && e@
                        == email@,
                Err(err) => !has_email_id(old(self)@.emails, email@.id) && final(self)@ == old(self)@ && err is NotFound,
            },
    {
        let ghost init = self@;
        match self.find_email_index(email.id.as_str()) {
            Some(i) => {
                self.emails.set(i, email.clone());
                proof {
                    assert(self@.emails =~= init.emails.update(i as int, email@));
                    assert(self@.accounts =~= init.accounts);
                    assert(self@.users =~= init.users);
                    assert forall|a: int, b: int|
                        0 <= a < b < self@.emails.len() implies self@.emails[a].id
                        != self@.emails[b].id by {
                        assert(init.emails[i as int].id == email@.id);
                    }
                }
                Ok(email.clone())
            },
            None => Err(DatabaseError::NotFound(email.id.clone())),
        }
    }

    /// Removes the message carrying `id`; removing an absent identifier is
    /// not an error and changes nothing.
    pub fn delete_email(&mut self, id: &str) -> (r: Result<(), DatabaseError>)
        requires
            old(self).wf(),
        ensures
            final(self).wf(),
            final(self)@.accounts == old(self)@.accounts,
            final(self)@.users == old(self)@.users,
            r is Ok,
            has_email_id(old(self)@.emails, id@) ==> exists|i: int|
                #![auto]
                0 <= i < old(self)@.emails.len() && old(self)@.emails[i].id == id@ && final(self)@.emails == old(self)@.emails.remove(i),
            !has_email_id(old(self)@.emails, id@) ==> final(self)@ == old(self)@,
    {
        let ghost init = self@;
        match self.find_email_index(id) {
            Some(i) => {
                self.emails.remove(i);
                proof {
                    assert(self@.emails =~= init.emails.remove(i as int));
                    assert(self@.accounts =~= init.accounts);
                    assert(self@.users =~= init.users);
                    assert forall|a: int, b: int|
                        0 <= a < b < self@.emails.len() implies self@.emails[a].id
                        != self@.emails[b].id by {
                        assert(self@.emails[a] == if a < i as int {
                            init.emails[a]
                        } else {
                            init.emails[a + 1]
                        });
                        assert(self@.emails[b] == if b < i as int {
                            init.emails[b]
                        } else {
                            init.emails[b + 1]
                        });
                    }
                }
                Ok(())
            },
            None => Ok(()),
        }
    }

    /// Sets the read flag of the message carrying `id`, touching no other
    /// field; an absent identifier changes nothing.
    pub fn mark_as_read(&mut self, id: &str, read: bool) -> (r: Result<(), DatabaseError>)
        requires
            old(self).wf(),
        ensures
            final(self).wf(),
            final(self)@.accounts == old(self)@.accounts,
            final(self)@.users == old(self)@.users,
            r is Ok,
            has_email_id(old(self)@.emails, id@) ==> exists|i: int|
                #![auto]
                0 <= i < old(self)@.emails.len() && old(self)@.emails[i].id == id@ && final(self)@.emails == old(self)@.emails.update(
                    i,
                    EmailView { read: read, ..old(self)@.emails[i] },
                ),
            !has_email_id(old(self)@.emails, id@) ==> final(self)@ == old(self)@,
    {
        let ghost init = self@;
        match self.find_email_index(id) {
            Some(i) => {
                let mut e = self.emails[i].clone();
                e.read = read;
                self.emails.set(i, e);
                proof {
                    assert(self@.emails =~= init.emails.update(
                        i as int,
                        EmailView { read: read, ..init.emails[i as int] },
                    ));
                    assert(self@.accounts =~= init.accounts);
                    assert(self@.users =~= init.users);
                    assert forall|a: int, b: int|
                        0 <= a < b < self@.emails.len() implies self@.emails[a].id
                        != self@.emails[b].id by {}
                }
                Ok(())
            },
            None => Ok(()),
        }
    }

    /// Sets the starred flag of the message carrying `id`, touching no other
    /// field; an absent identifier changes nothing.
    pub fn toggle_star(&mut self, id: &str, starred: bool) -> (r: Result<(), DatabaseError>)
        requires
            old(self).wf(),
        ensures
            final(self).wf(),
            final(self)@.accounts == old(self)@.accounts,
            final(self)@.users == old(self)@.users,
            r is Ok,
            has_email_id(old(self)@.emails, id@) ==> exists|i: int|
                #![auto]
                0 <= i < old(self)@.emails.len() && old(self)@.emails[i].id == id@ && final(self)@.emails == old(self)@.emails.update(
                    i,
                    EmailView { starred: starred, ..old(self)@.emails[i] },
                ),
            !has_email_id(old(self)@.emails, id@) ==> final(self)@ == old(self)@,
    {
        let ghost init = self@;
        match self.find_email_index(id) {
            Some(i) => {
                let mut e = self.emails[i].clone();
                e.starred = starred;
                self.emails.set(i, e);
                proof {
                    assert(self@.emails =~= init.emails.update(
                        i as int,
                        EmailView { starred: starred, ..init.emails[i as int] },
                    ));
                    assert(self@.accounts =~= init.accounts);
                    assert(self@.users =~= init.users);
                    assert forall|a: int, b: int|
                        0 <= a < b < self@.emails.len() implies self@.emails[a].id
                        != self@.emails[b].id by {}
                }
                Ok(())
            },
            None => Ok(()),
        }
    }

    /// Moves the message carrying `id` to another folder, touching no other
    /// field; an absent identifier changes nothing.
    pub fn move_to_folder(&mut self, id: &str, folder: &str) -> (r: Result<(), DatabaseError>)
        requires
            old(self).wf(),
        ensures
            final(self).wf(),
            final(self)@.accounts == old(self)@.accounts,
            final(self)@.users == old(self)@.users,
            r is Ok,
            has_email_id(old(self)@.emails, id@) ==> exists|i: int|
                #![auto]
                0 <= i < old(self)@.emails.len() && old(self)@.emails[i].id == id@ && final(self)@.emails == old(self)@.emails.update(
                    i,
                    EmailView { folder: folder@, ..old(self)@.emails[i] },
                ),
            !has_email_id(old(self)@.emails, id@) ==> final(self)@ == old(self)@,
    {
        let ghost init = self@;
        match self.find_email_index(id) {
            Some(i) => {
                let mut e = self.emails[i].clone();
                e.folder = String::from_str(folder);
                self.emails.set(i, e);
                proof {
                    assert(self@.emails =~= init.emails.update(
                        i as int,
                        EmailView { folder: folder@, ..init.emails[i as int] },
                    ));
                    assert(self@.accounts =~= init.accounts);
                    assert(self@.users =~= init.users);
                    assert forall|a: int, b: int|
                        0 <= a < b < self@.emails.len() implies self@.emails[a].id
                        != self@.emails[b].id by {}
                }
                Ok(())
            },
            None => Ok(()),
        }
    }

    /// The position of the first account carrying `id`, if any.
    fn find_account_index(&self, id: &str) -> (r: Option<usize>)
        ensures
            match r {
                Some(i) => i < self@.accounts.len() && self@.accounts[i as int].id == id@,
                None => !has_account_id(self@.accounts, id@),
            },
    {
        let n = self.accounts.len();
        let mut k: usize = 0;
        while k < n
            invariant
                k <= n,
                n == self@.accounts.len(),
                forall|j: int| 0 <= j < k ==> self@.accounts[j].id != id@,
            decreases n - k,
        {
            proof {
                assert(self@.accounts[k as int] == self.accounts@[k as int]@);
            }
            if str_eq(self.accounts[k].id.as_str(), id) {
                return Some(k);
            }
            k += 1;
        }
        None
    }

    /// The position of the first account registered for `email`, if any.
    fn find_account_email_index(&self, email: &str) -> (r: Option<usize>)
        ensures
            match r {
                Some(i) => i < self@.accounts.len() && self@.accounts[i as int].email == email@,
                None => !has_account_email(self@.accounts, email@),
            },
    {
        let n = self.accounts.len();
        let mut k: usize = 0;
        while k < n
            invariant
                k <= n,
                n == self@.accounts.len(),
                forall|j: int| 0 <= j < k ==> self@.accounts[j].email != email@,
            decreases n - k,
        {
            proof {
                assert(self@.accounts[k as int] == self.accounts@[k as int]@);
            }
            if str_eq(self.accounts[k].email.as_str(), email) {
                return Some(k);
            }
            k += 1;
        }
        None
    }

    /// Persists a new account profile. Fails, changing nothing, when its
    /// identifier or its mail address is already registered.
    pub fn create_account(&mut self, account: &EmailAccount) -> (r: Result<
        EmailAccount,
        DatabaseError,
    >)
        requires
            old(self).wf(),
        ensures
            final(self).wf(),
            final(self)@.emails == old(self)@.emails,
            final(self)@.users == old(self)@.users,
            match r {
                Ok(a) => !has_account_id(old(self)@.accounts, account@.id) && !has_account_email(
                    old(self)@.accounts,
                    account@.email,
                ) && final(self)@.accounts == old(self)@.accounts.push(account@) && a@ == account@,
                Err(err) => (has_account_id(old(self)@.accounts, account@.id)
                    || has_account_email(old(self)@.accounts, account@.email)) && final(self)@
                    == old(self)@ && err is Duplicate,
            },
    {
        let ghost init = self@;
        if let Some(_) = self.find_account_index(account.id.as_str()) {
            return Err(DatabaseError::Duplicate(account.id.clone()));
        }
        if let Some(_) = self.find_account_email_index(account.email.as_str()) {
            return Err(DatabaseError::Duplicate(account.email.clone()));
        }
        self.accounts.push(account.clone());
        proof {
            assert(self@.accounts =~= init.accounts.push(account@));
            assert(self@.emails =~= init.emails);
            assert(self@.users =~= init.users);
            assert forall|a: int, b: int|
                0 <= a < b < self@.accounts.len() implies self@.accounts[a].id
                != self@.accounts[b].id && self@.accounts[a].email != self@.accounts[b].email by {
                if b == self@.accounts.len() - 1 {
                    assert(self@.accounts[a] == init.accounts[a]);
                }
            }
        }
        Ok(account.clone())
    }

    /// Point lookup of an account by identifier.
    pub fn get_account(&self, id: &str) -> (r: Option<EmailAccount>)
        ensures
            match r {
                Some(a) => exists|i: int|
                    #![auto]
                    0 <= i < self@.accounts.len() && self@.accounts[i].id == id@ && a@
                        == self@.accounts[i],
                None => !has_account_id(self@.accounts, id@),
            },
    {
        match self.find_account_index(id) {
            Some(i) => {
                proof {
                    assert(self@.accounts[i as int] == self.accounts@[i as int]@);
                }
                Some(self.accounts[i].clone())
            },
            None => None,
        }
    }

    /// Point lookup of an account by registered mail address.
    pub fn get_account_by_email(&self, email: &str) -> (r: Option<EmailAccount>)
        ensures
            match r {
                Some(a) => exists|i: int|
                    #![auto]
                    0 <= i < self@.accounts.len() && self@.accounts[i].email == email@ && a@
                        == self@.accounts[i],
                None => !has_account_email(self@.accounts, email@),
            },
    {
        match self.find_account_email_index(email) {
            Some(i) => {
                proof {
                    assert(self@.accounts[i as int] == self.accounts@[i as int]@);
                }
                Some(self.accounts[i].clone())
            },
            None => None,
        }
    }

    /// Full listing of every account, in storage order.
    pub fn get_all_accounts(&self) -> (r: Vec<EmailAccount>)
        ensures
            r.deep_view() == self@.accounts,
    {
        let mut r: Vec<EmailAccount> = Vec::new();
        let mut i: usize = 0;
        let n = self.accounts.len();
        while i < n
            invariant
                i <= n,
                n == self@.accounts.len(),
                r.deep_view() =~= self@.accounts.take(i as int),
            decreases n - i,
        {
            let ghost prev = r.deep_view();
            r.push(self.accounts[i].clone());
            proof {
                assert(r.deep_view() =~= prev.push(self@.accounts[i as int]));
                assert(self@.accounts.take(i + 1) =~= self@.accounts.take(i as int).push(
                    self@.accounts[i as int],
                ));
            }
            i += 1;
        }
        proof {
            assert(r.deep_view() =~= self@.accounts);
        }
        r
    }

    /// Replaces the account carrying the given profile's identifier. Fails,
    /// changing nothing, when no such account exists or when the new mail
    /// address is already registered to a different account.
    pub fn update_account(&mut self, account: &EmailAccount) -> (r: Result<
        EmailAccount,
        DatabaseError,
    >)
        requires
            old(self).wf(),
        ensures
            final(self).wf(),
            final(self)@.emails == old(self)@.emails,
            final(self)@.users == old(self)@.users,
            match r {
                Ok(a) => exists|i: int|
                    #![auto]
                    0 <= i < old(self)@.accounts.len() && old(self)@.accounts[i].id == account@.id
                        && final(self)@.accounts == old(self)@.accounts.update(i, account@) && a@
                        == account@,
                Err(err) => final(self)@ == old(self)@ && (match err {
                    DatabaseError::NotFound(_) => !has_account_id(
                        old(self)@.accounts,
                        account@.id,
                    ),
                    DatabaseError::Duplicate(_) => exists|i: int, j: int|
                        #![auto]
                        0 <= i < old(self)@.accounts.len() && 0 <= j < old(self)@.accounts.len()
                            && i != j && old(self)@.accounts[i].id == account@.id && old(self)@.accounts[j].email == account@.email,
                }),
            },
    {
        let ghost init = self@;
        let i = match self.find_account_index(account.id.as_str()) {
            Some(i) => i,
            None => {
                return Err(DatabaseError::NotFound(account.id.clone()));
            },
        };
        let n = self.accounts.len();
        let mut k: usize = 0;
        while k < n
            invariant
                k <= n,
                self@ == init,
                old(self)@ == init,
                old(self).wf(),
                n == self@.accounts.len(),
                i < n,
                self@.accounts[i as int].id == account@.id,
                forall|j: int| 0 <= j < k ==> j != i ==> self@.accounts[j].email != account@.email,
            decreases n - k,
        {
            proof {
                assert(self@.accounts[k as int] == self.accounts@[k as int]@);
            }
            if k != i && str_eq(self.accounts[k].email.as_str(), account.email.as_str()) {
                return Err(DatabaseError::Duplicate(account.email.clone()));
            }
            k += 1;
        }
        self.accounts.set(i, account.clone());
        proof {
            assert(self@.accounts =~= init.accounts.update(i as int, account@));
            assert(self@.emails =~= init.emails);
            assert(self@.users =~= init.users);
            assert forall|a: int, b: int|
                0 <= a < b < self@.accounts.len() implies self@.accounts[a].id
                != self@.accounts[b].id && self@.accounts[a].email != self@.accounts[b].email by {
                assert(init.accounts[i as int].id == account@.id);
            }
        }
        Ok(account.clone())
    }

    /// Removes the account carrying `id` and, cascading, every message whose
    /// account reference equals that identifier; messages of other accounts
    /// are untouched. Removing an absent account still cascades (to nothing)
    /// and is not an error.
    pub fn delete_account(&mut self, id: &str) -> (r: Result<(), DatabaseError>)
        requires
            old(self).wf(),
        ensures
            final(self).wf(),
            final(self)@.users == old(self)@.users,
            r is Ok,
            final(self)@.emails == old(self)@.emails.filter(
                |e: EmailView| e.account_id != Some(id@),
            ),
            has_account_id(old(self)@.accounts, id@) ==> exists|i: int|
                #![auto]
                0 <= i < old(self)@.accounts.len() && old(self)@.accounts[i].id == id@ && final(self)@.accounts == old(self)@.accounts.remove(i),
            !has_account_id(old(self)@.accounts, id@) ==> final(self)@.accounts == old(self)@.accounts,
    {
        let ghost init = self@;
        let ghost pred = |e: EmailView| e.account_id != Some(id@);
        let mut kept: Vec<Email> = Vec::new();
        let mut i: usize = 0;
        let n = self.emails.len();
        while i < n
            invariant
                i <= n,
                self@ == init,
                old(self)@ == init,
                old(self).wf(),
                n == self@.emails.len(),
                pred == (|e: EmailView| e.account_id != Some(id@)),
                kept.deep_view() =~= init.emails.take(i as int).filter(pred),
            decreases n - i,
        {
            proof {
                assert(self@.emails[i as int] == self.emails@[i as int]@);
            }
            let keep = match &self.emails[i].account_id {
                Some(a) => !str_eq(a.as_str(), id),
                None => true,
            };
            proof {
                assert(keep == pred(init.emails[i as int]));
                lemma_filter_take_step(init.emails, pred, i as int);
            }
            if keep {
                let ghost prev = kept.deep_view();
                kept.push(self.emails[i].clone());
                proof {
                    assert(kept.deep_view() =~= prev.push(init.emails[i as int]));
                }
            }
            i += 1;
        }
        proof {
            assert(init.emails.take(n as int) =~= init.emails);
        }
        self.emails = kept;
        let ghost mid = self@;
        proof {
            assert(mid.emails == init.emails.filter(pred));
            assert(mid.accounts =~= init.accounts);
            assert(mid.users =~= init.users);
            assert forall|a: int, b: int|
                0 <= a < b < mid.emails.len() implies mid.emails[a].id != mid.emails[b].id by {
                lemma_filter_unique_ids(init.emails, pred, a, b);
            }
        }
        match self.find_account_index(id) {
            Some(i) => {
                self.accounts.remove(i);
                proof {
                    assert(self@.accounts =~= mid.accounts.remove(i as int));
                    assert(self@.emails =~= mid.emails);
                    assert(self@.users =~= mid.users);
                    assert forall|a: int, b: int|
                        0 <= a < b < self@.accounts.len() implies self@.accounts[a].id
                        != self@.accounts[b].id && self@.accounts[a].email
                        != self@.accounts[b].email by {
                        assert(self@.accounts[a] == if a < i as int {
                            mid.accounts[a]
                        } else {
                            mid.accounts[a + 1]
                        });
                        assert(self@.accounts[b] == if b < i as int {
                            mid.accounts[b]
                        } else {
                            mid.accounts[b + 1]
                        });
                    }
                }
                Ok(())
            },
            None => Ok(()),
        }
    }

    /// Every message filed in `folder`, ordered by timestamp descending.
    pub fn get_emails_by_folder(&self, folder: &str) -> (r: Vec<Email>)
        ensures
            r.deep_view().to_multiset() == self@.emails.filter(
                |e: EmailView| e.folder == folder@,
            ).to_multiset(),
            sorted_by_date_desc(r.deep_view()),
    {
        let ghost pred = |e: EmailView| e.folder == folder@;
        let mut kept: Vec<Email> = Vec::new();
        let mut i: usize = 0;
        let n = self.emails.len();
        while i < n
            invariant
                i <= n,
                n == self@.emails.len(),
                pred == (|e: EmailView| e.folder == folder@),
                kept.deep_view() =~= self@.emails.take(i as int).filter(pred),
            decreases n - i,
        {
            proof {
                assert(self@.emails[i as int] == self.emails@[i as int]@);
                lemma_filter_take_step(self@.emails, pred, i as int);
            }
            if str_eq(self.emails[i].folder.as_str(), folder) {
                let ghost prev = kept.deep_view();
                kept.push(self.emails[i].clone());
                proof {
                    assert(kept.deep_view() =~= prev.push(self@.emails[i as int]));
                }
            }
            i += 1;
        }
        proof {
            assert(self@.emails.take(n as int) =~= self@.emails);
        }
        sort_emails_desc(kept)
    }

    /// Case-insensitive substring search over subject, body and sender,
    /// ordered by timestamp descending.
    pub fn search_emails(&self, query: &str) -> (r: Vec<Email>)
        ensures
            r.deep_view().to_multiset() == self@.emails.filter(
                |e: EmailView| matches_query(e, query@),
            ).to_multiset(),
            sorted_by_date_desc(r.deep_view()),
    {
        let ghost pred = |e: EmailView| matches_query(e, query@);
        let mut kept: Vec<Email> = Vec::new();
        let mut i: usize = 0;
        let n = self.emails.len();
        while i < n
            invariant
                i <= n,
                n == self@.emails.len(),
                pred == (|e: EmailView| matches_query(e, query@)),
                kept.deep_view() =~= self@.emails.take(i as int).filter(pred),
            decreases n - i,
        {
            proof {
                assert(self@.emails[i as int] == self.emails@[i as int]@);
                lemma_filter_take_step(self@.emails, pred, i as int);
            }
            let e = &self.emails[i];
            let hit = contains_ci(e.subject.as_str(), query) || contains_ci(
                e.body.as_str(),
                query,
            ) || contains_ci(e.from.email.as_str(), query) || contains_ci(
                e.from.name.as_str(),
                query,
            );
            proof {
                assert(hit == pred(self@.emails[i as int]));
            }
            if hit {
                let ghost prev = kept.deep_view();
                kept.push(self.emails[i].clone());
                proof {
                    assert(kept.deep_view() =~= prev.push(self@.emails[i as int]));
                }
            }
            i += 1;
        }
        proof {
            assert(self@.emails.take(n as int) =~= self@.emails);
        }
        sort_emails_desc(kept)
    }

    /// How many unread messages sit in `folder`.
    pub fn get_unread_count(&self, folder: &str) -> (r: i64)
        requires
            self@.emails.len() < 0x8000000000000000,
        ensures
            r == self@.emails.filter(
                |e: EmailView| e.folder == folder@ && !e.read,
            ).len(),
    {
        let ghost pred = |e: EmailView| e.folder == folder@ && !e.read;
        let mut count: u64 = 0;
        let mut i: usize = 0;
        let n = self.emails.len();
        while i < n
            invariant
                i <= n,
                n == self@.emails.len(),
                pred == (|e: EmailView| e.folder == folder@ && !e.read),
                count == self@.emails.take(i as int).filter(pred).len(),
                count <= i,
            decreases n - i,
        {
            proof {
                assert(self@.emails[i as int] == self.emails@[i as int]@);
                lemma_filter_take_step(self@.emails, pred, i as int);
            }
            let e = &self.emails[i];
            if str_eq(e.folder.as_str(), folder) && !e.read {
                count += 1;
            }
            i += 1;
        }
        proof {
            assert(self@.emails.take(n as int) =~= self@.emails);
        }
        count as i64
    }

    /// How many messages sit in `folder`.
    pub fn get_folder_count(&self, folder: &str) -> (r: i64)
        requires
            self@.emails.len() < 0x8000000000000000,
        ensures
            r == self@.emails.filter(|e: EmailView| e.folder == folder@).len(),
    {
        let ghost pred = |e: EmailView| e.folder == folder@;
        let mut count: u64 = 0;
        let mut i: usize = 0;
        let n = self.emails.len();
        while i < n
            invariant
                i <= n,
                n == self@.emails.len(),
                pred == (|e: EmailView| e.folder == folder@),
                count == self@.emails.take(i as int).filter(pred).len(),
                count <= i,
            decreases n - i,
        {
            proof {
                assert(self@.emails[i as int] == self.emails@[i as int]@);
                lemma_filter_take_step(self@.emails, pred, i as int);
            }
            if str_eq(self.emails[i].folder.as_str(), folder) {
                count += 1;
            }
            i += 1;
        }
        proof {
            assert(self@.emails.take(n as int) =~= self@.emails);
        }
        count as i64
    }
}

/// Sorts messages by timestamp text, most recent first, by repeatedly
/// extracting a maximal element.
fn sort_emails_desc(v: Vec<Email>) -> (r: Vec<Email>)
    ensures
        r.deep_view().to_multiset() == v.deep_view().to_multiset(),
        sorted_by_date_desc(r.deep_view()),
{
    let ghost orig = v.deep_view();
    let mut src = v;
    let mut out: Vec<Email> = Vec::new();
    proof {
        assert(out.deep_view() =~= Seq::<EmailView>::empty());
        assert(out.deep_view().to_multiset().add(src.deep_view().to_multiset()) =~=
            orig.to_multiset());
    }
    while src.len() > 0
        invariant
            out.deep_view().to_multiset().add(src.deep_view().to_multiset()) == orig.to_multiset(),
            sorted_by_date_desc(out.deep_view()),
            forall|a: int, k: int|
                #![trigger out.deep_view()[a], src.deep_view()[k]]
                0 <= a < out.deep_view().len() && 0 <= k < src.deep_view().len() ==> seq_le(
                    src.deep_view()[k].date,
                    out.deep_view()[a].date,
                ),
        decreases src.len(),
    {
        let mut best: usize = 0;
        let mut k: usize = 1;
        proof {
            lemma_seq_le_total(src.deep_view()[0].date, src.deep_view()[0].date);
        }
        while k < src.len()
            invariant
                best < k <= src.len(),
                src.len() == src.deep_view().len(),
                forall|j: int|
                    0 <= j < k ==> seq_le(
                        #[trigger] src.deep_view()[j].date,
                        src.deep_view()[best as int].date,
                    ),
            decreases src.len() - k,
        {
            proof {
                assert(src.deep_view()[best as int].date == src@[best as int]@.date);
                assert(src.deep_view()[k as int].date == src@[k as int]@.date);
            }
            if str_le(src[best].date.as_str(), src[k].date.as_str()) {
                proof {
                    let dv = src.deep_view();
                    lemma_seq_le_total(dv[k as int].date, dv[k as int].date);
                    assert forall|j: int| 0 <= j < k + 1 implies seq_le(
                        #[trigger] dv[j].date,
                        dv[k as int].date,
                    ) by {
                        if j < k {
                            lemma_seq_le_trans(dv[j].date, dv[best as int].date, dv[k as int].date);
                        }
                    }
                }
                best = k;
            } else {
                proof {
                    lemma_seq_le_total(
                        src.deep_view()[best as int].date,
                        src.deep_view()[k as int].date,
                    );
                }
            }
            k += 1;
        }
        let ghost src_prev = src.deep_view();
        let ghost out_prev = out.deep_view();
        let m = src.remove(best);
        out.push(m);
        proof {
            assert(m@ == src_prev[best as int]);
            assert(src.deep_view() =~= src_prev.remove(best as int));
            assert(out.deep_view() =~= out_prev.push(m@));
            assert(out.deep_view().to_multiset() =~= out_prev.to_multiset().insert(m@));
            assert(src.deep_view().to_multiset() =~= src_prev.to_multiset().remove(m@));
            assert(out.deep_view().to_multiset().add(src.deep_view().to_multiset()) =~=
                orig.to_multiset());
            assert forall|a: int, b: int|
                0 <= a <= b < out.deep_view().len() implies seq_le(
                    out.deep_view()[b].date,
                    out.deep_view()[a].date,
                ) by {
                if b == out.deep_view().len() - 1 && a < b {
                    assert(seq_le(m@.date, out_prev[a].date));
                }
            }
            assert forall|a: int, k2: int|
                #![trigger out.deep_view()[a], src.deep_view()[k2]]
                0 <= a < out.deep_view().len() && 0 <= k2 < src.deep_view().len() implies seq_le(
                    src.deep_view()[k2].date,
                    out.deep_view()[a].date,
                ) by {
                let prev_k = if k2 < best as int {
                    k2
                } else {
                    k2 + 1
                };
                assert(src.deep_view()[k2] == src_prev[prev_k]);
                assert(seq_le(src_prev[prev_k].date, m@.date));
                if a < out.deep_view().len() - 1 {
                    lemma_seq_le_trans(src_prev[prev_k].date, m@.date, out_prev[a].date);
                }
            }
        }
    }
    proof {
        assert(src.deep_view().len() == 0);
        assert(src.deep_view().to_multiset().len() == 0);
        assert(src.deep_view().to_multiset() =~= Multiset::<EmailView>::empty());
        assert(out.deep_view().to_multiset() =~= orig.to_multiset());
    }
    out
}

/// Distinct positions of a filtered sequence with pairwise-distinct message
/// identifiers still hold distinct identifiers.
proof fn lemma_filter_unique_ids(
    s: Seq<EmailView>,
    pred: spec_fn(EmailView) -> bool,
    a: int,
    b: int,
)
    requires
        emails_unique(s),
        0 <= a < b < s.filter(pred).len(),
    ensures
        s.filter(pred)[a].id != s.filter(pred)[b].id,
    decreases s.len(),
{
    reveal(Seq::filter);
    if s.len() > 0 {
        let f = s.filter(pred);
        let fsub = s.drop_last().filter(pred);
        assert(emails_unique(s.drop_last()));
        if pred(s.last()) {
            if b < f.len() - 1 {
                lemma_filter_unique_ids(s.drop_last(), pred, a, b);
            } else {
                assert(f[b] == s.last());
                lemma_filter_member_of_prefix(s.drop_last(), pred, a);
            }
        } else {
            lemma_filter_unique_ids(s.drop_last(), pred, a, b);
        }
    }
}

/// Every element of a filtered sequence occurs in the underlying sequence.
proof fn lemma_filter_member_of_prefix(s: Seq<EmailView>, pred: spec_fn(EmailView) -> bool, a: int)
    requires
        0 <= a < s.filter(pred).len(),
    ensures
        exists|j: int| 0 <= j < s.len() && s[j] == s.filter(pred)[a],
    decreases s.len(),
{
    reveal(Seq::filter);
    if s.len() > 0 {
        let f = s.filter(pred);
        let fsub = s.drop_last().filter(pred);
        if pred(s.last()) && a == f.len() - 1 {
            assert(s[s.len() - 1] == f[a]);
        } else {
            lemma_filter_member_of_prefix(s.drop_last(), pred, a);
            let j = choose|j: int| 0 <= j < s.drop_last().len() && s.drop_last()[j] == fsub[a];
            assert(s[j] == f[a]);
        }
    }
}

} // verus!
