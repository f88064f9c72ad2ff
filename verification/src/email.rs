//! Mail transport adapter: decoding fetched wire-format messages into
//! canonical records — MIME body location, header and address-list parsing,
//! date-format fallback — and the bound on how many messages a fetch takes.

use vstd::prelude::*;
use vstd::string::StringExecFns;
use crate::models::{Email, EmailView, EmailAddress, AddressView, EmailAccount, AccountView};
use crate::text::{
    lower_seq, trim_seq, trim_text, eq_ci, dec_rep, u32_to_string,
};
use crate::sys::{rfc3339_of, format_timestamp};

verus! {

/// A transport failure, by kind: connectivity, authentication, protocol and
/// content-parsing failures are distinct so callers can react to each.
#[derive(Debug)]
pub enum EmailError {
    ImapError(String),
    SmtpError(String),
    ParseError(String),
    ConnectionError(String),
    AuthError(String),
}

impl EmailError {
    /// The display string for this failure, with its kind spelled out.
    pub open spec fn spec_message(&self) -> Seq<char> {
        match self {
            EmailError::ImapError(s) => "IMAP error: "@ + s@,
            EmailError::SmtpError(s) => "SMTP error: "@ + s@,
            EmailError::ParseError(s) => "Parse error: "@ + s@,
            EmailError::ConnectionError(s) => "Connection error: "@ + s@,
            EmailError::AuthError(s) => "Authentication error: "@ + s@,
        }
    }

    /// The display string for this failure, as the outer boundary renders it.
    pub fn message(&self) -> (r: String)
        ensures
            r@ == self.spec_message(),
    {
        match self {
            EmailError::ImapError(s) => String::from_str("IMAP error: ").concat(s.as_str()),
            EmailError::SmtpError(s) => String::from_str("SMTP error: ").concat(s.as_str()),
            EmailError::ParseError(s) => String::from_str("Parse error: ").concat(s.as_str()),
            EmailError::ConnectionError(s) => String::from_str("Connection error: ").concat(
                s.as_str(),
            ),
            EmailError::AuthError(s) => String::from_str("Authentication error: ").concat(
                s.as_str(),
            ),
        }
    }
}

/// A mail client bound to one account's connection profile. The network
/// operations themselves run outside this crate; the decoding they feed is
/// here.
pub struct EmailClient {
    account: EmailAccount,
}

impl View for EmailClient {
    type V = AccountView;

    closed spec fn view(&self) -> AccountView {
        self.account@
    }
}

impl EmailClient {
    /// Binds a client to an account.
    pub fn new(account: EmailAccount) -> (r: EmailClient)
        ensures
            r@ == account@,
    {
        EmailClient { account }
    }

    /// The account this client is bound to.
    pub fn account(&self) -> (r: &EmailAccount)
        ensures
            r@ == self@,
    {
        &self.account
    }

    /// Decodes one downloaded folder's worth of wire-format messages into
    /// canonical records, in order. This is the fetch cycle once the network
    /// is done: the caller connects, selects `folder`, downloads the
    /// messages picked by [`select_recent_uids`], and hands them here with
    /// their seen flags. One unparseable message fails the whole fetch;
    /// `fallback_date` stands in for absent or malformed `Date` headers.
    pub fn fetch_emails(&self, folder: &str, messages: Vec<RawMessage>, fallback_date: &str) -> (r:
        Result<Vec<Email>, EmailError>)
        ensures
            match r {
                Ok(v) => {
                    &&& v.deep_view().len() == messages.deep_view().len()
                    &&& forall|k: int|
                        #![trigger messages.deep_view()[k]]
                        0 <= k < messages.deep_view().len() ==> parsed_message(
                            messages.deep_view()[k].raw,
                        ) is Some && v.deep_view()[k] == spec_decoded(
                            parsed_message(messages.deep_view()[k].raw).unwrap(),
                            self@.id,
                            folder@,
                            messages.deep_view()[k].uid,
                            messages.deep_view()[k].seen,
                            fallback_date@,
                        )
                },
                Err(e) => e is ParseError && exists|k: int|
                    #![trigger messages.deep_view()[k]]
                    0 <= k < messages.deep_view().len() && parsed_message(
                        messages.deep_view()[k].raw,
                    ) is None,
            },
    {
        let mut out: Vec<Email> = Vec::new();
        let mut i: usize = 0;
        let n = messages.len();
        while i < n
            invariant
                i <= n,
                n == messages.deep_view().len(),
                out.deep_view().len() == i,
                forall|k: int|
                    #![trigger messages.deep_view()[k]]
                    0 <= k < i ==> parsed_message(messages.deep_view()[k].raw) is Some
                        && out.deep_view()[k] == spec_decoded(
                        parsed_message(messages.deep_view()[k].raw).unwrap(),
                        self@.id,
                        folder@,
                        messages.deep_view()[k].uid,
                        messages.deep_view()[k].seen,
                        fallback_date@,
                    ),
            decreases n - i,
        {
            let m = &messages[i];
            proof {
                assert(messages.deep_view()[i as int] == messages@[i as int]@);
            }
            match decode_message(
                self.account.id.as_str(),
                folder,
                m.uid,
                m.seen,
                m.raw.as_slice(),
                fallback_date,
            ) {
                Ok(email) => {
                    let ghost prev = out.deep_view();
                    let ghost ev = email@;
                    out.push(email);
                    proof {
                        assert(out.deep_view() =~= prev.push(ev));
                        assert(self.account.id@ == self@.id);
                        assert(parsed_message(messages.deep_view()[i as int].raw) is Some);
                        assert(out.deep_view()[i as int] == spec_decoded(
                            parsed_message(messages.deep_view()[i as int].raw).unwrap(),
                            self@.id,
                            folder@,
                            messages.deep_view()[i as int].uid,
                            messages.deep_view()[i as int].seen,
                            fallback_date@,
                        ));
                        assert forall|k: int|
                            #![trigger messages.deep_view()[k]]
                        0 <= k < i + 1 implies parsed_message(
                            messages.deep_view()[k].raw,
                        ) is Some && out.deep_view()[k] == spec_decoded(
                            parsed_message(messages.deep_view()[k].raw).unwrap(),
                            self@.id,
                            folder@,
                            messages.deep_view()[k].uid,
                            messages.deep_view()[k].seen,
                            fallback_date@,
                        ) by {
                            if k < i {
                                assert(out.deep_view()[k] == prev[k]);
                            }
                        }
                    }
                },
                Err(e) => {
                    proof {
                        assert(parsed_message(messages.deep_view()[i as int].raw) is None);
                    }
                    return Err(e);
                },
            }
            i += 1;
        }
        Ok(out)
    }

    /// Propagating read flags back to the remote mailbox is not yet wired
    /// up; the local store is authoritative meanwhile.
    pub fn set_read_flag(&self, _uid: &str, _read: bool) -> (r: Result<(), EmailError>)
        ensures
            r is Ok,
    {
        Ok(())
    }

    /// Deleting on the remote mailbox is not yet wired up; the local store
    /// is authoritative meanwhile.
    pub fn delete_email(&self, _uid: &str) -> (r: Result<(), EmailError>)
        ensures
            r is Ok,
    {
        Ok(())
    }
}

/// One message as the wire handed it over: its protocol identifier, its
/// seen flag, and its raw bytes.
pub struct RawMessage {
    pub uid: u32,
    pub seen: bool,
    pub raw: Vec<u8>,
}

/// Mathematical value of a [`RawMessage`].
#[verifier::ext_equal]
pub struct RawMessageView {
    pub uid: u32,
    pub seen: bool,
    pub raw: Seq<u8>,
}

impl View for RawMessage {
    type V = RawMessageView;

    open spec fn view(&self) -> RawMessageView {
        RawMessageView { uid: self.uid, seen: self.seen, raw: self.raw@ }
    }
}

impl DeepView for RawMessage {
    type V = RawMessageView;

    open spec fn deep_view(&self) -> RawMessageView {
        self@
    }
}

/// One message header: a field name and its decoded value.
#[derive(Debug)]
pub struct Header {
    pub name: String,
    pub value: String,
}

/// Mathematical value of a [`Header`].
#[verifier::ext_equal]
pub struct HeaderView {
    pub name: Seq<char>,
    pub value: Seq<char>,
}

impl View for Header {
    type V = HeaderView;

    open spec fn view(&self) -> HeaderView {
        HeaderView { name: self.name@, value: self.value@ }
    }
}

impl DeepView for Header {
    type V = HeaderView;

    open spec fn deep_view(&self) -> HeaderView {
        self@
    }
}

/// One node of a decoded MIME tree: its media type, its decoded body, and
/// its nested parts in order.
#[derive(Debug)]
pub struct MimePart {
    pub mime_type: String,
    pub body: String,
    pub parts: Vec<MimePart>,
}

/// A fetched message after MIME decoding: the top-level headers and the root
/// of the part tree.
pub struct ParsedMessage {
    pub headers: Vec<Header>,
    pub root: MimePart,
}

/// The value of the first header named `name` (case-insensitively), trimmed;
/// `None` when no such header exists.
pub open spec fn spec_header_value(hs: Seq<HeaderView>, name: Seq<char>) -> Option<Seq<char>>
    decreases hs.len(),
{
    if hs.len() == 0 {
        None
    } else if lower_seq(hs[0].name) == lower_seq(name) {
        Some(trim_seq(hs[0].value))
    } else {
        spec_header_value(hs.drop_first(), name)
    }
}

/// The body of the first part (depth-first, pre-order) whose media type
/// matches `mime` case-insensitively; `None` when no part matches.
pub open spec fn spec_find_body(p: MimePart, mime: Seq<char>) -> Option<Seq<char>>
    decreases p, 1int, 0int,
{
    if lower_seq(p.mime_type@) == lower_seq(mime) {
        Some(p.body@)
    } else {
        spec_find_in_parts(p, mime, 0)
    }
}

/// The first match for `mime` among the children of `p` from index `i` on,
/// each searched depth-first.
pub open spec fn spec_find_in_parts(p: MimePart, mime: Seq<char>, i: int) -> Option<Seq<char>>
    decreases p, 0int, p.parts@.len() - i,
{
    if i < 0 || i >= p.parts@.len() {
        None
    } else {
        match spec_find_body(p.parts@[i], mime) {
            Some(b) => Some(b),
            None => spec_find_in_parts(p, mime, i + 1),
        }
    }
}

/// The value of the first header named `name` (case-insensitively), trimmed.
pub fn header_value(headers: &Vec<Header>, name: &str) -> (r: Option<String>)
    ensures
        r.deep_view() == spec_header_value(headers.deep_view(), name@),
{
    let n = headers.len();
    let mut i: usize = 0;
    proof {
        assert(headers.deep_view().skip(0) =~= headers.deep_view());
    }
    while i < n
        invariant
            i <= n,
            n == headers.deep_view().len(),
            spec_header_value(headers.deep_view(), name@) == spec_header_value(
                headers.deep_view().skip(i as int),
                name@,
            ),
        decreases n - i,
    {
        proof {
            assert(headers.deep_view()[i as int] == headers@[i as int]@);
            assert(headers.deep_view().skip(i as int)[0] == headers.deep_view()[i as int]);
        }
        if eq_ci(headers[i].name.as_str(), name) {
            return Some(trim_text(headers[i].value.as_str()));
        }
        proof {
            assert(headers.deep_view().skip(i as int).drop_first() =~= headers.deep_view().skip(
                i + 1,
            ));
        }
        i += 1;
    }
    proof {
        assert(headers.deep_view().skip(n as int).len() == 0);
    }
    None
}

/// Locates the first `text/plain` or `text/html` (or any other type) part
/// in a MIME tree, depth-first, first match wins.
pub fn find_body(part: &MimePart, mime: &str) -> (r: Option<String>)
    ensures
        r.deep_view() == spec_find_body(*part, mime@),
    decreases *part,
{
    if eq_ci(part.mime_type.as_str(), mime) {
        return Some(part.body.clone());
    }
    let n = part.parts.len();
    let mut i: usize = 0;
    while i < n
        invariant
            i <= n,
            n == part.parts@.len(),
            lower_seq(part.mime_type@) != lower_seq(mime@),
            spec_find_in_parts(*part, mime@, 0) == spec_find_in_parts(*part, mime@, i as int),
        decreases n - i,
    {
        proof {
            assert(decreases_to!(*part => part.parts@[i as int]));
        }
        let sub = find_body(&part.parts[i], mime);
        match sub {
            Some(b) => {
                proof {
                    assert(spec_find_in_parts(*part, mime@, i as int) == Some(b@));
                }
                return Some(b);
            },
            None => {},
        }
        i += 1;
    }
    None
}

/// Ascending order on protocol identifiers.
pub open spec fn sorted_asc(s: Seq<u32>) -> bool {
    forall|i: int, j: int| 0 <= i <= j < s.len() ==> s[i] <= s[j]
}

/// Inserts an identifier into an ascending sequence, before the first
/// element it does not exceed.
pub open spec fn insert_sorted(x: u32, s: Seq<u32>) -> Seq<u32>
    decreases s.len(),
{
    if s.len() == 0 {
        seq![x]
    } else if x <= s[0] {
        seq![x] + s
    } else {
        seq![s[0]] + insert_sorted(x, s.drop_first())
    }
}

/// The ascending sort of a sequence of identifiers, as a left fold of
/// [`insert_sorted`].
pub open spec fn sort_asc(s: Seq<u32>) -> Seq<u32>
    decreases s.len(),
{
    if s.len() == 0 {
        s
    } else {
        insert_sorted(s.last(), sort_asc(s.drop_last()))
    }
}

/// The most recent identifiers a fetch takes: all of them sorted ascending,
/// then only the last `max(limit, 1)` kept.
pub open spec fn recent_uids(uids: Seq<u32>, limit: u32) -> Seq<u32> {
    let s = sort_asc(uids);
    let lim: int = if limit == 0 {
        1
    } else {
        limit as int
    };
    if s.len() <= lim {
        s
    } else {
        s.skip(s.len() - lim)
    }
}

proof fn lemma_insert_sorted_at(s: Seq<u32>, x: u32, p: int)
    requires
        0 <= p <= s.len(),
        forall|j: int| 0 <= j < p ==> s[j] < x,
        p == s.len() || x <= s[p],
    ensures
        insert_sorted(x, s) == s.insert(p, x),
    decreases s.len(),
{
    if p == 0 {
        if s.len() == 0 {
            assert(insert_sorted(x, s) =~= s.insert(0, x));
        } else {
            assert(seq![x] + s =~= s.insert(0, x));
        }
    } else {
        assert(s[0] < x);
        lemma_insert_sorted_at(s.drop_first(), x, p - 1);
        assert(seq![s[0]] + s.drop_first().insert(p - 1, x) =~= s.insert(p, x));
    }
}

/// [`insert_sorted`] keeps the sequence ascending, keeps every element, and
/// grows it by one.
pub proof fn lemma_insert_sorted_ensures(x: u32, s: Seq<u32>)
    requires
        sorted_asc(s),
    ensures
        sorted_asc(insert_sorted(x, s)),
        insert_sorted(x, s).to_multiset() == s.to_multiset().insert(x),
        insert_sorted(x, s).len() == s.len() + 1,
    decreases s.len(),
{
    broadcast use vstd::seq_lib::group_to_multiset_ensures, vstd::multiset::group_multiset_axioms;

    if s.len() == 0 {
        assert(seq![x] =~= Seq::<u32>::empty().push(x));
        assert(seq![x].to_multiset() =~= s.to_multiset().insert(x));
    } else if x <= s[0] {
        assert(seq![x] + s =~= s.insert(0, x));
        assert(s.insert(0, x).remove(0) =~= s);
        assert(s.insert(0, x).to_multiset() =~= s.to_multiset().insert(x));
    } else {
        assert(sorted_asc(s.drop_first()));
        lemma_insert_sorted_ensures(x, s.drop_first());
        let t = insert_sorted(x, s.drop_first());
        let r = seq![s[0]] + t;
        assert forall|i: int, j: int| 0 <= i <= j < r.len() implies r[i] <= r[j] by {
            if i == 0 && j > 0 {
                let y = t[j - 1];
                if t.to_multiset().count(y) > 0 {
                }
                assert(t.to_multiset().contains(y));
                if s.drop_first().to_multiset().contains(y) {
                    let k = choose|k: int|
                        0 <= k < s.drop_first().len() && s.drop_first()[k] == y;
                    assert(s[0] <= s[k + 1]);
                } else {
                    assert(y == x);
                }
            }
        }
        assert(r =~= t.insert(0, s[0]));
        assert(t.insert(0, s[0]).remove(0) =~= t);
        assert(r.to_multiset() =~= t.to_multiset().insert(s[0]));
        assert(s =~= s.drop_first().insert(0, s[0]));
        assert(s.drop_first().insert(0, s[0]).remove(0) =~= s.drop_first());
        assert(s.to_multiset() =~= s.drop_first().to_multiset().insert(s[0]));
        assert(r.to_multiset() =~= s.to_multiset().insert(x));
    }
}

/// [`sort_asc`] is ascending and keeps exactly the original identifiers.
pub proof fn lemma_sort_asc_ensures(s: Seq<u32>)
    ensures
        sorted_asc(sort_asc(s)),
        sort_asc(s).to_multiset() == s.to_multiset(),
        sort_asc(s).len() == s.len(),
    decreases s.len(),
{
    broadcast use vstd::seq_lib::group_to_multiset_ensures, vstd::multiset::group_multiset_axioms;

    if s.len() > 0 {
        lemma_sort_asc_ensures(s.drop_last());
        lemma_insert_sorted_ensures(s.last(), sort_asc(s.drop_last()));
        assert(s =~= s.drop_last().push(s.last()));
        assert(s.drop_last().push(s.last()).to_multiset() =~= s.drop_last().to_multiset().insert(
            s.last(),
        ));
    }
}

/// Keeps only the most recent `max(limit, 1)` messages of a folder: sorts
/// the protocol identifiers ascending and takes the final run.
pub fn select_recent_uids(uids: Vec<u32>, limit: u32) -> (r: Vec<u32>)
    ensures
        r@ == recent_uids(uids@, limit),
{
    let mut sorted: Vec<u32> = Vec::new();
    let mut i: usize = 0;
    let n = uids.len();
    proof {
        assert(uids@.take(0) =~= Seq::<u32>::empty());
    }
    while i < n
        invariant
            i <= n,
            n == uids@.len(),
            sorted@ == sort_asc(uids@.take(i as int)),
        decreases n - i,
    {
        let x = uids[i];
        let mut p: usize = 0;
        while p < sorted.len() && sorted[p] < x
            invariant
                p <= sorted@.len(),
                forall|j: int| 0 <= j < p ==> sorted@[j] < x,
            decreases sorted@.len() - p,
        {
            p += 1;
        }
        let ghost prev = sorted@;
        sorted.insert(p, x);
        proof {
            lemma_insert_sorted_at(prev, x, p as int);
            assert(uids@.take(i + 1).drop_last() =~= uids@.take(i as int));
            assert(uids@.take(i + 1).last() == uids@[i as int]);
        }
        i += 1;
    }
    proof {
        assert(uids@.take(n as int) =~= uids@);
    }
    let len = sorted.len();
    let lim: usize = if limit == 0 {
        1
    } else {
        limit as usize
    };
    let start: usize = if lim >= len {
        0
    } else {
        len - lim
    };
    let mut head = sorted;
    let tail = head.split_off(start);
    proof {
        if start == 0 {
            assert(tail@ =~= recent_uids(uids@, limit));
        } else {
            assert(tail@ =~= recent_uids(uids@, limit));
        }
    }
    tail
}

/// Names what mailparse's `parse_mail` decodes from raw message bytes: the
/// top-level headers (names and RFC 2047-decoded values) and the MIME part
/// tree with each part's media type and decoded body; it depends on the
/// bytes alone, and is `None` when the bytes are not a parseable message.
pub uninterp spec fn parsed_message(raw: Seq<u8>) -> Option<ParsedMessage>;

/// Relies on mailparse's `parse_mail`: decodes raw bytes into the header
/// list and MIME part tree named by [`parsed_message`].
#[verifier::external_body]
fn parse_message(raw: &[u8]) -> (r: Option<ParsedMessage>)
    ensures
        r == parsed_message(raw@),
{
    match mailparse::parse_mail(raw) {
        Ok(m) => Some(ParsedMessage {
            headers: m.headers.iter().map(
                |h| Header { name: h.get_key(), value: h.get_value() },
            ).collect(),
            root: convert_part(&m),
        }),
        Err(_) => None,
    }
}

/// Helper of [`parse_message`]: relies on mailparse's `ParsedMail` accessors
/// (`ctype.mimetype`, `get_body`, `subparts`) to rebuild the part tree it
/// decoded, node for node.
#[verifier::external_body]
fn convert_part(p: &mailparse::ParsedMail<'_>) -> MimePart {
    MimePart {
        mime_type: p.ctype.mimetype.clone(),
        body: p.get_body().unwrap_or_default(),
        parts: p.subparts.iter().map(|s| convert_part(s)).collect(),
    }
}

#[verifier::external_type_specification]
#[verifier::external_body]
pub struct ExParsedMail<'a>(mailparse::ParsedMail<'a>);

/// Names what mailparse's `addrparse` reads from an address-list header
/// value: the display name and address of each mailbox, groups flattened in
/// order; it depends on the text alone, and is `None` when the text is not
/// an address list.
pub uninterp spec fn parsed_addr_list(s: Seq<char>) -> Option<Seq<AddressView>>;

/// Relies on mailparse's `addrparse`: parses an address-list header value
/// into the mailboxes named by [`parsed_addr_list`].
#[verifier::external_body]
fn parse_address_list(value: &str) -> (r: Option<Vec<EmailAddress>>)
    ensures
        r.deep_view() == parsed_addr_list(value@),
{
    let conv = |i: &mailparse::SingleInfo| EmailAddress {
        name: i.display_name.clone().unwrap_or_default(),
        email: i.addr.clone(),
    };
    match mailparse::addrparse(value) {
        Ok(l) => Some(l.iter().flat_map(|a| match a {
            mailparse::MailAddr::Single(i) => vec![conv(i)],
            mailparse::MailAddr::Group(g) => g.addrs.iter().map(conv).collect::<Vec<_>>(),
        }).collect()),
        Err(_) => None,
    }
}

/// Names what mailparse's `dateparse` reads from a `Date` header value: the
/// Unix-epoch second count, negative before 1970; it depends on the text
/// alone, and is `None` when the text is not a parseable date.
pub uninterp spec fn parsed_date(s: Seq<char>) -> Option<i64>;

/// Relies on mailparse's `dateparse`: parses a `Date` header value into the
/// timestamp named by [`parsed_date`].
#[verifier::external_body]
fn parse_date(s: &str) -> (r: Option<i64>)
    ensures
        r == parsed_date(s@),
{
    mailparse::dateparse(s).ok()
}

/// The address list parsed from the first header named `name`: absent or
/// malformed address lists yield an empty list, never a failure.
pub open spec fn spec_addresses(hs: Seq<HeaderView>, name: Seq<char>) -> Seq<AddressView> {
    match spec_header_value(hs, name) {
        None => Seq::empty(),
        Some(v) => match parsed_addr_list(v) {
            None => Seq::empty(),
            Some(l) => l,
        },
    }
}

/// The message timestamp: the `Date` header rendered in UTC when present,
/// parseable, not before 1970 and not past the year 9999; else the fallback
/// (ingestion time).
pub open spec fn spec_date(hs: Seq<HeaderView>, fallback: Seq<char>) -> Seq<char> {
    match spec_header_value(hs, "Date"@) {
        None => fallback,
        Some(d) => match parsed_date(d) {
            Some(ts) => if 0 <= ts <= 253402300799 {
                rfc3339_of(ts as u64)
            } else {
                fallback
            },
            None => fallback,
        },
    }
}

/// The canonical record decoded from a parsed message, given the account it
/// was fetched for, its folder, its protocol identifier and seen flag, and
/// the fallback timestamp.
pub open spec fn spec_decoded(
    pm: ParsedMessage,
    account_id: Seq<char>,
    folder: Seq<char>,
    uid: u32,
    seen: bool,
    fallback: Seq<char>,
) -> EmailView {
    let hs = pm.headers.deep_view();
    let from_list = spec_addresses(hs, "From"@);
    let cc_list = spec_addresses(hs, "Cc"@);
    let bcc_list = spec_addresses(hs, "Bcc"@);
    EmailView {
        id: account_id + ":"@ + dec_rep(uid as nat),
        from: if from_list.len() > 0 {
            from_list[0]
        } else {
            AddressView { name: Seq::empty(), email: Seq::empty() }
        },
        to: spec_addresses(hs, "To"@),
        cc: if cc_list.len() == 0 {
            None
        } else {
            Some(cc_list)
        },
        bcc: if bcc_list.len() == 0 {
            None
        } else {
            Some(bcc_list)
        },
        subject: match spec_header_value(hs, "Subject"@) {
            Some(s) => s,
            None => "(Sans objet)"@,
        },
        body: match spec_find_body(pm.root, "text/plain"@) {
            Some(b) => b,
            None => Seq::empty(),
        },
        html_body: spec_find_body(pm.root, "text/html"@),
        date: spec_date(hs, fallback),
        read: seen,
        starred: false,
        folder: folder,
        attachments: None,
        account_id: Some(account_id),
        message_id: spec_header_value(hs, "Message-ID"@),
        from_user_id: None,
        to_user_ids: None,
        cc_user_ids: None,
        bcc_user_ids: None,
    }
}

/// Parses the address list carried by the first header named `name`.
pub fn parse_addresses(headers: &Vec<Header>, name: &str) -> (r: Vec<EmailAddress>)
    ensures
        r.deep_view() == spec_addresses(headers.deep_view(), name@),
{
    let value = match header_value(headers, name) {
        Some(v) => v,
        None => {
            return Vec::new();
        },
    };
    match parse_address_list(value.as_str()) {
        Some(l) => l,
        None => Vec::new(),
    }
}

/// Decodes one fetched wire-format message into a canonical record: MIME
/// tree walked depth-first for the first plain-text and HTML bodies, address
/// lists recovered leniently, the `Date` header parsed with `fallback_date`
/// substituted on absence or failure, and the external identifier derived
/// from the account and the protocol identifier. Fails only when the bytes
/// are not a parseable message.
pub fn decode_message(
    account_id: &str,
    folder: &str,
    uid: u32,
    seen: bool,
    raw: &[u8],
    fallback_date: &str,
) -> (r: Result<Email, EmailError>)
    ensures
        match parsed_message(raw@) {
            None => r matches Err(e) && e is ParseError,
            Some(pm) => r matches Ok(e) && e@ == spec_decoded(
                pm,
                account_id@,
                folder@,
                uid,
                seen,
                fallback_date@,
            ),
        },
{
    let pm = match parse_message(raw) {
        Some(pm) => pm,
        None => {
            return Err(EmailError::ParseError(String::from_str("unparseable message")));
        },
    };
    let subject = match header_value(&pm.headers, "Subject") {
        Some(s) => s,
        None => String::from_str("(Sans objet)"),
    };
    let from_list = parse_addresses(&pm.headers, "From");
    let to_list = parse_addresses(&pm.headers, "To");
    let cc_list = parse_addresses(&pm.headers, "Cc");
    let bcc_list = parse_addresses(&pm.headers, "Bcc");
    let from = if from_list.len() > 0 {
        proof {
            assert(from_list.deep_view()[0] == from_list@[0]@);
        }
        from_list[0].clone()
    } else {
        EmailAddress { name: String::new(), email: String::new() }
    };
    let date = match header_value(&pm.headers, "Date") {
        Some(d) => match parse_date(d.as_str()) {
            Some(ts) => if ts >= 0 && ts <= 253402300799 {
                format_timestamp(ts as u64)
            } else {
                String::from_str(fallback_date)
            },
            None => String::from_str(fallback_date),
        },
        None => String::from_str(fallback_date),
    };
    let body = match find_body(&pm.root, "text/plain") {
        Some(b) => b,
        None => String::new(),
    };
    let html_body = find_body(&pm.root, "text/html");
    let message_id = header_value(&pm.headers, "Message-ID");
    let id = String::from_str(account_id).concat(":").concat(u32_to_string(uid).as_str());
    let email = Email {
        id,
        from,
        to: to_list,
        cc: if cc_list.len() == 0 {
            None
        } else {
            Some(cc_list)
        },
        bcc: if bcc_list.len() == 0 {
            None
        } else {
            Some(bcc_list)
        },
        subject,
        body,
        html_body,
        date,
        read: seen,
        starred: false,
        folder: String::from_str(folder),
        attachments: None,
        account_id: Some(String::from_str(account_id)),
        message_id,
        from_user_id: None,
        to_user_ids: None,
        cc_user_ids: None,
        bcc_user_ids: None,
    };
    proof {
        assert(email@ =~= spec_decoded(
            parsed_message(raw@).unwrap(),
            account_id@,
            folder@,
            uid,
            seen,
            fallback_date@,
        ));
    }
    Ok(email)
}

} // verus!
