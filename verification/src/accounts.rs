//! Registered accounts and requests for access. Registered e-mails may
//! log in; anybody may ask for access, and the administrator approves or
//! denies each request. Registration can be locked to the administrator's
//! own e-mail.

use vstd::prelude::*;

use crate::access::{is_admin, require_admin, string_opt_view, AccessConfig, AccountPermission};
use crate::email_map::{has_key, keys_distinct, EmailMap};
use crate::seq_util::{first_match, lemma_first_match_at, lemma_first_match_none};
use crate::text::{
    chars_lt, has_char, lemma_chars_lt_total, lemma_chars_lt_transitive, str_lt, trim, trimmed,
};

verus! {

/// A pending request for access.
#[derive(Debug, Clone)]
pub struct AccessRequest {
    pub id: String,
    pub email: String,
    pub message: Option<String>,
}

/// The registered e-mails and the pending requests.
#[derive(Debug)]
pub struct AccountStore {
    /// Registered e-mails (the values carry nothing).
    pub emails: EmailMap<()>,
    pub pending_requests: Vec<AccessRequest>,
}

impl Default for AccountStore {
    /// Nobody registered, nothing pending.
    fn default() -> (r: Self)
        ensures
            r.emails@ == Map::<Seq<char>, ()>::empty(),
            r.pending_requests@.len() == 0,
    {
        AccountStore { emails: EmailMap::new(), pending_requests: Vec::new() }
    }
}

/// Why an account request was refused.
#[derive(Debug, Clone, Copy, PartialEq, Eq, Structural)]
pub enum AccountError {
    /// Only the administrator may do this (answered with 401).
    AdminLoginRequired,
    /// The e-mail has no `@` (answered with 400).
    InvalidEmail,
    /// Registration is locked to the administrator's e-mail (answered
    /// with 403).
    RegistrationLocked,
    /// No pending request has the id (answered with 404).
    RequestNotFound,
    /// The e-mail is neither the administrator's nor registered (answered
    /// with 403).
    NotRegistered,
}

/// The administrator's verdict on a request.
#[derive(Debug, Clone, Copy, PartialEq, Eq, Structural)]
pub struct Decision {
    pub approve: bool,
    pub allow_view: bool,
    pub allow_edit: bool,
}

/// The request has id `id`.
pub open spec fn request_with_id(id: Seq<char>) -> spec_fn(AccessRequest) -> bool {
    |r: AccessRequest| r.id@ == id
}

/// The position of the first pending request with id `id`, or -1.
pub open spec fn request_index(s: Seq<AccessRequest>, id: Seq<char>) -> int {
    first_match(s, request_with_id(id))
}

/// The position of the first pending request with id `id`, if any.
fn find_request(s: &Vec<AccessRequest>, id: &String) -> (r: Option<usize>)
    ensures
        match r {
            Some(i) => request_index(s@, id@) == i && i < s@.len(),
            None => request_index(s@, id@) == -1,
        },
{
    let mut i: usize = 0;
    while i < s.len()
        invariant
            i <= s@.len(),
            forall|j: int| 0 <= j < i ==> !request_with_id(id@)(#[trigger] s@[j]),
        decreases s@.len() - i,
    {
        if s[i].id == *id {
            proof {
                lemma_first_match_at(s@, request_with_id(id@), i as int);
            }
            return Some(i);
        }
        i = i + 1;
    }
    proof {
        lemma_first_match_none(s@, request_with_id(id@));
    }
    None
}

/// Each string of `s` comes strictly before every later one.
pub open spec fn ascending(s: Seq<String>) -> bool {
    forall|i: int, j: int| 0 <= i < j < s.len() ==> chars_lt(#[trigger] s[i]@, #[trigger] s[j]@)
}

/// Some string of `s` has the characters `k`.
pub open spec fn holds_text(s: Seq<String>, k: Seq<char>) -> bool {
    exists|i: int| 0 <= i < s.len() && #[trigger] s[i]@ == k
}

/// Inserts `key`, which `out` does not hold yet, where it keeps `out`
/// ascending.
fn insert_in_order(out: &mut Vec<String>, key: &String)
    requires
        ascending(old(out)@),
        !holds_text(old(out)@, key@),
    ensures
        ascending(final(out)@),
        forall|k: Seq<char>| holds_text(final(out)@, k) <==> (holds_text(old(out)@, k) || k == key@),
{
    let mut p: usize = 0;
    while p < out.len() && str_lt(&out[p], key)
        invariant
            p <= out@.len(),
            forall|i: int| 0 <= i < p ==> chars_lt(#[trigger] out@[i]@, key@),
        decreases out@.len() - p,
    {
        p = p + 1;
    }
    let ghost before = out@;
    proof {
        if p < before.len() {
            assert(before[p as int]@ != key@);
            lemma_chars_lt_total(before[p as int]@, key@);
            assert forall|q: int| p <= q < before.len() implies chars_lt(key@, (#[trigger] before[q])@) by {
                if q > p {
                    lemma_chars_lt_transitive(key@, before[p as int]@, before[q]@);
                }
            }
        }
    }
    let c = key.clone();
    out.insert(p, c);
    proof {
        before.insert_ensures(p as int, c);
        assert forall|i: int, j: int| 0 <= i < j < out@.len() implies chars_lt(
            #[trigger] out@[i]@,
            #[trigger] out@[j]@,
        ) by {
            if j < p {
            } else if j == p {
            } else if i < p {
                assert(out@[j] == before[j - 1]);
                lemma_chars_lt_transitive(out@[i]@, key@, out@[j]@);
            } else if i == p {
                assert(out@[j] == before[j - 1]);
            } else {
                assert(out@[i] == before[i - 1]);
                assert(out@[j] == before[j - 1]);
            }
        }
        assert forall|k: Seq<char>| holds_text(out@, k) <==> (holds_text(before, k) || k == key@) by {
            if holds_text(out@, k) {
                let i = choose|i: int| 0 <= i < out@.len() && #[trigger] out@[i]@ == k;
                if i < p {
                    assert(out@[i] == before[i]);
                } else if i > p {
                    assert(out@[i] == before[i - 1]);
                }
            }
            if holds_text(before, k) {
                let i = choose|i: int| 0 <= i < before.len() && #[trigger] before[i]@ == k;
                if i < p {
                    assert(out@[i] == before[i]);
                } else {
                    assert(out@[i + 1] == before[i]);
                }
            }
            if k == key@ {
                assert(out@[p as int]@ == k);
            }
        }
    }
}

impl AccountStore {
    /// Whether `email` may ask for a one-time login code: it is the
    /// administrator's or a registered e-mail.
    pub fn check_otp_request(&self, email: &String, admin_email: &String) -> (r: Result<(), AccountError>)
        ensures
            r is Ok <==> (email@ == admin_email@ || self.emails@.contains_key(email@)),
            r is Err ==> r == Err::<(), AccountError>(AccountError::NotRegistered),
    {
        if *email == *admin_email || self.emails.contains_key(email) {
            Ok(())
        } else {
            Err(AccountError::NotRegistered)
        }
    }

    /// Registers the e-mail `raw_email` (trimmed), for the administrator
    /// only. Refused when the e-mail has no `@`, or, while registration is
    /// `locked`, when it is not the administrator's.
    pub fn add_account(
        &mut self,
        session_email: Option<&String>,
        admin_email: &String,
        raw_email: &str,
        locked: bool,
    ) -> (r: Result<(), AccountError>)
        ensures
            final(self).pending_requests@ == old(self).pending_requests@,
            !is_admin(string_opt_view(session_email), admin_email@) ==> r == Err::<(), AccountError>(
                AccountError::AdminLoginRequired,
            ),
            is_admin(string_opt_view(session_email), admin_email@) && !trimmed(raw_email@).contains('@') ==> r
                == Err::<(), AccountError>(AccountError::InvalidEmail),
            is_admin(string_opt_view(session_email), admin_email@) && trimmed(raw_email@).contains('@') && locked
                && trimmed(raw_email@) != admin_email@ ==> r == Err::<(), AccountError>(
                AccountError::RegistrationLocked,
            ),
            r is Ok <==> (is_admin(string_opt_view(session_email), admin_email@) && trimmed(raw_email@).contains(
                '@',
            ) && (!locked || trimmed(raw_email@) == admin_email@)),
            r is Ok ==> final(self).emails@ == old(self).emails@.insert(trimmed(raw_email@), ()),
            r is Err ==> final(self).emails@ == old(self).emails@,
    {
        if require_admin(session_email, admin_email).is_err() {
            return Err(AccountError::AdminLoginRequired);
        }
        let email = trim(raw_email);
        if !has_char(email.as_str(), '@') {
            return Err(AccountError::InvalidEmail);
        }
        if locked && email != *admin_email {
            return Err(AccountError::RegistrationLocked);
        }
        self.emails.insert(email, ());
        Ok(())
    }

    /// Files a request for access by `raw_email` (trimmed) under `id`;
    /// anybody may ask. Refused when the e-mail has no `@`.
    pub fn request_access(&mut self, raw_email: &str, message: Option<String>, id: String) -> (r: Result<
        (),
        AccountError,
    >)
        ensures
            final(self).emails@ == old(self).emails@,
            r is Ok <==> trimmed(raw_email@).contains('@'),
            r is Err ==> r == Err::<(), AccountError>(AccountError::InvalidEmail),
            r is Err ==> final(self).pending_requests@ == old(self).pending_requests@,
            r is Ok ==> {
                let s = final(self).pending_requests@;
                &&& s.len() == old(self).pending_requests@.len() + 1
                &&& s.drop_last() == old(self).pending_requests@
                &&& s.last().id == id
                &&& s.last().email@ == trimmed(raw_email@)
                &&& s.last().message == message
            },
    {
        let email = trim(raw_email);
        if !has_char(email.as_str(), '@') {
            return Err(AccountError::InvalidEmail);
        }
        let ghost before = self.pending_requests@;
        self.pending_requests.push(AccessRequest { id, email, message });
        proof {
            assert(self.pending_requests@.drop_last() =~= before);
        }
        Ok(())
    }

    /// Decides the pending request `request_id` (administrator only) and
    /// returns the requester's e-mail. The request leaves the pending list
    /// once found, whatever the verdict. An approval registers the e-mail
    /// and records `decision`'s grant for it in `access`; while
    /// registration is `locked`, approving anybody but the administrator is
    /// refused (the request is still removed).
    pub fn decide(
        &mut self,
        access: &mut AccessConfig,
        session_email: Option<&String>,
        admin_email: &String,
        request_id: &String,
        decision: Decision,
        locked: bool,
    ) -> (r: Result<String, AccountError>)
        ensures
            final(access).mode == old(access).mode,
            final(access).allow_view == old(access).allow_view,
            final(access).allow_edit == old(access).allow_edit,
            !is_admin(string_opt_view(session_email), admin_email@) ==> r == Err::<String, AccountError>(
                AccountError::AdminLoginRequired,
            ),
            is_admin(string_opt_view(session_email), admin_email@) && request_index(
                old(self).pending_requests@,
                request_id@,
            ) < 0 ==> r == Err::<String, AccountError>(AccountError::RequestNotFound),
            (!is_admin(string_opt_view(session_email), admin_email@) || request_index(
                old(self).pending_requests@,
                request_id@,
            ) < 0) ==> final(self).pending_requests@ == old(self).pending_requests@,
            is_admin(string_opt_view(session_email), admin_email@) && request_index(
                old(self).pending_requests@,
                request_id@,
            ) >= 0 ==> ({
                let i = request_index(old(self).pending_requests@, request_id@);
                let req = old(self).pending_requests@[i];
                let refused = decision.approve && locked && req.email@ != admin_email@;
                &&& final(self).pending_requests@ == old(self).pending_requests@.remove(i)
                &&& refused ==> r == Err::<String, AccountError>(AccountError::RegistrationLocked)
                &&& !refused ==> (r matches Ok(e) && e@ == req.email@)
                &&& (decision.approve && !refused) ==> final(self).emails@ == old(self).emails@.insert(
                    req.email@,
                    (),
                ) && final(access).accounts@ == old(access).accounts@.insert(
                    req.email@,
                    (AccountPermission { allow_view: decision.allow_view, allow_edit: decision.allow_edit }),
                )
            }),
            r is Err || !decision.approve ==> final(self).emails@ == old(self).emails@
                && final(access).accounts@ == old(access).accounts@,
    {
        if require_admin(session_email, admin_email).is_err() {
            return Err(AccountError::AdminLoginRequired);
        }
        let pos = match find_request(&self.pending_requests, request_id) {
            Some(i) => i,
            None => return Err(AccountError::RequestNotFound),
        };
        let request = self.pending_requests.remove(pos);
        if decision.approve && locked && request.email != *admin_email {
            return Err(AccountError::RegistrationLocked);
        }
        if decision.approve {
            self.emails.insert(request.email.clone(), ());
            access.grant(
                request.email.clone(),
                AccountPermission { allow_view: decision.allow_view, allow_edit: decision.allow_edit },
            );
        }
        Ok(request.email)
    }

    /// The registered e-mails, each once, in ascending order.
    pub fn sorted_emails(&self) -> (r: Vec<String>)
        ensures
            ascending(r@),
            forall|k: Seq<char>| self.emails@.contains_key(k) <==> holds_text(r@, k),
    {
        let entries = self.emails.entries();
        let mut out: Vec<String> = Vec::new();
        let mut n: usize = 0;
        while n < entries.len()
            invariant
                keys_distinct(entries@),
                n <= entries@.len(),
                ascending(out@),
                forall|k: Seq<char>| holds_text(out@, k) <==> exists|j: int| 0 <= j < n && #[trigger] entries@[j].0@ == k,
            decreases entries@.len() - n,
        {
            proof {
                assert forall|j: int| 0 <= j < n implies #[trigger] entries@[j].0@ != entries@[n as int].0@ by {}
            }
            insert_in_order(&mut out, &entries[n].0);
            proof {
                assert forall|k: Seq<char>| holds_text(out@, k) <==> exists|j: int|
                    0 <= j < n + 1 && #[trigger] entries@[j].0@ == k by {
                    if exists|j: int| 0 <= j < n + 1 && #[trigger] entries@[j].0@ == k {
                        let j = choose|j: int| 0 <= j < n + 1 && #[trigger] entries@[j].0@ == k;
                        if j < n {
                            assert(exists|j: int| 0 <= j < n && #[trigger] entries@[j].0@ == k);
                        }
                    }
                }
            }
            n = n + 1;
        }
        proof {
            assert forall|k: Seq<char>| self.emails@.contains_key(k) <==> holds_text(out@, k) by {
                if self.emails@.contains_key(k) {
                    assert(has_key(entries@, k));
                    let j = choose|j: int| 0 <= j < entries@.len() && #[trigger] entries@[j].0@ == k;
                    assert(entries@[j].0@ == k);
                }
                if holds_text(out@, k) {
                    let j = choose|j: int| 0 <= j < n && #[trigger] entries@[j].0@ == k;
                    assert(has_key(entries@, k));
                }
            }
        }
        out
    }
}

} // verus!
