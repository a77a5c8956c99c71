//! Who may view or edit the product catalogue. The catalogue is one
//! resource: it is private or public, carries view/edit flags for
//! everybody, and holds per-account grants.

use vstd::prelude::*;

use crate::email_map::EmailMap;
use crate::text::chars_of;

verus! {

/// Whether the catalogue is open to the public.
#[derive(Debug, Clone, Copy, PartialEq, Eq, Structural)]
pub enum Mode {
    Private,
    Public,
}

impl Default for Mode {
    /// A new catalogue is private.
    fn default() -> (r: Self)
        ensures
            r == Mode::Private,
    {
        Mode::Private
    }
}

/// What one account may do with the catalogue.
#[derive(Debug, Clone, Copy, PartialEq, Eq, Structural)]
pub struct AccountPermission {
    pub allow_view: bool,
    pub allow_edit: bool,
}

impl Default for AccountPermission {
    /// A grant that allows nothing.
    fn default() -> (r: Self)
        ensures
            r.allow_view == false,
            r.allow_edit == false,
    {
        AccountPermission { allow_view: false, allow_edit: false }
    }
}

/// The access configuration of the catalogue.
#[derive(Debug)]
pub struct AccessConfig {
    pub mode: Mode,
    /// Everybody may view (only when `mode` is public).
    pub allow_view: bool,
    /// Everybody may edit (only when `mode` is public).
    pub allow_edit: bool,
    /// Per-account grants, keyed by e-mail.
    pub accounts: EmailMap<AccountPermission>,
}

impl Default for AccessConfig {
    /// Private, nothing allowed, no grants.
    fn default() -> (r: Self)
        ensures
            r.mode == Mode::Private,
            r.allow_view == false,
            r.allow_edit == false,
            r.accounts@ == Map::<Seq<char>, AccountPermission>::empty(),
    {
        AccessConfig {
            mode: Mode::Private,
            allow_view: false,
            allow_edit: false,
            accounts: EmailMap::new(),
        }
    }
}

/// The kind of operation asked for.
#[derive(Debug, Clone, Copy, PartialEq, Eq, Structural)]
pub enum Need {
    View,
    Edit,
}

/// Why a request on the catalogue or an admin-only resource was refused.
#[derive(Debug, Clone, Copy, PartialEq, Eq, Structural)]
pub enum AccessDenied {
    /// Nobody is logged in (answered with 401).
    LoginRequired,
    /// Logged in, but without the needed permission (answered with 403).
    InsufficientPermission,
    /// The resource is for the administrator, who is not logged in
    /// (answered with 401).
    AdminLoginRequired,
}

/// The flag among `view` and `edit` that `need` selects.
pub open spec fn selected(view: bool, edit: bool, need: Need) -> bool {
    match need {
        Need::View => view,
        Need::Edit => edit,
    }
}

/// The account `email` holds a grant for `need`.
pub open spec fn account_grants(config: AccessConfig, need: Need, email: Seq<char>) -> bool {
    &&& config.accounts@.contains_key(email)
    &&& selected(config.accounts@[email].allow_view, config.accounts@[email].allow_edit, need)
}

/// The public rule of the catalogue allows `need` to everybody.
pub open spec fn public_grants(config: AccessConfig, need: Need) -> bool {
    selected(config.allow_view, config.allow_edit, need) && config.mode == Mode::Public
}

/// `need` is allowed to the (possibly absent) account `email`, by its own
/// grant or by the public rule.
pub open spec fn allowed(config: AccessConfig, need: Need, email: Option<Seq<char>>) -> bool {
    ||| (email matches Some(e) && account_grants(config, need, e))
    ||| public_grants(config, need)
}

/// The characters of an optional string.
pub open spec fn str_opt_view(s: Option<&str>) -> Option<Seq<char>> {
    match s {
        Some(t) => Some(t@),
        None => None,
    }
}

/// The characters of an optional string.
pub open spec fn string_opt_view(s: Option<&String>) -> Option<Seq<char>> {
    match s {
        Some(t) => Some(t@),
        None => None,
    }
}

/// Whether `need` is allowed on the catalogue described by `config` to the
/// logged-in account `account_email` (or to an anonymous visitor). Whether
/// the caller is the administrator is not considered here.
pub fn is_allowed(config: &AccessConfig, need: Need, account_email: Option<&str>) -> (r: bool)
    ensures
        r == allowed(*config, need, str_opt_view(account_email)),
{
    if let Some(email) = account_email {
        let key = email.to_string();
        if let Some(perm) = config.accounts.get(&key) {
            let flag = match need {
                Need::View => perm.allow_view,
                Need::Edit => perm.allow_edit,
            };
            if flag {
                return true;
            }
        }
    }
    let flag = match need {
        Need::View => config.allow_view,
        Need::Edit => config.allow_edit,
    };
    flag && config.mode == Mode::Public
}

/// The session belongs to the administrator.
pub open spec fn is_admin(session_email: Option<Seq<char>>, admin_email: Seq<char>) -> bool {
    session_email == Some(admin_email)
}

/// Decides a request for `need` on the catalogue: the administrator is
/// always admitted, others by `is_allowed`; a refusal is `LoginRequired`
/// for an anonymous visitor and `InsufficientPermission` otherwise.
pub fn check_catalog_access(
    config: &AccessConfig,
    need: Need,
    session_email: Option<&String>,
    admin_email: &String,
) -> (r: Result<(), AccessDenied>)
    ensures
        r is Ok <==> (is_admin(string_opt_view(session_email), admin_email@) || allowed(
            *config,
            need,
            string_opt_view(session_email),
        )),
        r == Err::<(), AccessDenied>(AccessDenied::LoginRequired) <==> (!allowed(*config, need, None)
            && session_email is None),
        r == Err::<(), AccessDenied>(AccessDenied::InsufficientPermission) <==> (!(r is Ok)
            && session_email is Some),
{
    if let Some(email) = session_email {
        if *email == *admin_email {
            return Ok(());
        }
    }
    let as_str: Option<&str> = match session_email {
        Some(e) => Some(e.as_str()),
        None => None,
    };
    if is_allowed(config, need, as_str) {
        return Ok(());
    }
    if session_email.is_none() {
        Err(AccessDenied::LoginRequired)
    } else {
        Err(AccessDenied::InsufficientPermission)
    }
}

/// Admits only the administrator's session; anything else is refused with
/// `AdminLoginRequired`.
pub fn require_admin(session_email: Option<&String>, admin_email: &String) -> (r: Result<(), AccessDenied>)
    ensures
        r is Ok <==> is_admin(string_opt_view(session_email), admin_email@),
        r is Err ==> r == Err::<(), AccessDenied>(AccessDenied::AdminLoginRequired),
{
    match session_email {
        Some(email) => {
            if *email == *admin_email {
                Ok(())
            } else {
                Err(AccessDenied::AdminLoginRequired)
            }
        },
        None => Err(AccessDenied::AdminLoginRequired),
    }
}

impl AccessConfig {
    /// Records (or replaces) the grant of the account `email`.
    pub fn grant(&mut self, email: String, permission: AccountPermission)
        ensures
            final(self).mode == old(self).mode,
            final(self).allow_view == old(self).allow_view,
            final(self).allow_edit == old(self).allow_edit,
            final(self).accounts@ == old(self).accounts@.insert(email@, permission),
    {
        self.accounts.insert(email, permission);
    }
}

/// A private catalogue admits nobody who holds no grant of their own,
/// whatever its view and edit flags say.
pub proof fn law_private_catalog_needs_a_grant(config: AccessConfig, need: Need, email: Option<Seq<char>>)
    requires
        config.mode == Mode::Private,
        !(email matches Some(e) && config.accounts@.contains_key(e)),
    ensures
        !allowed(config, need, email),
{
}

/// An account's own grant admits it whatever the mode and the public flags.
pub proof fn law_grant_admits_in_any_mode(config: AccessConfig, need: Need, email: Seq<char>)
    requires
        config.accounts@.contains_key(email),
        selected(config.accounts@[email].allow_view, config.accounts@[email].allow_edit, need),
    ensures
        allowed(config, need, Some(email)),
{
}

/// After a grant is recorded for `email`, what that account may do is
/// exactly what the grant or the public rule allows; every other account
/// keeps what it had.
pub proof fn law_grant_then_check(
    before: AccessConfig,
    after: AccessConfig,
    email: Seq<char>,
    permission: AccountPermission,
    need: Need,
    other: Option<Seq<char>>,
)
    requires
        after.mode == before.mode,
        after.allow_view == before.allow_view,
        after.allow_edit == before.allow_edit,
        after.accounts@ == before.accounts@.insert(email, permission),
        other != Some(email),
    ensures
        allowed(after, need, Some(email)) == (selected(permission.allow_view, permission.allow_edit, need)
            || public_grants(before, need)),
        allowed(after, need, other) == allowed(before, need, other),
{
}

/// The public rule admits whoever asks: in public mode, with the flag
/// for `need` set, everybody is allowed, anonymous or logged in, with a
/// grant of its own or without one.
pub proof fn law_public_rule_admits_everyone(config: AccessConfig, need: Need, email: Option<Seq<char>>)
    requires
        config.mode == Mode::Public,
        need == Need::View ==> config.allow_view,
        need == Need::Edit ==> config.allow_edit,
    ensures
        allowed(config, need, email),
{
}

/// An anonymous visitor is allowed `need` exactly when the catalogue is
/// public and its flag for `need` is set.
pub proof fn law_anonymous_gets_the_public_rule(config: AccessConfig, need: Need)
    ensures
        allowed(config, need, None) == (config.mode == Mode::Public && (if need == Need::View {
            config.allow_view
        } else {
            config.allow_edit
        })),
{
}

/// An account without a grant of its own gets exactly what an anonymous
/// visitor gets.
pub proof fn law_no_grant_is_like_anonymous(config: AccessConfig, need: Need, email: Seq<char>)
    requires
        !config.accounts@.contains_key(email),
    ensures
        allowed(config, need, Some(email)) == allowed(config, need, None),
{
}

/// An account with a grant of its own is allowed `need` exactly when its
/// grant holds the flag for `need` or the public rule admits everybody.
pub proof fn law_granted_account_gets_grant_or_public_rule(config: AccessConfig, need: Need, email: Seq<char>)
    requires
        config.accounts@.contains_key(email),
    ensures
        allowed(config, need, Some(email)) == ((if need == Need::View {
            config.accounts@[email].allow_view
        } else {
            config.accounts@[email].allow_edit
        }) || (config.mode == Mode::Public && (if need == Need::View {
            config.allow_view
        } else {
            config.allow_edit
        }))),
{
}

/// The prefix `Bearer ` of an `Authorization` header.
pub open spec fn bearer_prefix() -> Seq<char> {
    seq!['B', 'e', 'a', 'r', 'e', 'r', ' ']
}

/// The session token an `Authorization` header carries: what follows
/// `Bearer `, or nothing.
pub open spec fn bearer_token_of(header: Option<Seq<char>>) -> Seq<char> {
    match header {
        Some(h) => if h.len() >= 7 && h.take(7) == bearer_prefix() {
            h.skip(7)
        } else {
            Seq::empty()
        },
        None => Seq::empty(),
    }
}

/// The session token of an `Authorization` header (empty when the header
/// is missing or does not start with `Bearer `).
pub fn bearer_token(header: Option<&str>) -> (r: &str)
    ensures
        r@ == bearer_token_of(str_opt_view(header)),
{
    proof {
        reveal_strlit("");
    }
    let h = match header {
        Some(h) => h,
        None => return "",
    };
    let chars = chars_of(h);
    if chars.len() < 7 {
        return "";
    }
    let prefix = ['B', 'e', 'a', 'r', 'e', 'r', ' '];
    let mut i: usize = 0;
    while i < 7
        invariant
            chars@ == h@,
            header == Some(h),
            chars@.len() >= 7,
            i <= 7,
            prefix@ == bearer_prefix(),
            forall|j: int| 0 <= j < i ==> chars@[j] == #[trigger] prefix@[j],
        decreases 7 - i,
    {
        if chars[i] != prefix[i] {
            proof {
                reveal_strlit("");
                assert(h@.take(7)[i as int] != bearer_prefix()[i as int]);
            }
            return "";
        }
        i = i + 1;
    }
    proof {
        assert(h@.take(7) =~= bearer_prefix());
    }
    h.substring_char(7, chars.len())
}

} // verus!
