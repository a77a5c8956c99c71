use rs_ec::access::{is_allowed, AccessConfig, Need};
use rs_ec::accounts::{AccountError, AccountStore, Decision};

#[test]
fn self_service_request_is_filed_trimmed() {
    let mut store = AccountStore::default();
    assert_eq!(
        store.request_access(" newcomer@example.com ", Some("please let me in".to_string()), "r1".to_string()),
        Ok(())
    );
    assert_eq!(store.pending_requests.len(), 1);
    assert_eq!(store.pending_requests[0].email, "newcomer@example.com");
    assert_eq!(store.request_access("nobody", None, "r2".to_string()), Err(AccountError::InvalidEmail));
    assert_eq!(store.pending_requests.len(), 1);
}

#[test]
fn approving_a_request_grants_the_expected_access() {
    let admin = "admin@example.com".to_string();
    let mut store = AccountStore::default();
    let mut access = AccessConfig::default();
    store.request_access("member@example.com", None, "req-1".to_string()).unwrap();
    let decision = Decision { approve: true, allow_view: true, allow_edit: false };
    let email = store.decide(&mut access, Some(&admin), &admin, &"req-1".to_string(), decision, false).unwrap();
    assert_eq!(email, "member@example.com");
    assert!(store.emails.contains_key(&"member@example.com".to_string()));
    assert!(store.pending_requests.is_empty());
    let perm = access.accounts.get(&"member@example.com".to_string()).expect("member should have an access grant");
    assert!(perm.allow_view);
    assert!(!perm.allow_edit);
    assert!(is_allowed(&access, Need::View, Some("member@example.com")));
}

#[test]
fn locked_registration_refuses_approval_but_drops_request() {
    let admin = "admin@example.com".to_string();
    let mut store = AccountStore::default();
    let mut access = AccessConfig::default();
    store.request_access("outsider@example.com", None, "x".to_string()).unwrap();
    let decision = Decision { approve: true, allow_view: false, allow_edit: false };
    assert_eq!(
        store.decide(&mut access, Some(&admin), &admin, &"x".to_string(), decision, true),
        Err(AccountError::RegistrationLocked)
    );
    assert!(!store.emails.contains_key(&"outsider@example.com".to_string()));
    assert!(store.pending_requests.is_empty());
}

#[test]
fn deciding_needs_admin_and_an_existing_request() {
    let admin = "admin@example.com".to_string();
    let member = "member@example.com".to_string();
    let mut store = AccountStore::default();
    let mut access = AccessConfig::default();
    store.request_access("member@example.com", None, "id".to_string()).unwrap();
    let deny = Decision { approve: false, allow_view: true, allow_edit: true };
    assert_eq!(
        store.decide(&mut access, Some(&member), &admin, &"id".to_string(), deny, false),
        Err(AccountError::AdminLoginRequired)
    );
    assert_eq!(
        store.decide(&mut access, Some(&admin), &admin, &"nope".to_string(), deny, false),
        Err(AccountError::RequestNotFound)
    );
    assert_eq!(store.pending_requests.len(), 1);
    assert_eq!(store.decide(&mut access, Some(&admin), &admin, &"id".to_string(), deny, false), Ok(member.clone()));
    assert!(store.pending_requests.is_empty());
    assert!(!store.emails.contains_key(&member));
    assert!(access.accounts.get(&member).is_none());
}

#[test]
fn add_account_rules() {
    let admin = "admin@example.com".to_string();
    let mut store = AccountStore::default();
    assert_eq!(store.add_account(None, &admin, "x@example.com", false), Err(AccountError::AdminLoginRequired));
    assert_eq!(store.add_account(Some(&admin), &admin, "invalid", false), Err(AccountError::InvalidEmail));
    assert_eq!(
        store.add_account(Some(&admin), &admin, "x@example.com", true),
        Err(AccountError::RegistrationLocked)
    );
    assert_eq!(store.add_account(Some(&admin), &admin, " admin@example.com ", true), Ok(()));
    assert_eq!(store.add_account(Some(&admin), &admin, "x@example.com", false), Ok(()));
    assert!(store.emails.contains_key(&"x@example.com".to_string()));
    assert_eq!(store.check_otp_request(&"x@example.com".to_string(), &admin), Ok(()));
    assert_eq!(store.check_otp_request(&admin, &admin), Ok(()));
    assert_eq!(store.check_otp_request(&"y@example.com".to_string(), &admin), Err(AccountError::NotRegistered));
}

#[test]
fn registered_emails_come_out_sorted_once_each() {
    let admin = "admin@example.com".to_string();
    let mut store = AccountStore::default();
    for email in ["zed@example.com", "amy@example.com", "mia@example.com", "amy@example.com", "Al@example.com"] {
        store.add_account(Some(&admin), &admin, email, false).unwrap();
    }
    assert_eq!(
        store.sorted_emails(),
        vec!["Al@example.com", "amy@example.com", "mia@example.com", "zed@example.com"]
    );
    assert!(AccountStore::default().sorted_emails().is_empty());
}
