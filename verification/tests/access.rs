use rs_ec::access::{
    bearer_token, check_catalog_access, is_allowed, require_admin, AccessConfig, AccessDenied, AccountPermission,
    Mode, Need,
};
use rs_ec::email_map::EmailMap;

#[test]
fn private_catalog_denies_regardless_of_flags() {
    let config = AccessConfig { mode: Mode::Private, allow_view: true, allow_edit: true, accounts: EmailMap::new() };
    assert!(!is_allowed(&config, Need::View, None));
    assert!(!is_allowed(&config, Need::Edit, None));
}

#[test]
fn public_catalog_respects_view_and_edit_flags_independently() {
    let config = AccessConfig { mode: Mode::Public, allow_view: true, allow_edit: false, accounts: EmailMap::new() };
    assert!(is_allowed(&config, Need::View, None));
    assert!(!is_allowed(&config, Need::Edit, None));
}

#[test]
fn account_specific_grant_works_even_when_catalog_is_private() {
    let mut config = AccessConfig { mode: Mode::Private, allow_view: false, allow_edit: false, accounts: EmailMap::new() };
    config.accounts.insert("member@example.com".to_string(), AccountPermission { allow_view: true, allow_edit: false });
    assert!(is_allowed(&config, Need::View, Some("member@example.com")));
    assert!(!is_allowed(&config, Need::Edit, Some("member@example.com")));
    assert!(!is_allowed(&config, Need::View, Some("someone-else@example.com")));
}

#[test]
fn defaults_are_private_and_closed() {
    let config = AccessConfig::default();
    assert_eq!(config.mode, Mode::Private);
    assert_eq!(Mode::default(), Mode::Private);
    assert!(!config.allow_view && !config.allow_edit);
    let perm = AccountPermission::default();
    assert!(!perm.allow_view && !perm.allow_edit);
}

#[test]
fn grant_replaces_an_earlier_grant() {
    let mut config = AccessConfig::default();
    config.grant("a@example.com".to_string(), AccountPermission { allow_view: true, allow_edit: true });
    config.grant("a@example.com".to_string(), AccountPermission { allow_view: false, allow_edit: true });
    assert!(!is_allowed(&config, Need::View, Some("a@example.com")));
    assert!(is_allowed(&config, Need::Edit, Some("a@example.com")));
}

#[test]
fn account_grant_falls_back_to_public_rule() {
    let mut config = AccessConfig { mode: Mode::Public, allow_view: true, allow_edit: false, accounts: EmailMap::new() };
    config.grant("m@example.com".to_string(), AccountPermission { allow_view: false, allow_edit: false });
    assert!(is_allowed(&config, Need::View, Some("m@example.com")));
    assert!(!is_allowed(&config, Need::Edit, Some("m@example.com")));
}

#[test]
fn catalog_access_admits_admin_and_distinguishes_401_from_403() {
    let admin = "admin@example.com".to_string();
    let member = "member@example.com".to_string();
    let config = AccessConfig::default();
    assert_eq!(check_catalog_access(&config, Need::Edit, Some(&admin), &admin), Ok(()));
    assert_eq!(check_catalog_access(&config, Need::View, None, &admin), Err(AccessDenied::LoginRequired));
    assert_eq!(
        check_catalog_access(&config, Need::View, Some(&member), &admin),
        Err(AccessDenied::InsufficientPermission)
    );
    let open = AccessConfig { mode: Mode::Public, allow_view: true, allow_edit: false, accounts: EmailMap::new() };
    assert_eq!(check_catalog_access(&open, Need::View, None, &admin), Ok(()));
}

#[test]
fn require_admin_refuses_everybody_else() {
    let admin = "admin@example.com".to_string();
    let member = "member@example.com".to_string();
    assert_eq!(require_admin(Some(&admin), &admin), Ok(()));
    assert_eq!(require_admin(Some(&member), &admin), Err(AccessDenied::AdminLoginRequired));
    assert_eq!(require_admin(None, &admin), Err(AccessDenied::AdminLoginRequired));
}

#[test]
fn bearer_token_takes_what_follows_the_prefix() {
    assert_eq!(bearer_token(Some("Bearer abc123")), "abc123");
    assert_eq!(bearer_token(Some("Bearer ")), "");
    assert_eq!(bearer_token(Some("Basic abc")), "");
    assert_eq!(bearer_token(Some("bearer abc")), "");
    assert_eq!(bearer_token(None), "");
}
