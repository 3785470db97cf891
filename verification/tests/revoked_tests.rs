use credential_registry::revoked::{Error, RevokedRegistry};

#[test]
fn test_set_admin() {
    let mut registry = RevokedRegistry::new();

    let admin: u64 = 900;
    registry.Set_admin(admin).unwrap();

    assert_eq!(registry.admin, Some(admin));
}

#[test]
fn test_set_admin_twice_should_fail() {
    let mut registry = RevokedRegistry::new();

    let admin1: u64 = 900;
    let admin2: u64 = 901;

    registry.Set_admin(admin1).unwrap();
    let r = registry.Set_admin(admin2);
    assert!(matches!(r, Err(Error::AdminAlreadySet)));
}

#[test]
fn test_revoke_certificate() {
    let mut registry = RevokedRegistry::new();

    let admin: u64 = 900;
    let certificate_id: u64 = 123;
    let reason = String::from("Forgery");

    registry.Set_admin(admin).unwrap();
    registry
        .Revoke_Certificate(admin, certificate_id, reason, 0)
        .unwrap();

    assert!(registry.is_revoked(certificate_id));
}

#[test]
fn test_non_admin_cannot_revoke_certificate() {
    let mut registry = RevokedRegistry::new();

    let admin: u64 = 900;
    let non_admin: u64 = 901;
    let certificate_id: u64 = 123;
    let reason = String::from("Forgery");

    registry.Set_admin(admin).unwrap();

    let r = registry.Revoke_Certificate(non_admin, certificate_id, reason, 0);
    assert!(matches!(r, Err(Error::Unauthorized)));
    assert!(!registry.is_revoked(certificate_id));
}

#[test]
fn test_get_revocation_details() {
    let mut registry = RevokedRegistry::new();

    let admin: u64 = 900;
    let certificate_id: u64 = 123;
    let reason = String::from("Forgery");

    registry.Set_admin(admin).unwrap();
    registry
        .Revoke_Certificate(admin, certificate_id, reason.clone(), 0)
        .unwrap();

    let details = registry
        .Get_Revocation_Details(certificate_id)
        .expect("Certificate should be revoked");

    assert_eq!(details.0, admin);
    assert_eq!(details.1, reason);
}

#[test]
fn test_all_revoked_certificates() {
    let mut registry = RevokedRegistry::new();

    let admin: u64 = 900;
    let cert1: u64 = 101;
    let cert2: u64 = 102;

    registry.Set_admin(admin).unwrap();
    registry
        .Revoke_Certificate(admin, cert1, String::from("Forgery"), 0)
        .unwrap();
    registry
        .Revoke_Certificate(admin, cert2, String::from("Plagiarism"), 0)
        .unwrap();

    let revoked_list = registry.All_Revoked_Certificates();
    assert_eq!(revoked_list.len(), 2);
    assert_eq!(revoked_list[0].certificate_id, cert1);
    assert_eq!(revoked_list[1].certificate_id, cert2);
}

#[test]
fn test_revoke_without_admin_fails() {
    let mut registry = RevokedRegistry::new();

    let r = registry.Revoke_Certificate(900, 123, String::from("Forgery"), 0);
    assert!(matches!(r, Err(Error::AdminNotSet)));
    assert!(registry.Get_Revocation_Details(123).is_none());
}
