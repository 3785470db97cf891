use credential_registry::institution::{Error, InstitutionContract};

#[test]
fn test_register_institution() {
    let mut registry = InstitutionContract::new();

    let wallet: u64 = 41;
    let name = String::from("Test Institution");
    let metadata = String::from("Metadata");

    let id = registry.register_institution(name.clone(), wallet, metadata.clone(), 0);
    let institution = registry.get_institution(id).unwrap();

    assert_eq!(institution.name, name);
    assert_eq!(institution.wallet, wallet);
    assert!(!institution.verified);
}

#[test]
fn test_verify_institution() {
    let mut registry = InstitutionContract::new();

    let admin: u64 = 900;
    let wallet: u64 = 41;
    let name = String::from("Institution");
    let metadata = String::from("Metadata");

    registry.set_admin(admin).unwrap();
    let id = registry.register_institution(name, wallet, metadata, 0);

    registry.verify_institution(id, admin).unwrap();

    let institution = registry.get_institution(id).unwrap();
    assert!(institution.verified);
}

#[test]
fn test_non_admin_cannot_verify_institution() {
    let mut registry = InstitutionContract::new();

    let admin: u64 = 900;
    let non_admin: u64 = 901;
    let wallet: u64 = 41;

    registry.set_admin(admin).unwrap();
    let id = registry.register_institution(
        String::from("Institution"),
        wallet,
        String::from("Metadata"),
        0,
    );

    let r = registry.verify_institution(id, non_admin);
    assert!(matches!(r, Err(Error::Unauthorized)));
}

#[test]
fn test_list_institutions() {
    let mut registry = InstitutionContract::new();

    let wallet1: u64 = 41;
    let wallet2: u64 = 42;
    let metadata = String::from("Metadata");

    registry.register_institution(String::from("Institution 1"), wallet1, metadata.clone(), 0);
    registry.register_institution(String::from("Institution 2"), wallet2, metadata, 0);

    let institutions = registry.list_institutions();
    assert_eq!(institutions.len(), 2);
    assert_eq!(institutions[0].name, "Institution 1");
    assert_eq!(institutions[1].name, "Institution 2");
}

#[test]
fn test_remove_institution() {
    let mut registry = InstitutionContract::new();

    let admin: u64 = 900;
    let wallet: u64 = 41;

    registry.set_admin(admin).unwrap();
    let id = registry.register_institution(
        String::from("Institution"),
        wallet,
        String::from("Metadata"),
        0,
    );

    registry.remove_institution(id, admin).unwrap();

    let r = registry.get_institution(id);
    assert!(matches!(r, Err(Error::InstitutionNotFound)));
}

#[test]
fn test_non_admin_cannot_remove_institution() {
    let mut registry = InstitutionContract::new();

    let admin: u64 = 900;
    let non_admin: u64 = 901;
    let wallet: u64 = 41;

    registry.set_admin(admin).unwrap();
    let id = registry.register_institution(
        String::from("Institution"),
        wallet,
        String::from("Metadata"),
        0,
    );

    let r = registry.remove_institution(id, non_admin);
    assert!(matches!(r, Err(Error::Unauthorized)));
}

#[test]
fn test_institution_test_set_admin_twice_should_fail() {
    let mut registry = InstitutionContract::new();

    let admin1: u64 = 900;
    let admin2: u64 = 901;

    registry.set_admin(admin1).unwrap();
    let r = registry.set_admin(admin2);
    assert!(matches!(r, Err(Error::AdminAlreadySet)));
}

#[test]
fn test_remove_institution_with_certificates_fails() {
    let mut registry = InstitutionContract::new();

    let admin: u64 = 900;
    let wallet: u64 = 41;

    registry.set_admin(admin).unwrap();
    let id = registry.register_institution(
        String::from("Institution"),
        wallet,
        String::from("Metadata"),
        0,
    );
    // the certificate registry marked this institution as having issued
    registry.certificate_marks.push(id);

    let r = registry.remove_institution(id, admin);
    assert!(matches!(r, Err(Error::InstitutionHasCertificates)));
    assert!(registry.get_institution(id).is_ok());
}
