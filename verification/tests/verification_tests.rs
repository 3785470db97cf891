use credential_registry::verification::{Error, VerificationContract};

#[test]
fn test_certificate_verification() {
    let admin: u64 = 900;
    let requester: u64 = 777;
    let mut registry = VerificationContract::new(admin);

    let cert_id: u64 = 1234;
    registry.register_certificate(
        cert_id,
        String::from("John Doe"),
        String::from("Blockchain Development"),
        String::from("Stellar University"),
        1677609600, // March 1, 2023
    );

    let cert_details = registry.verify_certificate(cert_id);
    assert_eq!(cert_details.student, "John Doe");
    assert_eq!(cert_details.course, "Blockchain Development");
    assert_eq!(cert_details.institution, "Stellar University");
    assert_eq!(cert_details.issuance_date, 1677609600);
    assert!(cert_details.valid);

    let request_id = registry
        .submit_verification_request(cert_id, requester, 0)
        .unwrap();
    assert_eq!(request_id, 1);

    let requests = registry.list_verification_requests(cert_id);
    assert_eq!(requests.len(), 1);
    assert_eq!(requests[0].request_id, 1);
    assert_eq!(requests[0].certificate_id, cert_id);

    registry.revoke_verification_request(admin, request_id).unwrap();

    let requests_after = registry.list_verification_requests(cert_id);
    assert_eq!(requests_after.len(), 0);
}

#[test]
fn test_nonexistent_certificate() {
    let registry = VerificationContract::new(900);

    let cert_details = registry.verify_certificate(9999);
    assert!(!cert_details.valid);
    assert_eq!(cert_details.student, "");
}

#[test]
fn test_request_nonexistent_certificate() {
    let mut registry = VerificationContract::new(900);

    let requester: u64 = 777;
    let r = registry.submit_verification_request(9999, requester, 0);
    assert!(matches!(r, Err(Error::CertificateNotFound)));
}

#[test]
fn test_unauthorized_revocation() {
    let admin: u64 = 900;
    let not_admin: u64 = 901;
    let requester: u64 = 777;
    let mut registry = VerificationContract::new(admin);

    let cert_id: u64 = 1234;
    registry.register_certificate(
        cert_id,
        String::from("Jane Doe"),
        String::from("Smart Contracts"),
        String::from("Stellar University"),
        1677609600,
    );

    let request_id = registry
        .submit_verification_request(cert_id, requester, 0)
        .unwrap();

    let r = registry.revoke_verification_request(not_admin, request_id);
    assert!(matches!(r, Err(Error::Unauthorized)));
    // the request list is unchanged
    let requests = registry.list_verification_requests(cert_id);
    assert_eq!(requests.len(), 1);
    assert_eq!(requests[0].request_id, request_id);
}

#[test]
fn test_revoke_unknown_request_fails() {
    let admin: u64 = 900;
    let mut registry = VerificationContract::new(admin);

    let r = registry.revoke_verification_request(admin, 5);
    assert!(matches!(r, Err(Error::RequestNotFound)));
}

#[test]
fn test_reregistering_replaces_snapshot() {
    let mut registry = VerificationContract::new(900);

    let cert_id: u64 = 7;
    registry.register_certificate(
        cert_id,
        String::from("John Doe"),
        String::from("Blockchain Development"),
        String::from("Stellar University"),
        1,
    );
    registry.register_certificate(
        cert_id,
        String::from("John Doe"),
        String::from("Smart Contracts"),
        String::from("Stellar University"),
        2,
    );

    let details = registry.verify_certificate(cert_id);
    assert_eq!(details.course, "Smart Contracts");
    assert_eq!(details.issuance_date, 2);
}
