use credential_registry::certificate::{CertificateContract, Error};

#[test]
fn test_certificate_lifecycle() {
    let mut registry = CertificateContract::new();

    let student: u64 = 501;
    let institution: u64 = 77;
    let course_id: u64 = 1;
    let metadata = String::from("123");

    let cert_id = registry.issue_certificate(student, course_id, institution, metadata.clone(), 0);

    let cert = registry.verify_certificate(cert_id).unwrap();
    assert_eq!(cert.student, student);
    assert_eq!(cert.course_id, course_id);
    assert_eq!(cert.institution, institution);
    assert_eq!(cert.metadata, metadata);
    assert_eq!(cert.status, true);

    let certs = registry.list_certificates(student);
    assert_eq!(certs.len(), 1);
    assert_eq!(certs[0].id, cert_id);

    registry.revoke_certificate(cert_id, institution).unwrap();
    let revoked_cert = registry.verify_certificate(cert_id).unwrap();
    assert_eq!(revoked_cert.status, false);
}

#[test]
fn test_multiple_certificates() {
    let mut registry = CertificateContract::new();

    let student: u64 = 501;
    let institution: u64 = 77;

    let cert_id1 = registry.issue_certificate(student, 1, institution, String::from("1"), 0);
    let cert_id2 = registry.issue_certificate(student, 2, institution, String::from("2"), 0);

    let certs = registry.list_certificates(student);
    assert_eq!(certs.len(), 2);

    assert_eq!(registry.verify_certificate(cert_id1).unwrap().status, true);
    assert_eq!(registry.verify_certificate(cert_id2).unwrap().status, true);
}

#[test]
fn test_verify_unknown_certificate_fails() {
    let registry = CertificateContract::new();
    let r = registry.verify_certificate(9999);
    assert!(matches!(r, Err(Error::CertificateNotFound)));
}

#[test]
fn test_revoke_requires_issuing_institution() {
    let mut registry = CertificateContract::new();

    let student: u64 = 501;
    let institution: u64 = 77;
    let other: u64 = 78;

    let cert_id = registry.issue_certificate(student, 1, institution, String::from("1"), 0);

    let r = registry.revoke_certificate(cert_id, other);
    assert!(matches!(r, Err(Error::Unauthorized)));
    assert_eq!(registry.verify_certificate(cert_id).unwrap().status, true);

    let r = registry.revoke_certificate(9999, institution);
    assert!(matches!(r, Err(Error::CertificateNotFound)));
}
