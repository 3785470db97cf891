use credential_registry::certificate::CertificateContract;
use credential_registry::course::{CourseContract, Error as CourseError};
use credential_registry::institution::InstitutionContract;
use credential_registry::records::{NewCourseProgress, NewMarketplaceTransaction};
use credential_registry::revoked::RevokedRegistry;

/// The full credential lifecycle across the registries: an unverified
/// institution cannot publish; once verified it publishes course 1; a
/// student enrolls and completes; completion mints an active certificate;
/// the revocation registry's flag is independent of the certificate
/// registry's own status flag.
#[test]
fn test_credential_lifecycle_across_registries() {
    let mut institutions = InstitutionContract::new();
    let mut courses = CourseContract::new();
    let mut certificates = CertificateContract::new();
    let mut revocations = RevokedRegistry::new();

    let admin: u64 = 900;
    let wallet: u64 = 41;
    let student: u64 = 501;

    institutions.set_admin(admin).unwrap();
    let institution_id = institutions.register_institution(
        String::from("Institution"),
        wallet,
        String::from("Metadata"),
        0,
    );
    assert_eq!(institution_id, 1);

    // unverified: course creation is refused
    let r = courses.create_course(
        String::from("Course"),
        wallet,
        100,
        String::from("ipfs://QmCourse"),
        1,
        &institutions,
        0,
    );
    assert!(matches!(r, Err(CourseError::InstitutionNotVerified)));

    // verified: creation succeeds and returns id 1
    institutions.verify_institution(institution_id, admin).unwrap();
    let course_id = courses
        .create_course(
            String::from("Course"),
            wallet,
            100,
            String::from("ipfs://QmCourse"),
            1,
            &institutions,
            0,
        )
        .unwrap();
    assert_eq!(course_id, 1);

    // enrollment starts uncompleted
    courses.enroll_in_course(course_id, student, 5).unwrap();
    assert_eq!(courses.enrollments[0].completed, false);

    // completion mints an active certificate
    courses
        .complete_course(course_id, student, wallet, &mut certificates, 6)
        .unwrap();
    assert_eq!(courses.enrollments[0].completed, true);
    let minted = certificates.list_certificates(student);
    assert_eq!(minted.len(), 1);
    assert_eq!(minted[0].status, true);
    let cert_id = minted[0].id;

    // the admin-curated revocation list is independent of the certificate
    // registry's own status flag: revoking there flips neither
    revocations.Set_admin(admin).unwrap();
    revocations
        .Revoke_Certificate(admin, cert_id, String::from("Forgery"), 7)
        .unwrap();
    assert!(revocations.is_revoked(cert_id));
    assert_eq!(certificates.verify_certificate(cert_id).unwrap().status, true);

    // and revoking on the certificate registry leaves the list alone
    certificates.revoke_certificate(cert_id, wallet).unwrap();
    assert_eq!(certificates.verify_certificate(cert_id).unwrap().status, false);
    assert!(revocations.is_revoked(cert_id));
}

#[test]
fn test_fresh_progress_record() {
    let progress = NewCourseProgress::fresh(1, 1);
    assert_eq!(progress.user_id, 1);
    assert_eq!(progress.course_id, 1);
    assert_eq!(progress.progress, 0);
    assert_eq!(progress.completed, false);
}

#[test]
fn test_pending_purchase_record() {
    let tx = NewMarketplaceTransaction::pending(
        7,
        9,
        2500,
        String::from("XLM"),
        String::from("abc123"),
    );
    assert_eq!(tx.buyer_id, 7);
    assert_eq!(tx.course_id, 9);
    assert_eq!(tx.amount, 2500);
    assert_eq!(tx.currency, "XLM");
    assert_eq!(tx.transaction_hash, "abc123");
    assert_eq!(tx.status, "Pending");
}
