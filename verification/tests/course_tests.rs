use credential_registry::certificate::CertificateContract;
use credential_registry::course::{CourseContract, Error};
use credential_registry::institution::InstitutionContract;

/// An institution registry whose single known record (id 1) is verified —
/// or not — as the course-creation gate expects.
fn gate_registry(verified: bool) -> InstitutionContract {
    let mut registry = InstitutionContract::new();
    let admin: u64 = 900;
    registry.set_admin(admin).unwrap();
    let id = registry.register_institution(
        String::from("Gate Institution"),
        40,
        String::from("Metadata"),
        0,
    );
    assert_eq!(id, 1);
    if verified {
        registry.verify_institution(id, admin).unwrap();
    }
    registry
}

#[test]
fn test_list_courses() {
    let courses = CourseContract::new();
    assert_eq!(courses.list_courses().len(), 0);
}

#[test]
fn test_create_course() {
    let mut courses = CourseContract::new();
    let registry = gate_registry(true);

    let institution: u64 = 77;
    let title = String::from("Rust Programming 101");
    let price: u64 = 100;
    let metadata = String::from("ipfs://QmXoypizjW3WknFiJnKLwHCnL72vedxjQkDDP1mXWo6uco");
    let certificate_id: u64 = 1;

    let course_id = courses
        .create_course(
            title.clone(),
            institution,
            price,
            metadata.clone(),
            certificate_id,
            &registry,
            0,
        )
        .unwrap();

    let course = courses.get_course(course_id).unwrap();

    assert_eq!(course.title, title);
    assert_eq!(course.institution, institution);
    assert_eq!(course.price, price);
    assert_eq!(course.metadata, metadata);
    assert_eq!(course.certificate_id, certificate_id);
}

#[test]
fn test_enroll_duplicate_panics() {
    let mut courses = CourseContract::new();
    let registry = gate_registry(true);

    let institution: u64 = 77;
    let student: u64 = 501;

    let course_id = courses
        .create_course(
            String::from("Blockchain Development"),
            institution,
            50,
            String::from("ipfs://QmHash"),
            1,
            &registry,
            0,
        )
        .unwrap();

    courses.enroll_in_course(course_id, student, 0).unwrap();

    let r = courses.enroll_in_course(course_id, student, 0);
    assert!(matches!(r, Err(Error::StudentAlreadyEnrolled)));
}

#[test]
fn test_complete_course() {
    let mut courses = CourseContract::new();
    let mut certificates = CertificateContract::new();
    let registry = gate_registry(true);

    let institution: u64 = 77;
    let student: u64 = 501;

    let course_id = courses
        .create_course(
            String::from("Soroban Smart Contracts"),
            institution,
            75,
            String::from("ipfs://QmMetadata"),
            2,
            &registry,
            0,
        )
        .unwrap();

    courses.enroll_in_course(course_id, student, 0).unwrap();

    courses
        .complete_course(course_id, student, institution, &mut certificates, 0)
        .unwrap();

    // completing again is not an error and mints a second certificate
    courses
        .complete_course(course_id, student, institution, &mut certificates, 0)
        .unwrap();
    assert_eq!(certificates.list_certificates(student).len(), 2);
}

#[test]
fn test_remove_course() {
    let mut courses = CourseContract::new();
    let registry = gate_registry(true);

    let institution: u64 = 77;

    let course_id = courses
        .create_course(
            String::from("Temporary Course"),
            institution,
            30,
            String::from("ipfs://QmTempCourse"),
            3,
            &registry,
            0,
        )
        .unwrap();

    assert_eq!(courses.list_courses().len(), 1);

    courses.remove_course(course_id, institution).unwrap();

    assert_eq!(courses.list_courses().len(), 0);

    let r = courses.get_course(course_id);
    assert!(
        matches!(r, Err(Error::CourseNotFound)),
        "Expected get_course to fail for a removed course"
    );
}

#[test]
fn test_remove_course_with_enrolled_students() {
    let mut courses = CourseContract::new();
    let registry = gate_registry(true);

    let institution: u64 = 77;
    let student: u64 = 501;

    let course_id = courses
        .create_course(
            String::from("Popular Course"),
            institution,
            40,
            String::from("ipfs://QmPopularCourse"),
            4,
            &registry,
            0,
        )
        .unwrap();

    courses.enroll_in_course(course_id, student, 0).unwrap();

    let r = courses.remove_course(course_id, institution);
    assert!(matches!(r, Err(Error::StudentsEnrolled)));
    // the course record stays intact
    assert!(courses.get_course(course_id).is_ok());
}

#[test]
fn test_unauthorized_operations() {
    let mut courses = CourseContract::new();
    let registry = gate_registry(true);

    let institution: u64 = 77;
    let unauthorized_institution: u64 = 78;

    let course_id = courses
        .create_course(
            String::from("Secure Course"),
            institution,
            60,
            String::from("ipfs://QmSecureCourse"),
            5,
            &registry,
            0,
        )
        .unwrap();

    let r = courses.remove_course(course_id, unauthorized_institution);
    assert!(matches!(r, Err(Error::Unauthorized)));
}

#[test]
fn test_unverified_institution() {
    let mut courses = CourseContract::new();
    let registry = gate_registry(false);

    let institution: u64 = 77;

    let r = courses.create_course(
        String::from("Unverified Course"),
        institution,
        20,
        String::from("ipfs://QmUnverifiedCourse"),
        6,
        &registry,
        0,
    );
    assert!(matches!(r, Err(Error::InstitutionNotVerified)));
    assert_eq!(courses.list_courses().len(), 0);
}

#[test]
fn test_enroll_unknown_course_fails() {
    let mut courses = CourseContract::new();
    let r = courses.enroll_in_course(7, 501, 0);
    assert!(matches!(r, Err(Error::CourseNotFound)));
}

#[test]
fn test_complete_requires_enrollment_and_owner() {
    let mut courses = CourseContract::new();
    let mut certificates = CertificateContract::new();
    let registry = gate_registry(true);

    let institution: u64 = 77;
    let student: u64 = 501;

    let course_id = courses
        .create_course(
            String::from("Gated Course"),
            institution,
            10,
            String::from("ipfs://QmGated"),
            7,
            &registry,
            0,
        )
        .unwrap();

    // not enrolled: completion is refused
    let r = courses.complete_course(course_id, student, institution, &mut certificates, 0);
    assert!(matches!(r, Err(Error::Unauthorized)));

    // wrong institution: completion is refused
    courses.enroll_in_course(course_id, student, 0).unwrap();
    let r = courses.complete_course(course_id, student, 78, &mut certificates, 0);
    assert!(matches!(r, Err(Error::Unauthorized)));
    assert_eq!(certificates.list_certificates(student).len(), 0);
}
