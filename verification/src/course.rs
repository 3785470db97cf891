//! Course registry: owns courses and enrollments. Course creation is gated
//! on the institution registry's verified flag; enrollment is unique per
//! (course, student); completion marks the enrollment and asks the
//! certificate registry to issue a certificate; removal is blocked while
//! any student remains enrolled.

use vstd::pervasive::VecAdditionalExecFns;
use vstd::prelude::*;

use crate::certificate::CertificateContract;
use crate::index::IdIndex;
use crate::institution::InstitutionContract;
use crate::seqs::{
    chosen_ids, has_id, index_of_id, lemma_chosen_ids_push, lemma_chosen_ids_update_same,
    lemma_id_maps_push, lemma_id_maps_remove, lemma_index_of_id_is, uniq_ids,
};

verus! {

/// The institution record the creation gate consults: the registries hold a
/// single known institution under this id.
pub const GATE_INSTITUTION_ID: u64 = 1;

#[derive(Clone, Copy, Debug, PartialEq, Eq, Structural)]
pub enum Error {
    CourseNotFound,
    Unauthorized,
    InstitutionNotVerified,
    InsufficientFunds,
    StudentAlreadyEnrolled,
    StudentsEnrolled,
}

pub struct Course {
    pub id: u64,
    pub title: String,
    pub institution: u64,
    pub price: u64,
    pub metadata: String,
    /// Template id recorded with the course.
    pub certificate_id: u64,
    pub created_at: u64,
}

impl Clone for Course {
    fn clone(&self) -> (r: Self)
        ensures
            r == *self,
    {
        Course {
            id: self.id,
            title: self.title.clone(),
            institution: self.institution,
            price: self.price,
            metadata: self.metadata.clone(),
            certificate_id: self.certificate_id,
            created_at: self.created_at,
        }
    }
}

#[derive(Clone, Copy, Debug, PartialEq, Eq, Structural)]
pub struct Enrollment {
    pub student: u64,
    pub course_id: u64,
    pub enrolled_at: u64,
    pub completed: bool,
}

/// The id under which a course record is addressed.
pub open spec fn course_id_of() -> spec_fn(Course) -> u64 {
    |c: Course| c.id
}

/// Enrollments of one course.
pub open spec fn enrolled_in(course_id: u64) -> spec_fn(Enrollment) -> bool {
    |e: Enrollment| e.course_id == course_id
}

/// Enrollments of one student.
pub open spec fn enrolled_student(student: u64) -> spec_fn(Enrollment) -> bool {
    |e: Enrollment| e.student == student
}

pub open spec fn enrollment_student() -> spec_fn(Enrollment) -> u64 {
    |e: Enrollment| e.student
}

pub open spec fn enrollment_course() -> spec_fn(Enrollment) -> u64 {
    |e: Enrollment| e.course_id
}

/// Some enrollment in `s` is for the (course, student) pair.
pub open spec fn seq_has_enrollment(s: Seq<Enrollment>, course_id: u64, student: u64) -> bool {
    exists|i: int|
        0 <= i < s.len() && (#[trigger] s[i]).course_id == course_id && s[i].student == student
}

/// The position of the enrollment for the pair (meaningful when it exists).
pub open spec fn seq_enrollment_index(s: Seq<Enrollment>, course_id: u64, student: u64) -> int {
    choose|i: int|
        0 <= i < s.len() && (#[trigger] s[i]).course_id == course_id && s[i].student == student
}

/// At most one enrollment per (course, student) pair.
pub open spec fn uniq_enrollments(s: Seq<Enrollment>) -> bool {
    forall|p: int, q: int|
        0 <= p < q < s.len() ==> !((#[trigger] s[p]).course_id == (#[trigger] s[q]).course_id
            && s[p].student == s[q].student)
}

pub struct CourseContract {
    /// Course records in creation order.
    pub courses: Vec<Course>,
    /// Enrollment records in enrollment order; never deleted.
    pub enrollments: Vec<Enrollment>,
    /// Per-student index: ids of the courses the student enrolled in.
    pub student_courses: IdIndex,
    /// Per-course index: the students enrolled in the course.
    pub course_students: IdIndex,
    /// Next course id to assign; ids never repeat.
    pub next_id: u64,
}

impl CourseContract {
    pub open spec fn wf(self) -> bool {
        &&& 1 <= self.next_id
        &&& uniq_ids(self.courses@, course_id_of())
        &&& forall|i: int|
            0 <= i < self.courses@.len() ==> (#[trigger] self.courses@[i]).id < self.next_id
        &&& uniq_enrollments(self.enrollments@)
        &&& self.student_courses.wf()
        &&& self.course_students.wf()
        &&& forall|c: u64|
            #[trigger] self.course_students.at(c) == chosen_ids(
                self.enrollments@,
                enrolled_in(c),
                enrollment_student(),
            )
        &&& forall|s: u64|
            #[trigger] self.student_courses.at(s) == chosen_ids(
                self.enrollments@,
                enrolled_student(s),
                enrollment_course(),
            )
    }

    pub open spec fn has_course(self, id: u64) -> bool {
        has_id(self.courses@, course_id_of(), id)
    }

    /// The course stored under `id` (meaningful when it exists).
    pub open spec fn spec_course(self, id: u64) -> Course {
        self.courses@[index_of_id(self.courses@, course_id_of(), id)]
    }

    pub open spec fn has_enrollment(self, course_id: u64, student: u64) -> bool {
        seq_has_enrollment(self.enrollments@, course_id, student)
    }

    pub open spec fn enrollment_index(self, course_id: u64, student: u64) -> int {
        seq_enrollment_index(self.enrollments@, course_id, student)
    }

    /// The enrollment for (course, student) (meaningful when it exists).
    pub open spec fn spec_enrollment(self, course_id: u64, student: u64) -> Enrollment {
        self.enrollments@[self.enrollment_index(course_id, student)]
    }

    /// The students enrolled in a course, in enrollment order.
    pub open spec fn spec_course_students(self, course_id: u64) -> Seq<u64> {
        self.course_students.at(course_id)
    }

    pub fn new() -> (r: CourseContract)
        ensures
            r.wf(),
            r.courses@ == Seq::<Course>::empty(),
            r.enrollments@ == Seq::<Enrollment>::empty(),
            r.next_id == 1,
            forall|c: u64| #[trigger] r.spec_course_students(c) == Seq::<u64>::empty(),
    {
        CourseContract {
            courses: Vec::new(),
            enrollments: Vec::new(),
            student_courses: IdIndex::new(),
            course_students: IdIndex::new(),
            next_id: 1,
        }
    }

    /// Position of the course record for `id`, if one exists.
    fn find_course(&self, id: u64) -> (r: Option<usize>)
        requires
            self.wf(),
        ensures
            match r {
                Some(i) => i < self.courses@.len() && self.courses@[i as int].id == id
                    && self.has_course(id) && index_of_id(self.courses@, course_id_of(), id) == i,
                None => !self.has_course(id),
            },
    {
        let mut i: usize = 0;
        while i < self.courses.len()
            invariant
                i <= self.courses@.len(),
                forall|j: int| 0 <= j < i ==> (#[trigger] self.courses@[j]).id != id,
                self.wf(),
            decreases self.courses@.len() - i,
        {
            if self.courses[i].id == id {
                proof {
                    assert(course_id_of()(self.courses@[i as int]) == id);
                    lemma_index_of_id_is(self.courses@, course_id_of(), id, i as int);
                }
                return Some(i);
            }
            i += 1;
        }
        proof {
            if self.has_course(id) {
                let j = choose|j: int|
                    0 <= j < self.courses@.len() && course_id_of()(#[trigger] self.courses@[j])
                        == id;
                assert(self.courses@[j].id != id);
            }
        }
        None
    }

    /// Position of the enrollment for (course, student), if one exists.
    fn find_enrollment(&self, course_id: u64, student: u64) -> (r: Option<usize>)
        requires
            self.wf(),
        ensures
            match r {
                Some(i) => i < self.enrollments@.len() && self.enrollments@[i as int].course_id
                    == course_id && self.enrollments@[i as int].student == student
                    && self.has_enrollment(course_id, student) && self.enrollment_index(
                    course_id,
                    student,
                ) == i,
                None => !self.has_enrollment(course_id, student),
            },
    {
        let mut i: usize = 0;
        while i < self.enrollments.len()
            invariant
                i <= self.enrollments@.len(),
                forall|j: int|
                    0 <= j < i ==> !((#[trigger] self.enrollments@[j]).course_id == course_id
                        && self.enrollments@[j].student == student),
                self.wf(),
            decreases self.enrollments@.len() - i,
        {
            if self.enrollments[i].course_id == course_id && self.enrollments[i].student == student {
                proof {
                    lemma_enrollment_index_is(self.enrollments@, course_id, student, i as int);
                }
                return Some(i);
            }
            i += 1;
        }
        proof {
            if self.has_enrollment(course_id, student) {
                let j = choose|j: int|
                    0 <= j < self.enrollments@.len() && (#[trigger] self.enrollments@[j]).course_id
                        == course_id && self.enrollments@[j].student == student;
                assert(!(self.enrollments@[j].course_id == course_id && self.enrollments@[j].student
                    == student));
            }
        }
        None
    }

    /// Creates a course under a fresh id. The caller is authenticated as
    /// `institution` by the surrounding runtime; creation succeeds exactly
    /// when the consulted institution record is verified.
    pub fn create_course(
        &mut self,
        title: String,
        institution: u64,
        price: u64,
        metadata: String,
        certificate_id: u64,
        registry: &InstitutionContract,
        now: u64,
    ) -> (r: Result<u64, Error>)
        requires
            old(self).wf(),
            registry.wf(),
            old(self).next_id < u64::MAX,
        ensures
            final(self).wf(),
            !registry.spec_is_verified(GATE_INSTITUTION_ID) ==> r == Err::<u64, Error>(
                Error::InstitutionNotVerified,
            ) && *final(self) == *old(self),
            registry.spec_is_verified(GATE_INSTITUTION_ID) ==> {
                &&& r == Ok::<u64, Error>(old(self).next_id)
                &&& final(self).courses@ == old(self).courses@.push(
                    (Course {
                        id: old(self).next_id,
                        title,
                        institution,
                        price,
                        metadata,
                        certificate_id,
                        created_at: now,
                    }),
                )
                &&& final(self).next_id == old(self).next_id + 1
                &&& final(self).enrollments == old(self).enrollments
                &&& final(self).student_courses == old(self).student_courses
                &&& final(self).course_students == old(self).course_students
                &&& final(self).has_course(old(self).next_id)
                &&& final(self).spec_course(old(self).next_id) == (Course {
                    id: old(self).next_id,
                    title,
                    institution,
                    price,
                    metadata,
                    certificate_id,
                    created_at: now,
                })
                &&& forall|id2: u64|
                    id2 != old(self).next_id ==> #[trigger] final(self).has_course(id2) == old(self).has_course(id2)
                &&& forall|id2: u64|
                    id2 != old(self).next_id && old(self).has_course(id2) ==> #[trigger] final(self).spec_course(id2) == old(self).spec_course(id2)
            },
    {
        if !registry.is_verified(GATE_INSTITUTION_ID) {
            return Err(Error::InstitutionNotVerified);
        }
        let id = self.next_id;
        self.next_id = self.next_id + 1;
        let course = Course {
            id,
            title,
            institution,
            price,
            metadata,
            certificate_id,
            created_at: now,
        };
        let ghost gcourse = course;
        self.courses.push(course);
        proof {
            assert(!has_id(old(self).courses@, course_id_of(), id)) by {
                if has_id(old(self).courses@, course_id_of(), id) {
                    let j = choose|j: int|
                        0 <= j < old(self).courses@.len() && course_id_of()(
                            #[trigger] old(self).courses@[j],
                        ) == id;
                    assert(old(self).courses@[j].id < old(self).next_id);
                }
            }
            assert(course_id_of()(gcourse) == id);
            lemma_id_maps_push(old(self).courses@, course_id_of(), gcourse);
        }
        Ok(id)
    }

    /// Enrolls a student (authenticated by the runtime) in a course, at most
    /// once per (course, student) pair; a failed call changes nothing.
    pub fn enroll_in_course(&mut self, course_id: u64, student: u64, now: u64) -> (r: Result<
        (),
        Error,
    >)
        requires
            old(self).wf(),
        ensures
            final(self).wf(),
            !old(self).has_course(course_id) ==> r == Err::<(), Error>(Error::CourseNotFound)
                && *final(self) == *old(self),
            old(self).has_course(course_id) && old(self).has_enrollment(course_id, student) ==> r
                == Err::<(), Error>(Error::StudentAlreadyEnrolled) && *final(self) == *old(self),
            old(self).has_course(course_id) && !old(self).has_enrollment(course_id, student) ==> {
                &&& r == Ok::<(), Error>(())
                &&& final(self).enrollments@ == old(self).enrollments@.push(
                    (Enrollment { student, course_id, enrolled_at: now, completed: false }),
                )
                &&& final(self).courses == old(self).courses
                &&& final(self).next_id == old(self).next_id
                &&& final(self).has_enrollment(course_id, student)
                &&& final(self).spec_enrollment(course_id, student) == (Enrollment {
                    student,
                    course_id,
                    enrolled_at: now,
                    completed: false,
                })
                &&& final(self).spec_course_students(course_id) == old(self).spec_course_students(
                    course_id,
                ).push(student)
                &&& forall|c2: u64|
                    c2 != course_id ==> #[trigger] final(self).spec_course_students(c2) == old(self).spec_course_students(c2)
                &&& forall|c2: u64, s2: u64|
                    !(c2 == course_id && s2 == student) ==> #[trigger] final(self).has_enrollment(
                        c2,
                        s2,
                    ) == old(self).has_enrollment(c2, s2)
                &&& forall|c2: u64, s2: u64|
                    !(c2 == course_id && s2 == student) && old(self).has_enrollment(c2, s2)
                        ==> #[trigger] final(self).spec_enrollment(c2, s2) == old(self).spec_enrollment(c2, s2)
            },
    {
        if self.find_course(course_id).is_none() {
            return Err(Error::CourseNotFound);
        }
        if self.find_enrollment(course_id, student).is_some() {
            return Err(Error::StudentAlreadyEnrolled);
        }
        let enrollment = Enrollment { student, course_id, enrolled_at: now, completed: false };
        self.enrollments.push(enrollment);
        self.student_courses.push_value(student, course_id);
        self.course_students.push_value(course_id, student);
        proof {
            lemma_enrollment_maps_push(old(self).enrollments@, enrollment);
            assert forall|c: u64|
                #[trigger] self.course_students.at(c) == chosen_ids(
                    self.enrollments@,
                    enrolled_in(c),
                    enrollment_student(),
                ) by {
                lemma_chosen_ids_push(
                    old(self).enrollments@,
                    enrolled_in(c),
                    enrollment_student(),
                    enrollment,
                );
            }
            assert forall|s: u64|
                #[trigger] self.student_courses.at(s) == chosen_ids(
                    self.enrollments@,
                    enrolled_student(s),
                    enrollment_course(),
                ) by {
                lemma_chosen_ids_push(
                    old(self).enrollments@,
                    enrolled_student(s),
                    enrollment_course(),
                    enrollment,
                );
            }
        }
        Ok(())
    }

    /// Marks the student's enrollment completed and asks the certificate
    /// registry to issue a certificate for the course's institution; the
    /// issued id is not stored back. Completing twice is not an error and
    /// issues a second certificate. Only the course's owning institution
    /// (authenticated by the runtime) may complete.
    pub fn complete_course(
        &mut self,
        course_id: u64,
        student: u64,
        caller: u64,
        certificates: &mut CertificateContract,
        now: u64,
    ) -> (r: Result<(), Error>)
        requires
            old(self).wf(),
            old(certificates).wf(),
            old(certificates).next_id < u64::MAX,
        ensures
            final(self).wf(),
            final(certificates).wf(),
            !old(self).has_course(course_id) ==> r == Err::<(), Error>(Error::CourseNotFound)
                && *final(self) == *old(self) && *final(certificates) == *old(certificates),
            old(self).has_course(course_id) && caller != old(self).spec_course(
                course_id,
            ).institution ==> r == Err::<(), Error>(Error::Unauthorized) && *final(self) == *old(self) && *final(certificates) == *old(certificates),
            old(self).has_course(course_id) && caller == old(self).spec_course(
                course_id,
            ).institution && !old(self).has_enrollment(course_id, student) ==> r == Err::<
                (),
                Error,
            >(Error::Unauthorized) && *final(self) == *old(self) && *final(certificates) == *old(certificates),
            old(self).has_course(course_id) && caller == old(self).spec_course(
                course_id,
            ).institution && old(self).has_enrollment(course_id, student) ==> {
                &&& r == Ok::<(), Error>(())
                &&& final(self).enrollments@ == old(self).enrollments@.update(
                    old(self).enrollment_index(course_id, student),
                    (Enrollment { completed: true, ..old(self).spec_enrollment(course_id, student) }),
                )
                &&& final(self).courses == old(self).courses
                &&& final(self).next_id == old(self).next_id
                &&& final(self).student_courses == old(self).student_courses
                &&& final(self).course_students == old(self).course_students
                &&& final(self).has_enrollment(course_id, student)
                &&& final(self).spec_enrollment(course_id, student) == (Enrollment {
                    completed: true,
                    ..old(self).spec_enrollment(course_id, student)
                })
                &&& forall|c2: u64, s2: u64|
                    #[trigger] final(self).has_enrollment(c2, s2) == old(self).has_enrollment(
                        c2,
                        s2,
                    )
                &&& forall|c2: u64, s2: u64|
                    !(c2 == course_id && s2 == student) && old(self).has_enrollment(c2, s2)
                        ==> #[trigger] final(self).spec_enrollment(c2, s2) == old(self).spec_enrollment(c2, s2)
                &&& final(certificates).certificates@ == old(certificates).certificates@.push(
                    (crate::certificate::Certificate {
                        id: old(certificates).next_id,
                        student,
                        course_id,
                        institution: old(self).spec_course(course_id).institution,
                        issued_at: now,
                        metadata: old(self).spec_course(course_id).metadata,
                        status: true,
                    }),
                )
                &&& final(certificates).next_id == old(certificates).next_id + 1
                &&& final(certificates).spec_student_certificates(student) == old(certificates).spec_student_certificates(student).push(old(certificates).next_id)
                &&& forall|s2: u64|
                    s2 != student ==> #[trigger] final(certificates).spec_student_certificates(s2)
                        == old(certificates).spec_student_certificates(s2)
            },
    {
        let ci = match self.find_course(course_id) {
            None => {
                return Err(Error::CourseNotFound);
            },
            Some(ci) => ci,
        };
        if self.courses[ci].institution != caller {
            return Err(Error::Unauthorized);
        }
        let ei = match self.find_enrollment(course_id, student) {
            None => {
                return Err(Error::Unauthorized);
            },
            Some(ei) => ei,
        };
        let mut enrollment = self.enrollments[ei];
        enrollment.completed = true;
        self.enrollments.set(ei, enrollment);
        proof {
            lemma_enrollment_maps_preserved(old(self).enrollments@, self.enrollments@);
            assert forall|c: u64|
                #[trigger] self.course_students.at(c) == chosen_ids(
                    self.enrollments@,
                    enrolled_in(c),
                    enrollment_student(),
                ) by {
                lemma_chosen_ids_update_same(
                    old(self).enrollments@,
                    enrolled_in(c),
                    enrollment_student(),
                    ei as int,
                    enrollment,
                );
            }
            assert forall|s: u64|
                #[trigger] self.student_courses.at(s) == chosen_ids(
                    self.enrollments@,
                    enrolled_student(s),
                    enrollment_course(),
                ) by {
                lemma_chosen_ids_update_same(
                    old(self).enrollments@,
                    enrolled_student(s),
                    enrollment_course(),
                    ei as int,
                    enrollment,
                );
            }
        }
        let institution = self.courses[ci].institution;
        let certificate_metadata = self.courses[ci].metadata.clone();
        let _certificate = certificates.issue_certificate(
            student,
            course_id,
            institution,
            certificate_metadata,
            now,
        );
        Ok(())
    }

    /// Returns a copy of the course stored under `id`.
    pub fn get_course(&self, id: u64) -> (r: Result<Course, Error>)
        requires
            self.wf(),
        ensures
            self.has_course(id) ==> r == Ok::<Course, Error>(self.spec_course(id)),
            !self.has_course(id) ==> r == Err::<Course, Error>(Error::CourseNotFound),
    {
        match self.find_course(id) {
            Some(i) => Ok(self.courses[i].clone()),
            None => Err(Error::CourseNotFound),
        }
    }

    /// All live courses in creation order.
    pub fn list_courses(&self) -> (r: Vec<Course>)
        requires
            self.wf(),
        ensures
            r@ == self.courses@,
    {
        let mut r: Vec<Course> = Vec::new();
        let mut i: usize = 0;
        while i < self.courses.len()
            invariant
                i <= self.courses@.len(),
                r@ == self.courses@.subrange(0, i as int),
                self.wf(),
            decreases self.courses@.len() - i,
        {
            r.push(self.courses[i].clone());
            proof {
                assert(self.courses@.subrange(0, i as int + 1) =~= self.courses@.subrange(
                    0,
                    i as int,
                ).push(self.courses@[i as int]));
            }
            i += 1;
        }
        proof {
            assert(self.courses@.subrange(0, self.courses@.len() as int) =~= self.courses@);
        }
        r
    }

    /// Deletes a course; only its owning institution may, and only while no
    /// student is enrolled. A failed call leaves the course intact.
    pub fn remove_course(&mut self, id: u64, institution: u64) -> (r: Result<(), Error>)
        requires
            old(self).wf(),
        ensures
            final(self).wf(),
            !old(self).has_course(id) ==> r == Err::<(), Error>(Error::CourseNotFound) && *final(self) == *old(self),
            old(self).has_course(id) && old(self).spec_course(id).institution != institution ==> r
                == Err::<(), Error>(Error::Unauthorized) && *final(self) == *old(self),
            old(self).has_course(id) && old(self).spec_course(id).institution == institution && old(self).spec_course_students(id).len() > 0 ==> r == Err::<(), Error>(Error::StudentsEnrolled)
                && *final(self) == *old(self),
            old(self).has_course(id) && old(self).spec_course(id).institution == institution && old(self).spec_course_students(id).len() == 0 ==> {
                &&& r == Ok::<(), Error>(())
                &&& final(self).courses@ == old(self).courses@.remove(
                    index_of_id(old(self).courses@, course_id_of(), id),
                )
                &&& !final(self).has_course(id)
                &&& final(self).enrollments == old(self).enrollments
                &&& final(self).next_id == old(self).next_id
                &&& final(self).student_courses == old(self).student_courses
                &&& final(self).course_students == old(self).course_students
                &&& forall|id2: u64|
                    id2 != id ==> #[trigger] final(self).has_course(id2) == old(self).has_course(
                        id2,
                    )
                &&& forall|id2: u64|
                    id2 != id && old(self).has_course(id2) ==> #[trigger] final(self).spec_course(
                        id2,
                    ) == old(self).spec_course(id2)
            },
    {
        let i = match self.find_course(id) {
            None => {
                return Err(Error::CourseNotFound);
            },
            Some(i) => i,
        };
        if self.courses[i].institution != institution {
            return Err(Error::Unauthorized);
        }
        let students = self.course_students.get_list(id);
        if students.len() > 0 {
            return Err(Error::StudentsEnrolled);
        }
        self.courses.remove(i);
        proof {
            lemma_id_maps_remove(old(self).courses@, course_id_of(), i as int);
            assert forall|id2: u64|
                id2 != id && old(self).has_course(id2) implies #[trigger] self.spec_course(id2)
                == old(self).spec_course(id2) by {
                assert(id2 != course_id_of()(old(self).courses@[i as int]));
            }
        }
        Ok(())
    }
}

/// The scan position for a (course, student) pair is unique.
proof fn lemma_enrollment_index_is(s: Seq<Enrollment>, course_id: u64, student: u64, i: int)
    requires
        uniq_enrollments(s),
        0 <= i < s.len(),
        s[i].course_id == course_id,
        s[i].student == student,
    ensures
        seq_has_enrollment(s, course_id, student),
        seq_enrollment_index(s, course_id, student) == i,
{
    assert(seq_has_enrollment(s, course_id, student)) by {
        assert(0 <= i < s.len() && s[i].course_id == course_id && s[i].student == student);
    }
    let j = seq_enrollment_index(s, course_id, student);
    assert(0 <= j < s.len() && s[j].course_id == course_id && s[j].student == student);
    if i < j {
        assert(!(s[i].course_id == s[j].course_id && s[i].student == s[j].student));
    } else if j < i {
        assert(!(s[j].course_id == s[i].course_id && s[j].student == s[i].student));
    }
}

/// Appending a fresh pair keeps the pairs unique and the other lookups intact.
proof fn lemma_enrollment_maps_push(s: Seq<Enrollment>, x: Enrollment)
    requires
        uniq_enrollments(s),
        !seq_has_enrollment(s, x.course_id, x.student),
    ensures
        uniq_enrollments(s.push(x)),
        seq_has_enrollment(s.push(x), x.course_id, x.student),
        seq_enrollment_index(s.push(x), x.course_id, x.student) == s.len(),
        forall|c: u64, st: u64|
            !(c == x.course_id && st == x.student) ==> #[trigger] seq_has_enrollment(
                s.push(x),
                c,
                st,
            ) == seq_has_enrollment(s, c, st),
        forall|c: u64, st: u64|
            !(c == x.course_id && st == x.student) && #[trigger] seq_has_enrollment(s, c, st)
                ==> seq_enrollment_index(s.push(x), c, st) == seq_enrollment_index(s, c, st),
{
    let t = s.push(x);
    assert forall|p: int, q: int| 0 <= p < q < t.len() implies !((#[trigger] t[p]).course_id == (
    #[trigger] t[q]).course_id && t[p].student == t[q].student) by {
        if q < s.len() {
            assert(t[p] == s[p]);
            assert(t[q] == s[q]);
        } else {
            assert(t[q] == x);
            assert(t[p] == s[p]);
            if s[p].course_id == x.course_id && s[p].student == x.student {
                assert(seq_has_enrollment(s, x.course_id, x.student)) by {
                    assert(0 <= p < s.len() && s[p].course_id == x.course_id && s[p].student
                        == x.student);
                }
            }
        }
    }
    assert(t[s.len() as int] == x);
    lemma_enrollment_index_is(t, x.course_id, x.student, s.len() as int);
    assert forall|c: u64, st: u64|
        !(c == x.course_id && st == x.student) implies #[trigger] seq_has_enrollment(t, c, st)
        == seq_has_enrollment(s, c, st) by {
        if seq_has_enrollment(s, c, st) {
            let i = seq_enrollment_index(s, c, st);
            assert(0 <= i < s.len() && s[i].course_id == c && s[i].student == st);
            assert(t[i] == s[i]);
            lemma_enrollment_index_is(t, c, st, i);
        }
        if seq_has_enrollment(t, c, st) {
            let i = choose|i: int|
                0 <= i < t.len() && (#[trigger] t[i]).course_id == c && t[i].student == st;
            assert(i < s.len());
            assert(seq_has_enrollment(s, c, st)) by {
                assert(0 <= i < s.len() && s[i].course_id == c && s[i].student == st);
            }
        }
    }
    assert forall|c: u64, st: u64|
        !(c == x.course_id && st == x.student) && #[trigger] seq_has_enrollment(s, c, st) implies
        seq_enrollment_index(t, c, st) == seq_enrollment_index(s, c, st) by {
        let i = seq_enrollment_index(s, c, st);
        assert(0 <= i < s.len() && s[i].course_id == c && s[i].student == st);
        assert(t[i] == s[i]);
        lemma_enrollment_index_is(t, c, st, i);
    }
}

/// Replacing enrollments without touching their pairs keeps every lookup.
proof fn lemma_enrollment_maps_preserved(s1: Seq<Enrollment>, s2: Seq<Enrollment>)
    requires
        s1.len() == s2.len(),
        uniq_enrollments(s1),
        forall|i: int|
            0 <= i < s1.len() ==> (#[trigger] s2[i]).course_id == s1[i].course_id && s2[i].student
                == s1[i].student,
    ensures
        uniq_enrollments(s2),
        forall|c: u64, st: u64|
            #[trigger] seq_has_enrollment(s2, c, st) == seq_has_enrollment(s1, c, st),
        forall|c: u64, st: u64|
            #[trigger] seq_has_enrollment(s1, c, st) ==> seq_enrollment_index(s2, c, st)
                == seq_enrollment_index(s1, c, st),
{
    assert forall|p: int, q: int| 0 <= p < q < s2.len() implies !((#[trigger] s2[p]).course_id == (
    #[trigger] s2[q]).course_id && s2[p].student == s2[q].student) by {
        assert(s1[p].course_id == s2[p].course_id && s1[p].student == s2[p].student);
        assert(s1[q].course_id == s2[q].course_id && s1[q].student == s2[q].student);
        assert(!(s1[p].course_id == s1[q].course_id && s1[p].student == s1[q].student));
    }
    assert forall|c: u64, st: u64| #[trigger] seq_has_enrollment(s2, c, st) == seq_has_enrollment(
        s1,
        c,
        st,
    ) by {
        if seq_has_enrollment(s1, c, st) {
            let i = choose|i: int|
                0 <= i < s1.len() && (#[trigger] s1[i]).course_id == c && s1[i].student == st;
            assert(s2[i].course_id == c && s2[i].student == st);
        }
        if seq_has_enrollment(s2, c, st) {
            let i = choose|i: int|
                0 <= i < s2.len() && (#[trigger] s2[i]).course_id == c && s2[i].student == st;
            assert(s1[i].course_id == c && s1[i].student == st);
        }
    }
    assert forall|c: u64, st: u64| #[trigger] seq_has_enrollment(s1, c, st) implies
        seq_enrollment_index(s2, c, st) == seq_enrollment_index(s1, c, st) by {
        let i = seq_enrollment_index(s1, c, st);
        assert(0 <= i < s1.len() && s1[i].course_id == c && s1[i].student == st);
        assert(s2[i].course_id == c && s2[i].student == st);
        lemma_enrollment_index_is(s2, c, st, i);
    }
}

} // verus!
