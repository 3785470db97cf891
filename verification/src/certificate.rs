//! Certificate registry: owns certificate records and the per-student
//! certificate index. Certificates are issued by the institution that owns
//! the completed course, can be looked up, revoked (marked inactive, never
//! deleted), and listed per student in issuance order.

use vstd::pervasive::VecAdditionalExecFns;
use vstd::prelude::*;

use crate::index::IdIndex;
use crate::seqs::{
    chosen_ids, has_id, index_of_id, lemma_chosen_ids_membership, lemma_chosen_ids_push,
    lemma_chosen_ids_update_same, lemma_id_maps_preserved, lemma_id_maps_push,
    lemma_index_of_id_is, uniq_ids,
};

verus! {

#[derive(Clone, Copy, Debug, PartialEq, Eq, Structural)]
pub enum Error {
    CertificateNotFound,
    Unauthorized,
}

pub struct Certificate {
    pub id: u64,
    pub student: u64,
    pub course_id: u64,
    pub institution: u64,
    pub issued_at: u64,
    pub metadata: String,
    /// `true` while active; flipped to `false` by revocation.
    pub status: bool,
}

impl Clone for Certificate {
    fn clone(&self) -> (r: Self)
        ensures
            r == *self,
    {
        Certificate {
            id: self.id,
            student: self.student,
            course_id: self.course_id,
            institution: self.institution,
            issued_at: self.issued_at,
            metadata: self.metadata.clone(),
            status: self.status,
        }
    }
}

/// The id under which a certificate record is addressed.
pub open spec fn certificate_id_of() -> spec_fn(Certificate) -> u64 {
    |c: Certificate| c.id
}

/// Certificates belonging to one student.
pub open spec fn held_by(student: u64) -> spec_fn(Certificate) -> bool {
    |c: Certificate| c.student == student
}

pub struct CertificateContract {
    /// Certificate records in issuance order.
    pub certificates: Vec<Certificate>,
    /// Per-student index: certificate ids in issuance order.
    pub student_index: IdIndex,
    /// Next id to assign; ids never repeat.
    pub next_id: u64,
}

impl CertificateContract {
    pub open spec fn wf(self) -> bool {
        &&& 1 <= self.next_id
        &&& uniq_ids(self.certificates@, certificate_id_of())
        &&& forall|i: int|
            0 <= i < self.certificates@.len() ==> (#[trigger] self.certificates@[i]).id
                < self.next_id
        &&& self.student_index.wf()
        &&& forall|s: u64|
            #[trigger] self.student_index.at(s) == chosen_ids(
                self.certificates@,
                held_by(s),
                certificate_id_of(),
            )
    }

    pub open spec fn has_certificate(self, id: u64) -> bool {
        has_id(self.certificates@, certificate_id_of(), id)
    }

    /// The record stored under `id` (meaningful when it exists).
    pub open spec fn spec_certificate(self, id: u64) -> Certificate {
        self.certificates@[index_of_id(self.certificates@, certificate_id_of(), id)]
    }

    /// Certificate ids held by `student`, in issuance order.
    pub open spec fn spec_student_certificates(self, student: u64) -> Seq<u64> {
        self.student_index.at(student)
    }

    pub fn new() -> (r: CertificateContract)
        ensures
            r.wf(),
            r.certificates@ == Seq::<Certificate>::empty(),
            r.next_id == 1,
            forall|s: u64| #[trigger] r.spec_student_certificates(s) == Seq::<u64>::empty(),
    {
        CertificateContract { certificates: Vec::new(), student_index: IdIndex::new(), next_id: 1 }
    }

    /// Position of the record for `id`, if one exists.
    fn find(&self, id: u64) -> (r: Option<usize>)
        requires
            self.wf(),
        ensures
            match r {
                Some(i) => i < self.certificates@.len() && self.certificates@[i as int].id == id
                    && self.has_certificate(id) && index_of_id(
                    self.certificates@,
                    certificate_id_of(),
                    id,
                ) == i,
                None => !self.has_certificate(id),
            },
    {
        let mut i: usize = 0;
        while i < self.certificates.len()
            invariant
                i <= self.certificates@.len(),
                forall|j: int| 0 <= j < i ==> (#[trigger] self.certificates@[j]).id != id,
                self.wf(),
            decreases self.certificates@.len() - i,
        {
            if self.certificates[i].id == id {
                proof {
                    assert(certificate_id_of()(self.certificates@[i as int]) == id);
                    lemma_index_of_id_is(self.certificates@, certificate_id_of(), id, i as int);
                }
                return Some(i);
            }
            i += 1;
        }
        proof {
            if self.has_certificate(id) {
                let j = choose|j: int|
                    0 <= j < self.certificates@.len() && certificate_id_of()(
                        #[trigger] self.certificates@[j],
                    ) == id;
                assert(self.certificates@[j].id != id);
            }
        }
        None
    }

    /// Stores an active certificate under a fresh id and appends the id to
    /// the student's index. The caller is the issuing institution; the
    /// surrounding runtime has authenticated it.
    pub fn issue_certificate(
        &mut self,
        student: u64,
        course_id: u64,
        institution: u64,
        metadata: String,
        now: u64,
    ) -> (id: u64)
        requires
            old(self).wf(),
            old(self).next_id < u64::MAX,
        ensures
            final(self).wf(),
            id == old(self).next_id,
            !old(self).has_certificate(id),
            final(self).certificates@ == old(self).certificates@.push(
                (Certificate {
                    id,
                    student,
                    course_id,
                    institution,
                    issued_at: now,
                    metadata,
                    status: true,
                }),
            ),
            final(self).next_id == old(self).next_id + 1,
            final(self).has_certificate(id),
            final(self).spec_certificate(id) == (Certificate {
                id,
                student,
                course_id,
                institution,
                issued_at: now,
                metadata,
                status: true,
            }),
            final(self).spec_student_certificates(student) == old(self).spec_student_certificates(
                student,
            ).push(id),
            forall|s2: u64|
                s2 != student ==> #[trigger] final(self).spec_student_certificates(s2) == old(self).spec_student_certificates(s2),
            forall|id2: u64|
                id2 != id ==> #[trigger] final(self).has_certificate(id2) == old(self).has_certificate(id2),
            forall|id2: u64|
                id2 != id && old(self).has_certificate(id2) ==> #[trigger] final(self).spec_certificate(id2) == old(self).spec_certificate(id2),
    {
        let id = self.next_id;
        self.next_id = self.next_id + 1;
        let cert = Certificate {
            id,
            student,
            course_id,
            institution,
            issued_at: now,
            metadata,
            status: true,
        };
        let ghost gcert = cert;
        self.certificates.push(cert);
        self.student_index.push_value(student, id);
        proof {
            assert(!has_id(old(self).certificates@, certificate_id_of(), id)) by {
                if has_id(old(self).certificates@, certificate_id_of(), id) {
                    let j = choose|j: int|
                        0 <= j < old(self).certificates@.len() && certificate_id_of()(
                            #[trigger] old(self).certificates@[j],
                        ) == id;
                    assert(old(self).certificates@[j].id < old(self).next_id);
                }
            }
            assert(certificate_id_of()(gcert) == id);
            lemma_id_maps_push(old(self).certificates@, certificate_id_of(), gcert);
            assert forall|s: u64|
                #[trigger] self.student_index.at(s) == chosen_ids(
                    self.certificates@,
                    held_by(s),
                    certificate_id_of(),
                ) by {
                lemma_chosen_ids_push(
                    old(self).certificates@,
                    held_by(s),
                    certificate_id_of(),
                    gcert,
                );
            }
        }
        id
    }

    /// Returns a copy of the record stored under `id`.
    pub fn verify_certificate(&self, id: u64) -> (r: Result<Certificate, Error>)
        requires
            self.wf(),
        ensures
            self.has_certificate(id) ==> r == Ok::<Certificate, Error>(self.spec_certificate(id)),
            !self.has_certificate(id) ==> r == Err::<Certificate, Error>(
                Error::CertificateNotFound,
            ),
    {
        match self.find(id) {
            Some(i) => Ok(self.certificates[i].clone()),
            None => Err(Error::CertificateNotFound),
        }
    }

    /// Marks the certificate inactive; only its issuing institution may do
    /// so. The record stays retrievable.
    pub fn revoke_certificate(&mut self, id: u64, caller: u64) -> (r: Result<(), Error>)
        requires
            old(self).wf(),
        ensures
            final(self).wf(),
            !old(self).has_certificate(id) ==> r == Err::<(), Error>(Error::CertificateNotFound)
                && *final(self) == *old(self),
            old(self).has_certificate(id) && caller != old(self).spec_certificate(id).institution
                ==> r == Err::<(), Error>(Error::Unauthorized) && *final(self) == *old(self),
            old(self).has_certificate(id) && caller == old(self).spec_certificate(id).institution
                ==> {
                &&& r == Ok::<(), Error>(())
                &&& final(self).certificates@ == old(self).certificates@.update(
                    index_of_id(old(self).certificates@, certificate_id_of(), id),
                    (Certificate { status: false, ..old(self).spec_certificate(id) }),
                )
                &&& final(self).next_id == old(self).next_id
                &&& final(self).student_index == old(self).student_index
                &&& final(self).has_certificate(id)
                &&& final(self).spec_certificate(id) == (Certificate {
                    status: false,
                    ..old(self).spec_certificate(id)
                })
                &&& forall|id2: u64|
                    #[trigger] final(self).has_certificate(id2) == old(self).has_certificate(id2)
                &&& forall|id2: u64|
                    id2 != id && old(self).has_certificate(id2) ==> #[trigger] final(self).spec_certificate(id2) == old(self).spec_certificate(id2)
            },
    {
        match self.find(id) {
            None => Err(Error::CertificateNotFound),
            Some(i) => {
                if self.certificates[i].institution != caller {
                    return Err(Error::Unauthorized);
                }
                let updated = Certificate {
                    id: self.certificates[i].id,
                    student: self.certificates[i].student,
                    course_id: self.certificates[i].course_id,
                    institution: self.certificates[i].institution,
                    issued_at: self.certificates[i].issued_at,
                    metadata: self.certificates[i].metadata.clone(),
                    status: false,
                };
                let ghost gupd = updated;
                self.certificates.set(i, updated);
                proof {
                    lemma_id_maps_preserved(
                        old(self).certificates@,
                        self.certificates@,
                        certificate_id_of(),
                    );
                    assert forall|s: u64|
                        #[trigger] self.student_index.at(s) == chosen_ids(
                            self.certificates@,
                            held_by(s),
                            certificate_id_of(),
                        ) by {
                        lemma_chosen_ids_update_same(
                            old(self).certificates@,
                            held_by(s),
                            certificate_id_of(),
                            i as int,
                            gupd,
                        );
                    }
                    assert forall|id2: u64|
                        id2 != id && old(self).has_certificate(id2) implies #[trigger] self
                        .spec_certificate(id2) == old(self).spec_certificate(id2) by {
                        let j = index_of_id(old(self).certificates@, certificate_id_of(), id2);
                        assert(0 <= j < old(self).certificates@.len()
                            && old(self).certificates@[j].id == id2);
                        assert(j != i);
                    }
                }
                Ok(())
            },
        }
    }

    /// Copies of the student's certificates, in issuance order, resolved
    /// through the per-student index; ids that do not resolve are skipped.
    pub fn list_certificates(&self, student: u64) -> (r: Vec<Certificate>)
        requires
            self.wf(),
        ensures
            r@.len() == self.spec_student_certificates(student).len(),
            forall|j: int|
                0 <= j < r@.len() ==> #[trigger] r@[j] == self.spec_certificate(
                    self.spec_student_certificates(student)[j],
                ),
            forall|j: int| 0 <= j < r@.len() ==> (#[trigger] r@[j]).student == student,
    {
        let ids = self.student_index.get_list(student);
        let mut r: Vec<Certificate> = Vec::new();
        let mut j: usize = 0;
        while j < ids.len()
            invariant
                j <= ids@.len(),
                ids@ == self.spec_student_certificates(student),
                self.wf(),
                r@.len() == j,
                forall|p: int|
                    0 <= p < j ==> #[trigger] r@[p] == self.spec_certificate(ids@[p])
                        && r@[p].student == student,
            decreases ids@.len() - j,
        {
            proof {
                assert(chosen_ids(self.certificates@, held_by(student), certificate_id_of())
                    .contains(ids@[j as int])) by {
                    assert(ids@[j as int] == chosen_ids(
                        self.certificates@,
                        held_by(student),
                        certificate_id_of(),
                    )[j as int]);
                }
                lemma_chosen_ids_membership(
                    self.certificates@,
                    held_by(student),
                    certificate_id_of(),
                    ids@[j as int],
                );
                let w = choose|w: int|
                    0 <= w < self.certificates@.len() && held_by(student)(
                        #[trigger] self.certificates@[w],
                    ) && certificate_id_of()(self.certificates@[w]) == ids@[j as int];
                assert(has_id(self.certificates@, certificate_id_of(), ids@[j as int])) by {
                    assert(certificate_id_of()(self.certificates@[w]) == ids@[j as int]);
                }
                lemma_index_of_id_is(self.certificates@, certificate_id_of(), ids@[j as int], w);
            }
            match self.find(ids[j]) {
                Some(ci) => {
                    r.push(self.certificates[ci].clone());
                },
                None => {
                    // unreachable: the index only holds ids of stored records
                },
            }
            j += 1;
        }
        r
    }
}

} // verus!
