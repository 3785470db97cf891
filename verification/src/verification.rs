//! Verification registry: a denormalized certificate-details snapshot for
//! public reads, and verification requests filed against those snapshots.
//! Reading an unknown certificate soft-fails with an empty, invalid
//! snapshot; requests get sequential ids starting at 1 and can be revoked
//! by the single admin, which rebuilds the certificate's request index
//! without the removed id.

use vstd::pervasive::VecAdditionalExecFns;
use vstd::prelude::*;

use crate::index::IdIndex;
use crate::seqs::{
    chosen_ids, has_id, index_of_id, lemma_chosen_ids_membership, lemma_chosen_ids_push,
    lemma_chosen_ids_remove, lemma_id_maps_preserved, lemma_id_maps_push, lemma_id_maps_remove,
    lemma_index_of_id_is, seq_without, uniq_ids,
};

verus! {

#[derive(Clone, Copy, Debug, PartialEq, Eq, Structural)]
pub enum Error {
    CertificateNotFound,
    RequestNotFound,
    Unauthorized,
}

#[derive(Clone, Copy, Debug, PartialEq, Eq, Structural)]
pub struct VerificationRequest {
    pub request_id: u64,
    pub certificate_id: u64,
    pub requester: u64,
    pub timestamp: u64,
}

/// The snapshot shown to public readers; not the authoritative certificate.
pub struct CertificateDetails {
    pub student: String,
    pub course: String,
    pub institution: String,
    pub issuance_date: u64,
    pub valid: bool,
}

impl Clone for CertificateDetails {
    fn clone(&self) -> (r: Self)
        ensures
            r == *self,
    {
        CertificateDetails {
            student: self.student.clone(),
            course: self.course.clone(),
            institution: self.institution.clone(),
            issuance_date: self.issuance_date,
            valid: self.valid,
        }
    }
}

/// The certificate id a snapshot entry is stored under.
pub open spec fn snapshot_key() -> spec_fn((u64, CertificateDetails)) -> u64 {
    |e: (u64, CertificateDetails)| e.0
}

/// The id under which a request is addressed.
pub open spec fn request_id_of() -> spec_fn(VerificationRequest) -> u64 {
    |r: VerificationRequest| r.request_id
}

/// Requests filed against one certificate.
pub open spec fn request_for(certificate_id: u64) -> spec_fn(VerificationRequest) -> bool {
    |r: VerificationRequest| r.certificate_id == certificate_id
}

pub struct VerificationContract {
    /// The single admin identity, fixed at construction.
    pub admin: u64,
    /// Certificate-details snapshots, one per certificate id.
    pub details: Vec<(u64, CertificateDetails)>,
    /// Verification requests in submission order.
    pub requests: Vec<VerificationRequest>,
    /// Per-certificate index: request ids in submission order.
    pub certificate_requests: IdIndex,
    /// Next request id to assign, starting at 1; ids never repeat.
    pub next_request_id: u64,
}

impl VerificationContract {
    pub open spec fn wf(self) -> bool {
        &&& 1 <= self.next_request_id
        &&& uniq_ids(self.details@, snapshot_key())
        &&& uniq_ids(self.requests@, request_id_of())
        &&& forall|i: int|
            0 <= i < self.requests@.len() ==> (#[trigger] self.requests@[i]).request_id
                < self.next_request_id
        &&& self.certificate_requests.wf()
        &&& forall|c: u64|
            #[trigger] self.certificate_requests.at(c) == chosen_ids(
                self.requests@,
                request_for(c),
                request_id_of(),
            )
    }

    pub open spec fn has_details(self, certificate_id: u64) -> bool {
        has_id(self.details@, snapshot_key(), certificate_id)
    }

    /// The snapshot stored for `certificate_id` (meaningful when it exists).
    pub open spec fn spec_details(self, certificate_id: u64) -> CertificateDetails {
        self.details@[index_of_id(self.details@, snapshot_key(), certificate_id)].1
    }

    pub open spec fn has_request(self, request_id: u64) -> bool {
        has_id(self.requests@, request_id_of(), request_id)
    }

    /// The request stored under `request_id` (meaningful when it exists).
    pub open spec fn spec_request(self, request_id: u64) -> VerificationRequest {
        self.requests@[index_of_id(self.requests@, request_id_of(), request_id)]
    }

    /// Request ids filed against `certificate_id`, in submission order.
    pub open spec fn spec_certificate_requests(self, certificate_id: u64) -> Seq<u64> {
        self.certificate_requests.at(certificate_id)
    }

    pub fn new(admin: u64) -> (r: VerificationContract)
        ensures
            r.wf(),
            r.admin == admin,
            r.details@ == Seq::<(u64, CertificateDetails)>::empty(),
            r.requests@ == Seq::<VerificationRequest>::empty(),
            r.next_request_id == 1,
            forall|c: u64| #[trigger] r.spec_certificate_requests(c) == Seq::<u64>::empty(),
    {
        VerificationContract {
            admin,
            details: Vec::new(),
            requests: Vec::new(),
            certificate_requests: IdIndex::new(),
            next_request_id: 1,
        }
    }

    /// Position of the snapshot for `certificate_id`, if one exists.
    fn find_details(&self, certificate_id: u64) -> (r: Option<usize>)
        requires
            self.wf(),
        ensures
            match r {
                Some(i) => i < self.details@.len() && self.details@[i as int].0 == certificate_id
                    && self.has_details(certificate_id) && index_of_id(
                    self.details@,
                    snapshot_key(),
                    certificate_id,
                ) == i,
                None => !self.has_details(certificate_id),
            },
    {
        let mut i: usize = 0;
        while i < self.details.len()
            invariant
                i <= self.details@.len(),
                forall|j: int| 0 <= j < i ==> (#[trigger] self.details@[j]).0 != certificate_id,
                self.wf(),
            decreases self.details@.len() - i,
        {
            if self.details[i].0 == certificate_id {
                proof {
                    assert(snapshot_key()(self.details@[i as int]) == certificate_id);
                    lemma_index_of_id_is(self.details@, snapshot_key(), certificate_id, i as int);
                }
                return Some(i);
            }
            i += 1;
        }
        proof {
            if self.has_details(certificate_id) {
                let j = choose|j: int|
                    0 <= j < self.details@.len() && snapshot_key()(#[trigger] self.details@[j])
                        == certificate_id;
                assert(self.details@[j].0 != certificate_id);
            }
        }
        None
    }

    /// Position of the request for `request_id`, if one exists.
    fn find_request(&self, request_id: u64) -> (r: Option<usize>)
        requires
            self.wf(),
        ensures
            match r {
                Some(i) => i < self.requests@.len() && self.requests@[i as int].request_id
                    == request_id && self.has_request(request_id) && index_of_id(
                    self.requests@,
                    request_id_of(),
                    request_id,
                ) == i,
                None => !self.has_request(request_id),
            },
    {
        let mut i: usize = 0;
        while i < self.requests.len()
            invariant
                i <= self.requests@.len(),
                forall|j: int|
                    0 <= j < i ==> (#[trigger] self.requests@[j]).request_id != request_id,
                self.wf(),
            decreases self.requests@.len() - i,
        {
            if self.requests[i].request_id == request_id {
                proof {
                    assert(request_id_of()(self.requests@[i as int]) == request_id);
                    lemma_index_of_id_is(self.requests@, request_id_of(), request_id, i as int);
                }
                return Some(i);
            }
            i += 1;
        }
        proof {
            if self.has_request(request_id) {
                let j = choose|j: int|
                    0 <= j < self.requests@.len() && request_id_of()(#[trigger] self.requests@[j])
                        == request_id;
                assert(self.requests@[j].request_id != request_id);
            }
        }
        None
    }

    /// Administrative seed: stores (or replaces) the snapshot under which
    /// the certificate can be publicly verified, marked valid.
    pub fn register_certificate(
        &mut self,
        certificate_id: u64,
        student: String,
        course: String,
        institution: String,
        issuance_date: u64,
    )
        requires
            old(self).wf(),
        ensures
            final(self).wf(),
            final(self).has_details(certificate_id),
            final(self).spec_details(certificate_id) == (CertificateDetails {
                student,
                course,
                institution,
                issuance_date,
                valid: true,
            }),
            forall|c2: u64|
                c2 != certificate_id ==> #[trigger] final(self).has_details(c2) == old(self).has_details(c2),
            forall|c2: u64|
                c2 != certificate_id && old(self).has_details(c2) ==> #[trigger] final(self).spec_details(c2) == old(self).spec_details(c2),
            final(self).requests == old(self).requests,
            final(self).certificate_requests == old(self).certificate_requests,
            final(self).next_request_id == old(self).next_request_id,
            final(self).admin == old(self).admin,
    {
        let snapshot = CertificateDetails {
            student,
            course,
            institution,
            issuance_date,
            valid: true,
        };
        let ghost gsnap = snapshot;
        match self.find_details(certificate_id) {
            Some(i) => {
                self.details.set(i, (certificate_id, snapshot));
                proof {
                    lemma_id_maps_preserved(old(self).details@, self.details@, snapshot_key());
                    assert forall|c2: u64|
                        c2 != certificate_id && old(self).has_details(c2) implies #[trigger] self
                        .spec_details(c2) == old(self).spec_details(c2) by {
                        let j = index_of_id(old(self).details@, snapshot_key(), c2);
                        assert(0 <= j < old(self).details@.len() && old(self).details@[j].0 == c2);
                        assert(j != i);
                    }
                }
            },
            None => {
                self.details.push((certificate_id, snapshot));
                proof {
                    assert(snapshot_key()((certificate_id, gsnap)) == certificate_id);
                    lemma_id_maps_push(old(self).details@, snapshot_key(), (certificate_id, gsnap));
                }
            },
        }
    }

    /// Public read of a certificate snapshot. An unknown id soft-fails with
    /// empty display strings and `valid == false` instead of an error.
    pub fn verify_certificate(&self, certificate_id: u64) -> (r: CertificateDetails)
        requires
            self.wf(),
        ensures
            self.has_details(certificate_id) ==> r == self.spec_details(certificate_id),
            !self.has_details(certificate_id) ==> {
                &&& r.student@ == Seq::<char>::empty()
                &&& r.course@ == Seq::<char>::empty()
                &&& r.institution@ == Seq::<char>::empty()
                &&& r.issuance_date == 0
                &&& r.valid == false
            },
    {
        match self.find_details(certificate_id) {
            Some(i) => self.details[i].1.clone(),
            None => CertificateDetails {
                student: String::new(),
                course: String::new(),
                institution: String::new(),
                issuance_date: 0,
                valid: false,
            },
        }
    }

    /// Files a verification request by `requester` (authenticated by the
    /// runtime) against an existing snapshot; sequential ids start at 1.
    pub fn submit_verification_request(&mut self, certificate_id: u64, requester: u64, now: u64)
        -> (r: Result<u64, Error>)
        requires
            old(self).wf(),
            old(self).next_request_id < u64::MAX,
        ensures
            final(self).wf(),
            !old(self).has_details(certificate_id) ==> r == Err::<u64, Error>(
                Error::CertificateNotFound,
            ) && *final(self) == *old(self),
            old(self).has_details(certificate_id) ==> {
                &&& r == Ok::<u64, Error>(old(self).next_request_id)
                &&& final(self).requests@ == old(self).requests@.push(
                    (VerificationRequest {
                        request_id: old(self).next_request_id,
                        certificate_id,
                        requester,
                        timestamp: now,
                    }),
                )
                &&& final(self).next_request_id == old(self).next_request_id + 1
                &&& final(self).has_request(old(self).next_request_id)
                &&& final(self).spec_request(old(self).next_request_id) == (VerificationRequest {
                    request_id: old(self).next_request_id,
                    certificate_id,
                    requester,
                    timestamp: now,
                })
                &&& final(self).spec_certificate_requests(certificate_id) == old(self).spec_certificate_requests(certificate_id).push(old(self).next_request_id)
                &&& forall|c2: u64|
                    c2 != certificate_id ==> #[trigger] final(self).spec_certificate_requests(c2)
                        == old(self).spec_certificate_requests(c2)
                &&& final(self).details == old(self).details
                &&& final(self).admin == old(self).admin
                &&& forall|id2: u64|
                    id2 != old(self).next_request_id ==> #[trigger] final(self).has_request(id2)
                        == old(self).has_request(id2)
                &&& forall|id2: u64|
                    id2 != old(self).next_request_id && old(self).has_request(id2)
                        ==> #[trigger] final(self).spec_request(id2) == old(self).spec_request(id2)
            },
    {
        if self.find_details(certificate_id).is_none() {
            return Err(Error::CertificateNotFound);
        }
        let request_id = self.next_request_id;
        self.next_request_id = self.next_request_id + 1;
        let request = VerificationRequest { request_id, certificate_id, requester, timestamp: now };
        self.requests.push(request);
        self.certificate_requests.push_value(certificate_id, request_id);
        proof {
            assert(!has_id(old(self).requests@, request_id_of(), request_id)) by {
                if has_id(old(self).requests@, request_id_of(), request_id) {
                    let j = choose|j: int|
                        0 <= j < old(self).requests@.len() && request_id_of()(
                            #[trigger] old(self).requests@[j],
                        ) == request_id;
                    assert(old(self).requests@[j].request_id < old(self).next_request_id);
                }
            }
            assert(request_id_of()(request) == request_id);
            lemma_id_maps_push(old(self).requests@, request_id_of(), request);
            assert forall|c: u64|
                #[trigger] self.certificate_requests.at(c) == chosen_ids(
                    self.requests@,
                    request_for(c),
                    request_id_of(),
                ) by {
                lemma_chosen_ids_push(old(self).requests@, request_for(c), request_id_of(), request);
            }
        }
        Ok(request_id)
    }

    /// The requests filed against a certificate, in submission order,
    /// resolved through the per-certificate index.
    pub fn list_verification_requests(&self, certificate_id: u64) -> (r: Vec<VerificationRequest>)
        requires
            self.wf(),
        ensures
            r@.len() == self.spec_certificate_requests(certificate_id).len(),
            forall|j: int|
                0 <= j < r@.len() ==> #[trigger] r@[j] == self.spec_request(
                    self.spec_certificate_requests(certificate_id)[j],
                ),
            forall|j: int|
                0 <= j < r@.len() ==> (#[trigger] r@[j]).certificate_id == certificate_id,
    {
        let ids = self.certificate_requests.get_list(certificate_id);
        let mut r: Vec<VerificationRequest> = Vec::new();
        let mut j: usize = 0;
        while j < ids.len()
            invariant
                j <= ids@.len(),
                ids@ == self.spec_certificate_requests(certificate_id),
                self.wf(),
                r@.len() == j,
                forall|p: int|
                    0 <= p < j ==> #[trigger] r@[p] == self.spec_request(ids@[p])
                        && r@[p].certificate_id == certificate_id,
            decreases ids@.len() - j,
        {
            proof {
                assert(chosen_ids(self.requests@, request_for(certificate_id), request_id_of())
                    .contains(ids@[j as int])) by {
                    assert(ids@[j as int] == chosen_ids(
                        self.requests@,
                        request_for(certificate_id),
                        request_id_of(),
                    )[j as int]);
                }
                lemma_chosen_ids_membership(
                    self.requests@,
                    request_for(certificate_id),
                    request_id_of(),
                    ids@[j as int],
                );
                let w = choose|w: int|
                    0 <= w < self.requests@.len() && request_for(certificate_id)(
                        #[trigger] self.requests@[w],
                    ) && request_id_of()(self.requests@[w]) == ids@[j as int];
                assert(has_id(self.requests@, request_id_of(), ids@[j as int])) by {
                    assert(request_id_of()(self.requests@[w]) == ids@[j as int]);
                }
                lemma_index_of_id_is(self.requests@, request_id_of(), ids@[j as int], w);
            }
            match self.find_request(ids[j]) {
                Some(ri) => {
                    let req = self.requests[ri];
                    r.push(req);
                },
                None => {
                    // unreachable: the index only holds ids of stored requests
                },
            }
            j += 1;
        }
        r
    }

    /// Law: every id the certificate's request index lists resolves to a
    /// stored request filed against that certificate. Together with the
    /// index clauses of `submit_verification_request` and
    /// `revoke_verification_request`, this closes the round trip: a request
    /// just filed is listed until it is revoked, and revocation removes
    /// exactly it.
    pub proof fn lemma_listed_requests_are_stored(self, certificate_id: u64, j: int)
        requires
            self.wf(),
            0 <= j < self.spec_certificate_requests(certificate_id).len(),
        ensures
            self.has_request(self.spec_certificate_requests(certificate_id)[j]),
            self.spec_request(
                self.spec_certificate_requests(certificate_id)[j],
            ).certificate_id == certificate_id,
    {
        let ids = self.spec_certificate_requests(certificate_id);
        assert(chosen_ids(self.requests@, request_for(certificate_id), request_id_of()).contains(
            ids[j],
        )) by {
            assert(ids[j] == chosen_ids(
                self.requests@,
                request_for(certificate_id),
                request_id_of(),
            )[j]);
        }
        lemma_chosen_ids_membership(
            self.requests@,
            request_for(certificate_id),
            request_id_of(),
            ids[j],
        );
        let w = choose|w: int|
            0 <= w < self.requests@.len() && request_for(certificate_id)(
                #[trigger] self.requests@[w],
            ) && request_id_of()(self.requests@[w]) == ids[j];
        assert(has_id(self.requests@, request_id_of(), ids[j])) by {
            assert(request_id_of()(self.requests@[w]) == ids[j]);
        }
        lemma_index_of_id_is(self.requests@, request_id_of(), ids[j], w);
    }

    /// Removes a request and rebuilds its certificate's request index
    /// without the removed id; only the admin may do so.
    pub fn revoke_verification_request(&mut self, admin: u64, request_id: u64) -> (r: Result<
        (),
        Error,
    >)
        requires
            old(self).wf(),
        ensures
            final(self).wf(),
            admin != old(self).admin ==> r == Err::<(), Error>(Error::Unauthorized) && *final(self)
                == *old(self),
            admin == old(self).admin && !old(self).has_request(request_id) ==> r == Err::<
                (),
                Error,
            >(Error::RequestNotFound) && *final(self) == *old(self),
            admin == old(self).admin && old(self).has_request(request_id) ==> {
                &&& r == Ok::<(), Error>(())
                &&& final(self).requests@ == old(self).requests@.remove(
                    index_of_id(old(self).requests@, request_id_of(), request_id),
                )
                &&& !final(self).has_request(request_id)
                &&& final(self).spec_certificate_requests(
                    old(self).spec_request(request_id).certificate_id,
                ) == seq_without(
                    old(self).spec_certificate_requests(
                        old(self).spec_request(request_id).certificate_id,
                    ),
                    request_id,
                )
                &&& forall|c2: u64|
                    c2 != old(self).spec_request(request_id).certificate_id ==> #[trigger] final(self).spec_certificate_requests(c2) == old(self).spec_certificate_requests(c2)
                &&& final(self).details == old(self).details
                &&& final(self).next_request_id == old(self).next_request_id
                &&& final(self).admin == old(self).admin
                &&& forall|id2: u64|
                    id2 != request_id ==> #[trigger] final(self).has_request(id2) == old(self).has_request(id2)
                &&& forall|id2: u64|
                    id2 != request_id && old(self).has_request(id2) ==> #[trigger] final(self).spec_request(id2) == old(self).spec_request(id2)
            },
    {
        if admin != self.admin {
            return Err(Error::Unauthorized);
        }
        let i = match self.find_request(request_id) {
            None => {
                return Err(Error::RequestNotFound);
            },
            Some(i) => i,
        };
        let certificate_id = self.requests[i].certificate_id;
        self.requests.remove(i);
        self.certificate_requests.remove_value(certificate_id, request_id);
        proof {
            lemma_id_maps_remove(old(self).requests@, request_id_of(), i as int);
            assert forall|c: u64|
                #[trigger] self.certificate_requests.at(c) == chosen_ids(
                    self.requests@,
                    request_for(c),
                    request_id_of(),
                ) by {
                lemma_chosen_ids_remove(old(self).requests@, request_for(c), request_id_of(), i as int);
            }
            assert forall|id2: u64|
                id2 != request_id && old(self).has_request(id2) implies #[trigger] self
                .spec_request(id2) == old(self).spec_request(id2) by {
                assert(id2 != request_id_of()(old(self).requests@[i as int]));
            }
        }
        Ok(())
    }
}

} // verus!
