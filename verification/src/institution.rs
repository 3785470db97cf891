//! Institution registry: owns institution identity and the verified flag.
//!
//! Registration is open to anyone and yields an unverified record under a
//! fresh id. A single admin identity, recorded once, may verify or remove
//! institutions; removal is blocked while an institution carries an
//! issued-certificate marker.

use vstd::pervasive::VecAdditionalExecFns;
use vstd::prelude::*;

use crate::seqs::{
    has_id, index_of_id, lemma_id_maps_preserved, lemma_id_maps_push, lemma_id_maps_remove,
    lemma_index_of_id_is, uniq_ids, vec_contains,
};

verus! {

#[derive(Clone, Copy, Debug, PartialEq, Eq, Structural)]
pub enum Error {
    InstitutionNotFound,
    Unauthorized,
    AdminNotSet,
    InstitutionHasCertificates,
    AdminAlreadySet,
}

pub struct Institution {
    pub id: u64,
    pub name: String,
    pub wallet: u64,
    pub verified: bool,
    pub metadata: String,
    pub created_at: u64,
}

impl Clone for Institution {
    fn clone(&self) -> (r: Self)
        ensures
            r == *self,
    {
        Institution {
            id: self.id,
            name: self.name.clone(),
            wallet: self.wallet,
            verified: self.verified,
            metadata: self.metadata.clone(),
            created_at: self.created_at,
        }
    }
}

/// The id under which an institution record is addressed.
pub open spec fn institution_id() -> spec_fn(Institution) -> u64 {
    |r: Institution| r.id
}

pub struct InstitutionContract {
    /// The single admin identity, once recorded.
    pub admin: Option<u64>,
    /// Live records in registration order.
    pub institutions: Vec<Institution>,
    /// Ids of institutions marked as having issued certificates; such an
    /// institution cannot be removed.
    pub certificate_marks: Vec<u64>,
    /// Next id to assign; ids never repeat.
    pub next_id: u64,
}

impl InstitutionContract {
    pub open spec fn wf(self) -> bool {
        &&& 1 <= self.next_id
        &&& uniq_ids(self.institutions@, institution_id())
        &&& forall|i: int|
            0 <= i < self.institutions@.len() ==> (#[trigger] self.institutions@[i]).id
                < self.next_id
    }

    pub open spec fn has_institution(self, id: u64) -> bool {
        has_id(self.institutions@, institution_id(), id)
    }

    /// The record stored under `id` (meaningful when it exists).
    pub open spec fn spec_institution(self, id: u64) -> Institution {
        self.institutions@[index_of_id(self.institutions@, institution_id(), id)]
    }

    pub open spec fn spec_is_verified(self, id: u64) -> bool {
        self.has_institution(id) && self.spec_institution(id).verified
    }

    pub open spec fn is_admin(self, caller: u64) -> bool {
        self.admin == Some(caller)
    }

    pub open spec fn has_certificate_mark(self, id: u64) -> bool {
        self.certificate_marks@.contains(id)
    }

    pub fn new() -> (r: InstitutionContract)
        ensures
            r.wf(),
            r.admin is None,
            r.institutions@ == Seq::<Institution>::empty(),
            r.certificate_marks@ == Seq::<u64>::empty(),
            r.next_id == 1,
    {
        InstitutionContract {
            admin: None,
            institutions: Vec::new(),
            certificate_marks: Vec::new(),
            next_id: 1,
        }
    }

    /// Position of the record for `id`, if one exists.
    fn find(&self, id: u64) -> (r: Option<usize>)
        requires
            self.wf(),
        ensures
            match r {
                Some(i) => i < self.institutions@.len() && self.institutions@[i as int].id == id
                    && self.has_institution(id) && index_of_id(
                    self.institutions@,
                    institution_id(),
                    id,
                ) == i,
                None => !self.has_institution(id),
            },
    {
        let mut i: usize = 0;
        while i < self.institutions.len()
            invariant
                i <= self.institutions@.len(),
                forall|j: int| 0 <= j < i ==> (#[trigger] self.institutions@[j]).id != id,
                self.wf(),
            decreases self.institutions@.len() - i,
        {
            if self.institutions[i].id == id {
                proof {
                    assert(institution_id()(self.institutions@[i as int]) == id);
                    lemma_index_of_id_is(self.institutions@, institution_id(), id, i as int);
                }
                return Some(i);
            }
            i += 1;
        }
        proof {
            if self.has_institution(id) {
                let j = choose|j: int|
                    0 <= j < self.institutions@.len() && institution_id()(
                        #[trigger] self.institutions@[j],
                    ) == id;
                assert(self.institutions@[j].id != id);
            }
        }
        None
    }

    /// Records the single admin identity; succeeds exactly once.
    pub fn set_admin(&mut self, admin: u64) -> (r: Result<(), Error>)
        ensures
            old(self).admin is Some ==> r == Err::<(), Error>(Error::AdminAlreadySet) && *final(self) == *old(self),
            old(self).admin is None ==> r == Ok::<(), Error>(()) && *final(self) == (
            InstitutionContract { admin: Some(admin), ..*old(self) }),
    {
        match self.admin {
            Some(_) => Err(Error::AdminAlreadySet),
            None => {
                self.admin = Some(admin);
                Ok(())
            },
        }
    }

    /// Creates an unverified institution record under a fresh id.
    pub fn register_institution(&mut self, name: String, wallet: u64, metadata: String, now: u64)
        -> (id: u64)
        requires
            old(self).wf(),
            old(self).next_id < u64::MAX,
        ensures
            final(self).wf(),
            id == old(self).next_id,
            !old(self).has_institution(id),
            final(self).institutions@ == old(self).institutions@.push(
                (Institution { id, name, wallet, verified: false, metadata, created_at: now }),
            ),
            final(self).next_id == old(self).next_id + 1,
            final(self).admin == old(self).admin,
            final(self).certificate_marks == old(self).certificate_marks,
            final(self).has_institution(id),
            final(self).spec_institution(id) == (Institution {
                id,
                name,
                wallet,
                verified: false,
                metadata,
                created_at: now,
            }),
            forall|id2: u64|
                id2 != id ==> #[trigger] final(self).has_institution(id2) == old(self).has_institution(id2),
            forall|id2: u64|
                id2 != id && old(self).has_institution(id2) ==> #[trigger] final(self).spec_institution(id2) == old(self).spec_institution(id2),
    {
        let id = self.next_id;
        self.next_id = self.next_id + 1;
        let record = Institution { id, name, wallet, verified: false, metadata, created_at: now };
        let ghost grec = record;
        self.institutions.push(record);
        proof {
            assert(!has_id(old(self).institutions@, institution_id(), id)) by {
                if has_id(old(self).institutions@, institution_id(), id) {
                    let j = choose|j: int|
                        0 <= j < old(self).institutions@.len() && institution_id()(
                            #[trigger] old(self).institutions@[j],
                        ) == id;
                    assert(old(self).institutions@[j].id < old(self).next_id);
                }
            }
            assert(institution_id()(grec) == id);
            lemma_id_maps_push(old(self).institutions@, institution_id(), grec);
        }
        id
    }

    /// Marks an institution verified; only the recorded admin may do so.
    pub fn verify_institution(&mut self, id: u64, admin: u64) -> (r: Result<(), Error>)
        requires
            old(self).wf(),
        ensures
            final(self).wf(),
            !old(self).is_admin(admin) ==> r == Err::<(), Error>(Error::Unauthorized) && *final(self) == *old(self),
            old(self).is_admin(admin) && !old(self).has_institution(id) ==> r == Err::<(), Error>(
                Error::InstitutionNotFound,
            ) && *final(self) == *old(self),
            old(self).is_admin(admin) && old(self).has_institution(id) ==> {
                &&& r == Ok::<(), Error>(())
                &&& final(self).institutions@ == old(self).institutions@.update(
                    index_of_id(old(self).institutions@, institution_id(), id),
                    (Institution { verified: true, ..old(self).spec_institution(id) }),
                )
                &&& final(self).admin == old(self).admin
                &&& final(self).next_id == old(self).next_id
                &&& final(self).certificate_marks == old(self).certificate_marks
                &&& final(self).spec_is_verified(id)
                &&& final(self).spec_institution(id) == (Institution {
                    verified: true,
                    ..old(self).spec_institution(id)
                })
                &&& forall|id2: u64|
                    #[trigger] final(self).has_institution(id2) == old(self).has_institution(id2)
                &&& forall|id2: u64|
                    id2 != id && old(self).has_institution(id2) ==> #[trigger] final(self).spec_institution(id2) == old(self).spec_institution(id2)
            },
    {
        let authorized = match self.admin {
            Some(a) => a == admin,
            None => false,
        };
        if !authorized {
            return Err(Error::Unauthorized);
        }
        match self.find(id) {
            None => Err(Error::InstitutionNotFound),
            Some(i) => {
                let updated = Institution {
                    id: self.institutions[i].id,
                    name: self.institutions[i].name.clone(),
                    wallet: self.institutions[i].wallet,
                    verified: true,
                    metadata: self.institutions[i].metadata.clone(),
                    created_at: self.institutions[i].created_at,
                };
                self.institutions.set(i, updated);
                proof {
                    lemma_id_maps_preserved(
                        old(self).institutions@,
                        self.institutions@,
                        institution_id(),
                    );
                    assert forall|id2: u64|
                        id2 != id && old(self).has_institution(id2) implies #[trigger] self
                        .spec_institution(id2) == old(self).spec_institution(id2) by {
                        let j = index_of_id(old(self).institutions@, institution_id(), id2);
                        assert(0 <= j < old(self).institutions@.len()
                            && old(self).institutions@[j].id == id2);
                        assert(j != i);
                    }
                }
                Ok(())
            },
        }
    }

    /// Returns a copy of the record stored under `id`.
    pub fn get_institution(&self, id: u64) -> (r: Result<Institution, Error>)
        requires
            self.wf(),
        ensures
            self.has_institution(id) ==> r == Ok::<Institution, Error>(self.spec_institution(id)),
            !self.has_institution(id) ==> r == Err::<Institution, Error>(
                Error::InstitutionNotFound,
            ),
    {
        match self.find(id) {
            Some(i) => Ok(self.institutions[i].clone()),
            None => Err(Error::InstitutionNotFound),
        }
    }

    /// Whether the record exists and has been verified by the admin.
    pub fn is_verified(&self, id: u64) -> (r: bool)
        requires
            self.wf(),
        ensures
            r == self.spec_is_verified(id),
    {
        match self.find(id) {
            Some(i) => self.institutions[i].verified,
            None => false,
        }
    }

    /// Deletes a record; blocked while the institution has issued
    /// certificates. Removing an absent id is a no-op, as stored.
    pub fn remove_institution(&mut self, id: u64, admin: u64) -> (r: Result<(), Error>)
        requires
            old(self).wf(),
        ensures
            final(self).wf(),
            !old(self).is_admin(admin) ==> r == Err::<(), Error>(Error::Unauthorized) && *final(self) == *old(self),
            old(self).is_admin(admin) && old(self).has_certificate_mark(id) ==> r == Err::<
                (),
                Error,
            >(Error::InstitutionHasCertificates) && *final(self) == *old(self),
            old(self).is_admin(admin) && !old(self).has_certificate_mark(id) ==> {
                &&& r == Ok::<(), Error>(())
                &&& !final(self).has_institution(id)
                &&& final(self).institutions@ == (if old(self).has_institution(id) {
                    old(self).institutions@.remove(
                        index_of_id(old(self).institutions@, institution_id(), id),
                    )
                } else {
                    old(self).institutions@
                })
                &&& final(self).admin == old(self).admin
                &&& final(self).next_id == old(self).next_id
                &&& final(self).certificate_marks == old(self).certificate_marks
                &&& forall|id2: u64|
                    id2 != id ==> #[trigger] final(self).has_institution(id2) == old(self).has_institution(id2)
                &&& forall|id2: u64|
                    id2 != id && old(self).has_institution(id2) ==> #[trigger] final(self).spec_institution(id2) == old(self).spec_institution(id2)
            },
    {
        let authorized = match self.admin {
            Some(a) => a == admin,
            None => false,
        };
        if !authorized {
            return Err(Error::Unauthorized);
        }
        if vec_contains(&self.certificate_marks, id) {
            return Err(Error::InstitutionHasCertificates);
        }
        match self.find(id) {
            None => Ok(()),
            Some(i) => {
                self.institutions.remove(i);
                proof {
                    lemma_id_maps_remove(old(self).institutions@, institution_id(), i as int);
                    assert forall|id2: u64|
                        id2 != id && old(self).has_institution(id2) implies #[trigger] self
                        .spec_institution(id2) == old(self).spec_institution(id2) by {
                        assert(id2 != institution_id()(old(self).institutions@[i as int]));
                    }
                }
                Ok(())
            },
        }
    }

    /// All live institutions in registration order.
    pub fn list_institutions(&self) -> (r: Vec<Institution>)
        requires
            self.wf(),
        ensures
            r@ == self.institutions@,
    {
        let mut r: Vec<Institution> = Vec::new();
        let mut i: usize = 0;
        while i < self.institutions.len()
            invariant
                i <= self.institutions@.len(),
                r@ == self.institutions@.subrange(0, i as int),
                self.wf(),
            decreases self.institutions@.len() - i,
        {
            r.push(self.institutions[i].clone());
            proof {
                assert(self.institutions@.subrange(0, i as int + 1) =~= self.institutions
                    @.subrange(0, i as int).push(self.institutions@[i as int]));
            }
            i += 1;
        }
        proof {
            assert(self.institutions@.subrange(0, self.institutions@.len() as int)
                =~= self.institutions@);
        }
        r
    }
}

} // verus!
