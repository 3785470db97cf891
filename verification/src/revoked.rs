//! Revocation registry: an admin-curated, append-only list of revoked
//! certificate ids, independent of the certificate registry's own status
//! flag. Whether an id is revoked is answered by a linear scan.

#![allow(non_camel_case_types)]
#![allow(non_snake_case)]

use vstd::prelude::*;

verus! {

#[derive(Clone, Copy, Debug, PartialEq, Eq, Structural)]
pub enum Error {
    AdminAlreadySet,
    AdminNotSet,
    Unauthorized,
}

pub struct revoked_certificate {
    pub certificate_id: u64,
    pub revoked_by: u64,
    pub reason: String,
    pub revoked_at: u64,
}

impl Clone for revoked_certificate {
    fn clone(&self) -> (r: Self)
        ensures
            r == *self,
    {
        revoked_certificate {
            certificate_id: self.certificate_id,
            revoked_by: self.revoked_by,
            reason: self.reason.clone(),
            revoked_at: self.revoked_at,
        }
    }
}

/// The first revocation entry for `certificate_id`, reduced to the triple
/// the lookup reports.
pub open spec fn first_details(s: Seq<revoked_certificate>, certificate_id: u64) -> Option<
    (u64, String, u64),
>
    decreases s.len(),
{
    if s.len() == 0 {
        None
    } else if s[0].certificate_id == certificate_id {
        Some((s[0].revoked_by, s[0].reason, s[0].revoked_at))
    } else {
        first_details(s.drop_first(), certificate_id)
    }
}

pub struct RevokedRegistry {
    /// The single admin identity, once recorded.
    pub admin: Option<u64>,
    /// Revocation entries in the order they were appended.
    pub revoked: Vec<revoked_certificate>,
}

impl RevokedRegistry {
    pub open spec fn spec_is_revoked(self, certificate_id: u64) -> bool {
        exists|i: int|
            0 <= i < self.revoked@.len() && (#[trigger] self.revoked@[i]).certificate_id
                == certificate_id
    }

    pub fn new() -> (r: RevokedRegistry)
        ensures
            r.admin is None,
            r.revoked@ == Seq::<revoked_certificate>::empty(),
    {
        RevokedRegistry { admin: None, revoked: Vec::new() }
    }

    /// Records the single admin identity; succeeds exactly once.
    pub fn Set_admin(&mut self, admin: u64) -> (r: Result<(), Error>)
        ensures
            old(self).admin is Some ==> r == Err::<(), Error>(Error::AdminAlreadySet) && *final(self) == *old(self),
            old(self).admin is None ==> r == Ok::<(), Error>(()) && *final(self) == (
            RevokedRegistry { admin: Some(admin), ..*old(self) }),
    {
        match self.admin {
            Some(_) => Err(Error::AdminAlreadySet),
            None => {
                self.admin = Some(admin);
                Ok(())
            },
        }
    }

    /// Appends a revocation entry; only the recorded admin may revoke.
    pub fn Revoke_Certificate(&mut self, caller: u64, certificate_id: u64, reason: String, now: u64)
        -> (r: Result<(), Error>)
        ensures
            old(self).admin is None ==> r == Err::<(), Error>(Error::AdminNotSet) && *final(self)
                == *old(self),
            old(self).admin is Some && old(self).admin != Some(caller) ==> r == Err::<(), Error>(
                Error::Unauthorized,
            ) && *final(self) == *old(self),
            old(self).admin == Some(caller) ==> {
                &&& r == Ok::<(), Error>(())
                &&& final(self).revoked@ == old(self).revoked@.push(
                    (revoked_certificate {
                        certificate_id,
                        revoked_by: caller,
                        reason,
                        revoked_at: now,
                    }),
                )
                &&& final(self).admin == old(self).admin
                &&& final(self).spec_is_revoked(certificate_id)
                &&& forall|c2: u64|
                    c2 != certificate_id ==> #[trigger] final(self).spec_is_revoked(c2) == old(self).spec_is_revoked(c2)
            },
    {
        let authorized = match self.admin {
            Some(a) => a == caller,
            None => {
                return Err(Error::AdminNotSet);
            },
        };
        if !authorized {
            return Err(Error::Unauthorized);
        }
        let entry = revoked_certificate {
            certificate_id,
            revoked_by: caller,
            reason,
            revoked_at: now,
        };
        self.revoked.push(entry);
        proof {
            let n = old(self).revoked@.len();
            assert(self.revoked@[n as int].certificate_id == certificate_id);
            assert forall|c2: u64| c2 != certificate_id implies #[trigger] self.spec_is_revoked(c2)
                == old(self).spec_is_revoked(c2) by {
                if old(self).spec_is_revoked(c2) {
                    let i = choose|i: int|
                        0 <= i < old(self).revoked@.len() && (#[trigger] old(self).revoked@[i]).certificate_id == c2;
                    assert(self.revoked@[i].certificate_id == c2);
                }
                if self.spec_is_revoked(c2) {
                    let i = choose|i: int|
                        0 <= i < self.revoked@.len() && (#[trigger] self.revoked@[i]).certificate_id
                            == c2;
                    assert(i < n);
                    assert(old(self).revoked@[i].certificate_id == c2);
                }
            }
        }
        Ok(())
    }

    /// Whether any revocation entry names `certificate_id`.
    pub fn is_revoked(&self, certificate_id: u64) -> (r: bool)
        ensures
            r == self.spec_is_revoked(certificate_id),
    {
        let mut i: usize = 0;
        while i < self.revoked.len()
            invariant
                i <= self.revoked@.len(),
                forall|j: int|
                    0 <= j < i ==> (#[trigger] self.revoked@[j]).certificate_id != certificate_id,
            decreases self.revoked@.len() - i,
        {
            if self.revoked[i].certificate_id == certificate_id {
                return true;
            }
            i += 1;
        }
        false
    }

    /// Every revocation entry, in the order they were appended.
    pub fn All_Revoked_Certificates(&self) -> (r: Vec<revoked_certificate>)
        ensures
            r@ == self.revoked@,
    {
        let mut r: Vec<revoked_certificate> = Vec::new();
        let mut i: usize = 0;
        while i < self.revoked.len()
            invariant
                i <= self.revoked@.len(),
                r@ == self.revoked@.subrange(0, i as int),
            decreases self.revoked@.len() - i,
        {
            r.push(self.revoked[i].clone());
            proof {
                assert(self.revoked@.subrange(0, i as int + 1) =~= self.revoked@.subrange(
                    0,
                    i as int,
                ).push(self.revoked@[i as int]));
            }
            i += 1;
        }
        proof {
            assert(self.revoked@.subrange(0, self.revoked@.len() as int) =~= self.revoked@);
        }
        r
    }

    /// Who revoked `certificate_id`, why and when — from the first matching
    /// entry; `None` when the id was never revoked.
    pub fn Get_Revocation_Details(&self, certificate_id: u64) -> (r: Option<(u64, String, u64)>)
        ensures
            r == first_details(self.revoked@, certificate_id),
            r is Some <==> self.spec_is_revoked(certificate_id),
    {
        proof {
            lemma_first_details_some(self.revoked@, certificate_id);
            assert(self.revoked@.subrange(0, self.revoked@.len() as int) =~= self.revoked@);
        }
        let mut i: usize = 0;
        while i < self.revoked.len()
            invariant
                i <= self.revoked@.len(),
                first_details(self.revoked@, certificate_id) == first_details(
                    self.revoked@.subrange(i as int, self.revoked@.len() as int),
                    certificate_id,
                ),
            decreases self.revoked@.len() - i,
        {
            let ghost tail = self.revoked@.subrange(i as int, self.revoked@.len() as int);
            proof {
                assert(tail[0] == self.revoked@[i as int]);
            }
            if self.revoked[i].certificate_id == certificate_id {
                let by = self.revoked[i].revoked_by;
                let reason = self.revoked[i].reason.clone();
                let at = self.revoked[i].revoked_at;
                return Some((by, reason, at));
            }
            proof {
                assert(tail.drop_first() =~= self.revoked@.subrange(
                    i as int + 1,
                    self.revoked@.len() as int,
                ));
            }
            i += 1;
        }
        proof {
            assert(self.revoked@.subrange(
                self.revoked@.len() as int,
                self.revoked@.len() as int,
            ).len() == 0);
        }
        None
    }
}

/// The scan finds an entry exactly when one exists.
proof fn lemma_first_details_some(s: Seq<revoked_certificate>, certificate_id: u64)
    ensures
        first_details(s, certificate_id) is Some <==> exists|i: int|
            0 <= i < s.len() && (#[trigger] s[i]).certificate_id == certificate_id,
    decreases s.len(),
{
    if s.len() == 0 {
    } else if s[0].certificate_id == certificate_id {
    } else {
        let d = s.drop_first();
        lemma_first_details_some(d, certificate_id);
        if exists|i: int| 0 <= i < d.len() && (#[trigger] d[i]).certificate_id == certificate_id {
            let i = choose|i: int|
                0 <= i < d.len() && (#[trigger] d[i]).certificate_id == certificate_id;
            assert(s[i + 1].certificate_id == certificate_id);
        }
        if exists|i: int| 0 <= i < s.len() && (#[trigger] s[i]).certificate_id == certificate_id {
            let i = choose|i: int|
                0 <= i < s.len() && (#[trigger] s[i]).certificate_id == certificate_id;
            assert(i != 0);
            assert(d[i - 1].certificate_id == certificate_id);
        }
    }
}

} // verus!
