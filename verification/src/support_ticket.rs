//! Support-ticket registry: tickets move through a status lifecycle along a
//! fixed transition table, a per-user index keeps each user's tickets in
//! submission order, and an open-ticket index tracks every ticket that has
//! not yet been closed.
//!
//! Admin entry points only take the admin identity the runtime
//! authenticated; no role store exists in this design, a documented gap.

use vstd::pervasive::VecAdditionalExecFns;
use vstd::prelude::*;

use crate::index::IdIndex;
use crate::seqs::{
    chosen_ids, has_id, index_of_id, lemma_chosen_ids_membership, lemma_chosen_ids_push,
    lemma_chosen_ids_remove, lemma_chosen_ids_update_drop, lemma_chosen_ids_update_same,
    lemma_id_maps_preserved, lemma_id_maps_push, lemma_id_maps_remove, lemma_index_of_id_is,
    lemma_seq_without_membership, seq_without, uniq_ids, vec_without,
};

verus! {

#[derive(Clone, Copy, Debug, PartialEq, Eq, Structural)]
pub enum Error {
    TicketNotFound,
    InvalidTransition,
    NotResolved,
}

#[derive(Clone, Copy, Debug, PartialEq, Eq, Structural)]
pub enum TicketCategory {
    Payment,
    Course,
    Certificate,
    Account,
    Other,
}

#[derive(Clone, Copy, Debug, PartialEq, Eq, Structural)]
pub enum TicketStatus {
    Open,
    InProgress,
    Resolved,
    Closed,
}

pub struct SupportTicket {
    pub id: u64,
    pub user: u64,
    pub admin: Option<u64>,
    pub subject: String,
    pub description: String,
    pub category: TicketCategory,
    pub status: TicketStatus,
    pub created_at: u64,
    pub updated_at: u64,
    /// Set exactly once, on entry to `Closed`.
    pub closed_at: Option<u64>,
}

impl Clone for SupportTicket {
    fn clone(&self) -> (r: Self)
        ensures
            r == *self,
    {
        SupportTicket {
            id: self.id,
            user: self.user,
            admin: self.admin,
            subject: self.subject.clone(),
            description: self.description.clone(),
            category: self.category,
            status: self.status,
            created_at: self.created_at,
            updated_at: self.updated_at,
            closed_at: self.closed_at,
        }
    }
}

/// The allowed status moves. Everything else — in particular any move out
/// of `Closed` — is rejected.
pub open spec fn transition_allowed(from: TicketStatus, to: TicketStatus) -> bool {
    ||| (from is Open && to is InProgress)
    ||| (from is Open && to is Resolved)
    ||| (from is InProgress && to is Resolved)
    ||| (from is InProgress && to is Open)
    ||| (from is Resolved && to is InProgress)
    ||| (from is Resolved && to is Closed)
}

/// A closed ticket admits no further transition.
pub proof fn lemma_closed_is_terminal()
    ensures
        forall|to: TicketStatus| !transition_allowed(TicketStatus::Closed, to),
{
}

/// Decides `transition_allowed`.
pub fn is_transition_allowed(from: TicketStatus, to: TicketStatus) -> (r: bool)
    ensures
        r == transition_allowed(from, to),
{
    match (from, to) {
        (TicketStatus::Open, TicketStatus::InProgress) => true,
        (TicketStatus::Open, TicketStatus::Resolved) => true,
        (TicketStatus::InProgress, TicketStatus::Resolved) => true,
        (TicketStatus::InProgress, TicketStatus::Open) => true,
        (TicketStatus::Resolved, TicketStatus::InProgress) => true,
        (TicketStatus::Resolved, TicketStatus::Closed) => true,
        _ => false,
    }
}

/// The id under which a ticket is addressed.
pub open spec fn ticket_id_of() -> spec_fn(SupportTicket) -> u64 {
    |t: SupportTicket| t.id
}

/// Tickets filed by one user.
pub open spec fn filed_by(user: u64) -> spec_fn(SupportTicket) -> bool {
    |t: SupportTicket| t.user == user
}

/// Tickets that still count as open: everything not closed.
pub open spec fn still_open() -> spec_fn(SupportTicket) -> bool {
    |t: SupportTicket| t.status != TicketStatus::Closed
}

/// A ticket after assignment: the admin is recorded, an open ticket moves
/// to in-progress, and the update time is stamped.
pub open spec fn assigned_ticket(t: SupportTicket, admin: u64, now: u64) -> SupportTicket {
    SupportTicket {
        admin: Some(admin),
        status: if t.status is Open {
            TicketStatus::InProgress
        } else {
            t.status
        },
        updated_at: now,
        ..t
    }
}

/// A ticket after a status move; entering `Closed` stamps `closed_at`.
pub open spec fn restatused_ticket(t: SupportTicket, status: TicketStatus, now: u64)
    -> SupportTicket {
    SupportTicket {
        status,
        updated_at: now,
        closed_at: if status is Closed {
            Some(now)
        } else {
            t.closed_at
        },
        ..t
    }
}

pub struct SupportTicketContract {
    /// Ticket records; submission order among live tickets.
    pub tickets: Vec<SupportTicket>,
    /// Per-user index: ticket ids in submission order.
    pub user_index: IdIndex,
    /// Ids of every not-yet-closed ticket, in submission order.
    pub open_tickets: Vec<u64>,
    /// Next id to assign, starting at 1; ids never repeat.
    pub next_id: u64,
}

impl SupportTicketContract {
    pub open spec fn wf(self) -> bool {
        &&& 1 <= self.next_id
        &&& uniq_ids(self.tickets@, ticket_id_of())
        &&& forall|i: int|
            0 <= i < self.tickets@.len() ==> (#[trigger] self.tickets@[i]).id < self.next_id
        &&& self.user_index.wf()
        &&& forall|u: u64|
            #[trigger] self.user_index.at(u) == chosen_ids(
                self.tickets@,
                filed_by(u),
                ticket_id_of(),
            )
        &&& self.open_tickets@ == chosen_ids(self.tickets@, still_open(), ticket_id_of())
    }

    pub open spec fn has_ticket(self, id: u64) -> bool {
        has_id(self.tickets@, ticket_id_of(), id)
    }

    /// The ticket stored under `id` (meaningful when it exists).
    pub open spec fn spec_ticket(self, id: u64) -> SupportTicket {
        self.tickets@[index_of_id(self.tickets@, ticket_id_of(), id)]
    }

    /// Ticket ids filed by `user`, in submission order.
    pub open spec fn spec_user_tickets(self, user: u64) -> Seq<u64> {
        self.user_index.at(user)
    }

    /// Ids of every not-yet-closed ticket.
    pub open spec fn spec_open_tickets(self) -> Seq<u64> {
        self.open_tickets@
    }

    pub fn new() -> (r: SupportTicketContract)
        ensures
            r.wf(),
            r.tickets@ == Seq::<SupportTicket>::empty(),
            r.next_id == 1,
            r.spec_open_tickets() == Seq::<u64>::empty(),
            forall|u: u64| #[trigger] r.spec_user_tickets(u) == Seq::<u64>::empty(),
    {
        SupportTicketContract {
            tickets: Vec::new(),
            user_index: IdIndex::new(),
            open_tickets: Vec::new(),
            next_id: 1,
        }
    }

    /// Position of the ticket record for `id`, if one exists.
    fn find(&self, id: u64) -> (r: Option<usize>)
        requires
            self.wf(),
        ensures
            match r {
                Some(i) => i < self.tickets@.len() && self.tickets@[i as int].id == id
                    && self.has_ticket(id) && index_of_id(self.tickets@, ticket_id_of(), id) == i,
                None => !self.has_ticket(id),
            },
    {
        let mut i: usize = 0;
        while i < self.tickets.len()
            invariant
                i <= self.tickets@.len(),
                forall|j: int| 0 <= j < i ==> (#[trigger] self.tickets@[j]).id != id,
                self.wf(),
            decreases self.tickets@.len() - i,
        {
            if self.tickets[i].id == id {
                proof {
                    assert(ticket_id_of()(self.tickets@[i as int]) == id);
                    lemma_index_of_id_is(self.tickets@, ticket_id_of(), id, i as int);
                }
                return Some(i);
            }
            i += 1;
        }
        proof {
            if self.has_ticket(id) {
                let j = choose|j: int|
                    0 <= j < self.tickets@.len() && ticket_id_of()(#[trigger] self.tickets@[j])
                        == id;
                assert(self.tickets@[j].id != id);
            }
        }
        None
    }

    /// Files a new open ticket for the user (authenticated by the runtime)
    /// under the next sequential id, and indexes it.
    pub fn submit_ticket(
        &mut self,
        user: u64,
        category: TicketCategory,
        subject: String,
        description: String,
        now: u64,
    ) -> (t: SupportTicket)
        requires
            old(self).wf(),
            old(self).next_id < u64::MAX,
        ensures
            final(self).wf(),
            t == (SupportTicket {
                id: old(self).next_id,
                user,
                admin: None,
                subject,
                description,
                category,
                status: TicketStatus::Open,
                created_at: now,
                updated_at: now,
                closed_at: None,
            }),
            final(self).tickets@ == old(self).tickets@.push(t),
            final(self).next_id == old(self).next_id + 1,
            !old(self).has_ticket(t.id),
            final(self).has_ticket(t.id),
            final(self).spec_ticket(t.id) == t,
            final(self).spec_user_tickets(user) == old(self).spec_user_tickets(user).push(t.id),
            forall|u2: u64|
                u2 != user ==> #[trigger] final(self).spec_user_tickets(u2) == old(self).spec_user_tickets(u2),
            final(self).spec_open_tickets() == old(self).spec_open_tickets().push(t.id),
            forall|id2: u64|
                id2 != t.id ==> #[trigger] final(self).has_ticket(id2) == old(self).has_ticket(
                    id2,
                ),
            forall|id2: u64|
                id2 != t.id && old(self).has_ticket(id2) ==> #[trigger] final(self).spec_ticket(
                    id2,
                ) == old(self).spec_ticket(id2),
    {
        let id = self.next_id;
        self.next_id = self.next_id + 1;
        let ticket = SupportTicket {
            id,
            user,
            admin: None,
            subject,
            description,
            category,
            status: TicketStatus::Open,
            created_at: now,
            updated_at: now,
            closed_at: None,
        };
        let stored = ticket.clone();
        let ghost gticket = stored;
        self.tickets.push(stored);
        self.user_index.push_value(user, id);
        self.open_tickets.push(id);
        proof {
            assert(!has_id(old(self).tickets@, ticket_id_of(), id)) by {
                if has_id(old(self).tickets@, ticket_id_of(), id) {
                    let j = choose|j: int|
                        0 <= j < old(self).tickets@.len() && ticket_id_of()(
                            #[trigger] old(self).tickets@[j],
                        ) == id;
                    assert(old(self).tickets@[j].id < old(self).next_id);
                }
            }
            assert(ticket_id_of()(gticket) == id);
            lemma_id_maps_push(old(self).tickets@, ticket_id_of(), gticket);
            assert forall|u: u64|
                #[trigger] self.user_index.at(u) == chosen_ids(
                    self.tickets@,
                    filed_by(u),
                    ticket_id_of(),
                ) by {
                lemma_chosen_ids_push(old(self).tickets@, filed_by(u), ticket_id_of(), gticket);
            }
            lemma_chosen_ids_push(old(self).tickets@, still_open(), ticket_id_of(), gticket);
        }
        ticket
    }

    /// Returns a copy of the ticket stored under `id`.
    pub fn get_ticket(&self, id: u64) -> (r: Result<SupportTicket, Error>)
        requires
            self.wf(),
        ensures
            self.has_ticket(id) ==> r == Ok::<SupportTicket, Error>(self.spec_ticket(id)),
            !self.has_ticket(id) ==> r == Err::<SupportTicket, Error>(Error::TicketNotFound),
    {
        match self.find(id) {
            Some(i) => Ok(self.tickets[i].clone()),
            None => Err(Error::TicketNotFound),
        }
    }

    /// Copies of the user's tickets, in submission order, resolved through
    /// the per-user index.
    pub fn list_user_tickets(&self, user: u64) -> (r: Vec<SupportTicket>)
        requires
            self.wf(),
        ensures
            r@.len() == self.spec_user_tickets(user).len(),
            forall|j: int|
                0 <= j < r@.len() ==> #[trigger] r@[j] == self.spec_ticket(
                    self.spec_user_tickets(user)[j],
                ),
            forall|j: int| 0 <= j < r@.len() ==> (#[trigger] r@[j]).user == user,
    {
        let ids = self.user_index.get_list(user);
        let mut r: Vec<SupportTicket> = Vec::new();
        let mut j: usize = 0;
        while j < ids.len()
            invariant
                j <= ids@.len(),
                ids@ == self.spec_user_tickets(user),
                self.wf(),
                r@.len() == j,
                forall|p: int|
                    0 <= p < j ==> #[trigger] r@[p] == self.spec_ticket(ids@[p]) && r@[p].user
                        == user,
            decreases ids@.len() - j,
        {
            proof {
                assert(chosen_ids(self.tickets@, filed_by(user), ticket_id_of()).contains(
                    ids@[j as int],
                )) by {
                    assert(ids@[j as int] == chosen_ids(
                        self.tickets@,
                        filed_by(user),
                        ticket_id_of(),
                    )[j as int]);
                }
                lemma_chosen_ids_membership(
                    self.tickets@,
                    filed_by(user),
                    ticket_id_of(),
                    ids@[j as int],
                );
                let w = choose|w: int|
                    0 <= w < self.tickets@.len() && filed_by(user)(#[trigger] self.tickets@[w])
                        && ticket_id_of()(self.tickets@[w]) == ids@[j as int];
                assert(has_id(self.tickets@, ticket_id_of(), ids@[j as int])) by {
                    assert(ticket_id_of()(self.tickets@[w]) == ids@[j as int]);
                }
                lemma_index_of_id_is(self.tickets@, ticket_id_of(), ids@[j as int], w);
            }
            match self.find(ids[j]) {
                Some(ti) => {
                    r.push(self.tickets[ti].clone());
                },
                None => {
                    // unreachable: the index only holds ids of stored tickets
                },
            }
            j += 1;
        }
        r
    }

    /// Copies of every not-yet-closed ticket, in submission order. The admin
    /// identity is authenticated by the runtime; no role check exists in
    /// this design.
    pub fn list_open_tickets(&self, _admin: u64) -> (r: Vec<SupportTicket>)
        requires
            self.wf(),
        ensures
            r@.len() == self.spec_open_tickets().len(),
            forall|j: int|
                0 <= j < r@.len() ==> #[trigger] r@[j] == self.spec_ticket(
                    self.spec_open_tickets()[j],
                ),
            forall|j: int| 0 <= j < r@.len() ==> (#[trigger] r@[j]).status != TicketStatus::Closed,
    {
        let mut r: Vec<SupportTicket> = Vec::new();
        let mut j: usize = 0;
        while j < self.open_tickets.len()
            invariant
                j <= self.open_tickets@.len(),
                self.wf(),
                r@.len() == j,
                forall|p: int|
                    0 <= p < j ==> #[trigger] r@[p] == self.spec_ticket(self.open_tickets@[p])
                        && r@[p].status != TicketStatus::Closed,
            decreases self.open_tickets@.len() - j,
        {
            let id = self.open_tickets[j];
            proof {
                assert(chosen_ids(self.tickets@, still_open(), ticket_id_of()).contains(
                    id,
                )) by {
                    assert(id == chosen_ids(self.tickets@, still_open(), ticket_id_of())[j as int]);
                }
                lemma_chosen_ids_membership(self.tickets@, still_open(), ticket_id_of(), id);
                let w = choose|w: int|
                    0 <= w < self.tickets@.len() && still_open()(#[trigger] self.tickets@[w])
                        && ticket_id_of()(self.tickets@[w]) == id;
                assert(has_id(self.tickets@, ticket_id_of(), id)) by {
                    assert(ticket_id_of()(self.tickets@[w]) == id);
                }
                lemma_index_of_id_is(self.tickets@, ticket_id_of(), id, w);
            }
            match self.find(id) {
                Some(ti) => {
                    r.push(self.tickets[ti].clone());
                },
                None => {
                    // unreachable: the open index only holds ids of stored tickets
                },
            }
            j += 1;
        }
        r
    }

    /// Records the handling admin; an open ticket moves to in-progress and
    /// stays in the open index.
    pub fn assign_ticket(&mut self, admin: u64, ticket_id: u64, now: u64) -> (r: Result<
        SupportTicket,
        Error,
    >)
        requires
            old(self).wf(),
        ensures
            final(self).wf(),
            !old(self).has_ticket(ticket_id) ==> r == Err::<SupportTicket, Error>(
                Error::TicketNotFound,
            ) && *final(self) == *old(self),
            old(self).has_ticket(ticket_id) ==> {
                &&& r == Ok::<SupportTicket, Error>(
                    assigned_ticket(old(self).spec_ticket(ticket_id), admin, now),
                )
                &&& final(self).tickets@ == old(self).tickets@.update(
                    index_of_id(old(self).tickets@, ticket_id_of(), ticket_id),
                    assigned_ticket(old(self).spec_ticket(ticket_id), admin, now),
                )
                &&& final(self).user_index == old(self).user_index
                &&& final(self).open_tickets == old(self).open_tickets
                &&& final(self).next_id == old(self).next_id
                &&& final(self).spec_ticket(ticket_id) == assigned_ticket(
                    old(self).spec_ticket(ticket_id),
                    admin,
                    now,
                )
                &&& forall|id2: u64|
                    #[trigger] final(self).has_ticket(id2) == old(self).has_ticket(id2)
                &&& forall|id2: u64|
                    id2 != ticket_id && old(self).has_ticket(id2) ==> #[trigger] final(self).spec_ticket(id2) == old(self).spec_ticket(id2)
            },
    {
        let i = match self.find(ticket_id) {
            None => {
                return Err(Error::TicketNotFound);
            },
            Some(i) => i,
        };
        let new_status = match self.tickets[i].status {
            TicketStatus::Open => TicketStatus::InProgress,
            s => s,
        };
        let updated = SupportTicket {
            id: self.tickets[i].id,
            user: self.tickets[i].user,
            admin: Some(admin),
            subject: self.tickets[i].subject.clone(),
            description: self.tickets[i].description.clone(),
            category: self.tickets[i].category,
            status: new_status,
            created_at: self.tickets[i].created_at,
            updated_at: now,
            closed_at: self.tickets[i].closed_at,
        };
        let out = updated.clone();
        let ghost gupd = updated;
        self.tickets.set(i, updated);
        proof {
            lemma_id_maps_preserved(old(self).tickets@, self.tickets@, ticket_id_of());
            assert forall|u: u64|
                #[trigger] self.user_index.at(u) == chosen_ids(
                    self.tickets@,
                    filed_by(u),
                    ticket_id_of(),
                ) by {
                lemma_chosen_ids_update_same(
                    old(self).tickets@,
                    filed_by(u),
                    ticket_id_of(),
                    i as int,
                    gupd,
                );
            }
            lemma_chosen_ids_update_same(
                old(self).tickets@,
                still_open(),
                ticket_id_of(),
                i as int,
                gupd,
            );
            assert forall|id2: u64|
                id2 != ticket_id && old(self).has_ticket(id2) implies #[trigger] self.spec_ticket(
                id2) == old(self).spec_ticket(id2) by {
                let j = index_of_id(old(self).tickets@, ticket_id_of(), id2);
                assert(0 <= j < old(self).tickets@.len() && old(self).tickets@[j].id == id2);
                assert(j != i);
            }
        }
        Ok(out)
    }

    /// Applies the transition table; an invalid move is rejected and the
    /// stored status stays what it was. Entering `Closed` stamps `closed_at`
    /// and leaves the open index.
    pub fn update_status(&mut self, _admin: u64, ticket_id: u64, status: TicketStatus, now: u64)
        -> (r: Result<SupportTicket, Error>)
        requires
            old(self).wf(),
        ensures
            final(self).wf(),
            !old(self).has_ticket(ticket_id) ==> r == Err::<SupportTicket, Error>(
                Error::TicketNotFound,
            ) && *final(self) == *old(self),
            old(self).has_ticket(ticket_id) && !transition_allowed(
                old(self).spec_ticket(ticket_id).status,
                status,
            ) ==> r == Err::<SupportTicket, Error>(Error::InvalidTransition) && *final(self)
                == *old(self),
            old(self).has_ticket(ticket_id) && transition_allowed(
                old(self).spec_ticket(ticket_id).status,
                status,
            ) ==> {
                &&& r == Ok::<SupportTicket, Error>(
                    restatused_ticket(old(self).spec_ticket(ticket_id), status, now),
                )
                &&& final(self).tickets@ == old(self).tickets@.update(
                    index_of_id(old(self).tickets@, ticket_id_of(), ticket_id),
                    restatused_ticket(old(self).spec_ticket(ticket_id), status, now),
                )
                &&& final(self).spec_ticket(ticket_id) == restatused_ticket(
                    old(self).spec_ticket(ticket_id),
                    status,
                    now,
                )
                &&& final(self).user_index == old(self).user_index
                &&& final(self).next_id == old(self).next_id
                &&& final(self).spec_open_tickets() == (if status is Closed {
                    seq_without(old(self).spec_open_tickets(), ticket_id)
                } else {
                    old(self).spec_open_tickets()
                })
                &&& status is Closed ==> !final(self).spec_open_tickets().contains(ticket_id)
                &&& forall|id2: u64|
                    #[trigger] final(self).has_ticket(id2) == old(self).has_ticket(id2)
                &&& forall|id2: u64|
                    id2 != ticket_id && old(self).has_ticket(id2) ==> #[trigger] final(self).spec_ticket(id2) == old(self).spec_ticket(id2)
            },
    {
        let i = match self.find(ticket_id) {
            None => {
                return Err(Error::TicketNotFound);
            },
            Some(i) => i,
        };
        if !is_transition_allowed(self.tickets[i].status, status) {
            return Err(Error::InvalidTransition);
        }
        let closing = match status {
            TicketStatus::Closed => true,
            _ => false,
        };
        let updated = SupportTicket {
            id: self.tickets[i].id,
            user: self.tickets[i].user,
            admin: self.tickets[i].admin,
            subject: self.tickets[i].subject.clone(),
            description: self.tickets[i].description.clone(),
            category: self.tickets[i].category,
            status,
            created_at: self.tickets[i].created_at,
            updated_at: now,
            closed_at: if closing {
                Some(now)
            } else {
                self.tickets[i].closed_at
            },
        };
        let out = updated.clone();
        let ghost gupd = updated;
        self.tickets.set(i, updated);
        if closing {
            self.open_tickets = vec_without(&self.open_tickets, ticket_id);
        }
        proof {
            lemma_id_maps_preserved(old(self).tickets@, self.tickets@, ticket_id_of());
            assert forall|u: u64|
                #[trigger] self.user_index.at(u) == chosen_ids(
                    self.tickets@,
                    filed_by(u),
                    ticket_id_of(),
                ) by {
                lemma_chosen_ids_update_same(
                    old(self).tickets@,
                    filed_by(u),
                    ticket_id_of(),
                    i as int,
                    gupd,
                );
            }
            if closing {
                lemma_chosen_ids_update_drop(
                    old(self).tickets@,
                    still_open(),
                    ticket_id_of(),
                    i as int,
                    gupd,
                );
                lemma_seq_without_membership(
                    chosen_ids(old(self).tickets@, still_open(), ticket_id_of()),
                    ticket_id,
                    ticket_id,
                );
            } else {
                lemma_chosen_ids_update_same(
                    old(self).tickets@,
                    still_open(),
                    ticket_id_of(),
                    i as int,
                    gupd,
                );
            }
            assert forall|id2: u64|
                id2 != ticket_id && old(self).has_ticket(id2) implies #[trigger] self.spec_ticket(
                id2) == old(self).spec_ticket(id2) by {
                let j = index_of_id(old(self).tickets@, ticket_id_of(), id2);
                assert(0 <= j < old(self).tickets@.len() && old(self).tickets@[j].id == id2);
                assert(j != i);
            }
        }
        Ok(out)
    }

    /// Closes a resolved ticket: stamps `closed_at`, leaves the open index.
    /// A ticket in any other status is rejected with `NotResolved`.
    pub fn close_ticket(&mut self, _admin: u64, ticket_id: u64, now: u64) -> (r: Result<
        SupportTicket,
        Error,
    >)
        requires
            old(self).wf(),
        ensures
            final(self).wf(),
            !old(self).has_ticket(ticket_id) ==> r == Err::<SupportTicket, Error>(
                Error::TicketNotFound,
            ) && *final(self) == *old(self),
            old(self).has_ticket(ticket_id) && !(old(self).spec_ticket(ticket_id).status
                is Resolved) ==> r == Err::<SupportTicket, Error>(Error::NotResolved) && *final(self) == *old(self),
            old(self).has_ticket(ticket_id) && old(self).spec_ticket(ticket_id).status is Resolved
                ==> {
                &&& r == Ok::<SupportTicket, Error>(
                    restatused_ticket(old(self).spec_ticket(ticket_id), TicketStatus::Closed, now),
                )
                &&& final(self).tickets@ == old(self).tickets@.update(
                    index_of_id(old(self).tickets@, ticket_id_of(), ticket_id),
                    restatused_ticket(old(self).spec_ticket(ticket_id), TicketStatus::Closed, now),
                )
                &&& final(self).spec_ticket(ticket_id) == restatused_ticket(
                    old(self).spec_ticket(ticket_id),
                    TicketStatus::Closed,
                    now,
                )
                &&& final(self).spec_ticket(ticket_id).closed_at == Some(now)
                &&& final(self).user_index == old(self).user_index
                &&& final(self).next_id == old(self).next_id
                &&& final(self).spec_open_tickets() == seq_without(
                    old(self).spec_open_tickets(),
                    ticket_id,
                )
                &&& !final(self).spec_open_tickets().contains(ticket_id)
                &&& forall|id2: u64|
                    #[trigger] final(self).has_ticket(id2) == old(self).has_ticket(id2)
                &&& forall|id2: u64|
                    id2 != ticket_id && old(self).has_ticket(id2) ==> #[trigger] final(self).spec_ticket(id2) == old(self).spec_ticket(id2)
            },
    {
        let i = match self.find(ticket_id) {
            None => {
                return Err(Error::TicketNotFound);
            },
            Some(i) => i,
        };
        let resolved = match self.tickets[i].status {
            TicketStatus::Resolved => true,
            _ => false,
        };
        if !resolved {
            return Err(Error::NotResolved);
        }
        let updated = SupportTicket {
            id: self.tickets[i].id,
            user: self.tickets[i].user,
            admin: self.tickets[i].admin,
            subject: self.tickets[i].subject.clone(),
            description: self.tickets[i].description.clone(),
            category: self.tickets[i].category,
            status: TicketStatus::Closed,
            created_at: self.tickets[i].created_at,
            updated_at: now,
            closed_at: Some(now),
        };
        let out = updated.clone();
        let ghost gupd = updated;
        self.tickets.set(i, updated);
        self.open_tickets = vec_without(&self.open_tickets, ticket_id);
        proof {
            lemma_id_maps_preserved(old(self).tickets@, self.tickets@, ticket_id_of());
            assert forall|u: u64|
                #[trigger] self.user_index.at(u) == chosen_ids(
                    self.tickets@,
                    filed_by(u),
                    ticket_id_of(),
                ) by {
                lemma_chosen_ids_update_same(
                    old(self).tickets@,
                    filed_by(u),
                    ticket_id_of(),
                    i as int,
                    gupd,
                );
            }
            lemma_chosen_ids_update_drop(
                old(self).tickets@,
                still_open(),
                ticket_id_of(),
                i as int,
                gupd,
            );
            lemma_seq_without_membership(
                chosen_ids(old(self).tickets@, still_open(), ticket_id_of()),
                ticket_id,
                ticket_id,
            );
            assert forall|id2: u64|
                id2 != ticket_id && old(self).has_ticket(id2) implies #[trigger] self.spec_ticket(
                id2) == old(self).spec_ticket(id2) by {
                let j = index_of_id(old(self).tickets@, ticket_id_of(), id2);
                assert(0 <= j < old(self).tickets@.len() && old(self).tickets@[j].id == id2);
                assert(j != i);
            }
        }
        Ok(out)
    }

    /// Deletes the ticket record and drops it from the user index; it leaves
    /// the open index too unless it was already closed.
    pub fn delete_ticket(&mut self, _admin: u64, ticket_id: u64) -> (r: Result<(), Error>)
        requires
            old(self).wf(),
        ensures
            final(self).wf(),
            !old(self).has_ticket(ticket_id) ==> r == Err::<(), Error>(Error::TicketNotFound)
                && *final(self) == *old(self),
            old(self).has_ticket(ticket_id) ==> {
                &&& r == Ok::<(), Error>(())
                &&& final(self).tickets@ == old(self).tickets@.remove(
                    index_of_id(old(self).tickets@, ticket_id_of(), ticket_id),
                )
                &&& !final(self).has_ticket(ticket_id)
                &&& final(self).next_id == old(self).next_id
                &&& final(self).spec_user_tickets(old(self).spec_ticket(ticket_id).user)
                    == seq_without(
                    old(self).spec_user_tickets(old(self).spec_ticket(ticket_id).user),
                    ticket_id,
                )
                &&& forall|u2: u64|
                    u2 != old(self).spec_ticket(ticket_id).user ==> #[trigger] final(self).spec_user_tickets(u2) == old(self).spec_user_tickets(u2)
                &&& final(self).spec_open_tickets() == (if old(self).spec_ticket(ticket_id).status
                    != TicketStatus::Closed {
                    seq_without(old(self).spec_open_tickets(), ticket_id)
                } else {
                    old(self).spec_open_tickets()
                })
                &&& forall|id2: u64|
                    id2 != ticket_id ==> #[trigger] final(self).has_ticket(id2) == old(self).has_ticket(id2)
                &&& forall|id2: u64|
                    id2 != ticket_id && old(self).has_ticket(id2) ==> #[trigger] final(self).spec_ticket(id2) == old(self).spec_ticket(id2)
            },
    {
        let i = match self.find(ticket_id) {
            None => {
                return Err(Error::TicketNotFound);
            },
            Some(i) => i,
        };
        let user = self.tickets[i].user;
        let was_closed = match self.tickets[i].status {
            TicketStatus::Closed => true,
            _ => false,
        };
        self.tickets.remove(i);
        self.user_index.remove_value(user, ticket_id);
        if !was_closed {
            self.open_tickets = vec_without(&self.open_tickets, ticket_id);
        }
        proof {
            lemma_id_maps_remove(old(self).tickets@, ticket_id_of(), i as int);
            assert forall|u: u64|
                #[trigger] self.user_index.at(u) == chosen_ids(
                    self.tickets@,
                    filed_by(u),
                    ticket_id_of(),
                ) by {
                lemma_chosen_ids_remove(old(self).tickets@, filed_by(u), ticket_id_of(), i as int);
            }
            lemma_chosen_ids_remove(old(self).tickets@, still_open(), ticket_id_of(), i as int);
            assert forall|id2: u64|
                id2 != ticket_id && old(self).has_ticket(id2) implies #[trigger] self.spec_ticket(
                id2) == old(self).spec_ticket(id2) by {
                assert(id2 != ticket_id_of()(old(self).tickets@[i as int]));
            }
        }
        Ok(())
    }
}

} // verus!
