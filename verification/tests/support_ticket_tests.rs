use credential_registry::support_ticket::{
    Error, SupportTicket, SupportTicketContract, TicketCategory, TicketStatus,
};

const NOW: u64 = 12345;

#[test]
fn test_submit_ticket() {
    let mut registry = SupportTicketContract::new();

    let user: u64 = 501;
    let category = TicketCategory::Payment;
    let subject = String::from("Payment Issue");
    let description = String::from("My payment was declined");

    let ticket = registry.submit_ticket(user, category, subject.clone(), description.clone(), NOW);

    assert_eq!(ticket.id, 1);
    assert_eq!(ticket.user, user);
    assert_eq!(ticket.subject, subject);
    assert_eq!(ticket.description, description);
    assert_eq!(ticket.category, category);
    assert_eq!(ticket.status, TicketStatus::Open);
    assert_eq!(ticket.created_at, 12345);
    assert_eq!(ticket.admin, None);
    assert_eq!(ticket.closed_at, None);
}

#[test]
fn test_list_user_tickets() {
    let mut registry = SupportTicketContract::new();

    let user: u64 = 501;

    registry.submit_ticket(
        user,
        TicketCategory::Payment,
        String::from("Payment Issue 1"),
        String::from("Description 1"),
        NOW,
    );
    registry.submit_ticket(
        user,
        TicketCategory::Course,
        String::from("Course Issue"),
        String::from("Description 2"),
        NOW,
    );

    let tickets = registry.list_user_tickets(user);

    assert_eq!(tickets.len(), 2);
    assert_eq!(tickets[0].subject, "Payment Issue 1");
    assert_eq!(tickets[1].subject, "Course Issue");
}

#[test]
fn test_admin_operations() {
    let mut registry = SupportTicketContract::new();

    let user: u64 = 501;
    let admin: u64 = 900;

    registry.submit_ticket(
        user,
        TicketCategory::Payment,
        String::from("Payment Issue"),
        String::from("Description"),
        NOW,
    );

    let assigned_ticket = registry.assign_ticket(admin, 1, NOW).unwrap();
    assert_eq!(assigned_ticket.admin, Some(admin));
    assert_eq!(assigned_ticket.status, TicketStatus::InProgress);

    let resolved_ticket = registry
        .update_status(admin, 1, TicketStatus::Resolved, NOW)
        .unwrap();
    assert_eq!(resolved_ticket.status, TicketStatus::Resolved);

    let closed_ticket = registry.close_ticket(admin, 1, NOW).unwrap();
    assert_eq!(closed_ticket.status, TicketStatus::Closed);
    assert!(closed_ticket.closed_at.is_some());

    let open_tickets = registry.list_open_tickets(admin);
    assert_eq!(open_tickets.len(), 0);
}

#[test]
fn test_invalid_status_transition() {
    let mut registry = SupportTicketContract::new();

    let user: u64 = 501;
    let admin: u64 = 900;

    registry.submit_ticket(
        user,
        TicketCategory::Payment,
        String::from("Payment Issue"),
        String::from("Description"),
        NOW,
    );

    // closing a ticket that is not resolved is rejected
    let r = registry.close_ticket(admin, 1, NOW);
    assert!(matches!(r, Err(Error::NotResolved)));
    assert_eq!(registry.get_ticket(1).unwrap().status, TicketStatus::Open);
}

#[test]
fn test_delete_ticket() {
    let mut registry = SupportTicketContract::new();

    let user: u64 = 501;
    let admin: u64 = 900;

    registry.submit_ticket(
        user,
        TicketCategory::Payment,
        String::from("Payment Issue"),
        String::from("Description"),
        NOW,
    );

    registry.delete_ticket(admin, 1).unwrap();

    let tickets = registry.list_user_tickets(user);
    assert_eq!(tickets.len(), 0);
}

fn fresh_ticket_in(registry: &mut SupportTicketContract, status: TicketStatus) -> SupportTicket {
    let admin: u64 = 900;
    let t = registry.submit_ticket(
        501,
        TicketCategory::Other,
        String::from("Subject"),
        String::from("Description"),
        NOW,
    );
    match status {
        TicketStatus::Open => {},
        TicketStatus::InProgress => {
            registry
                .update_status(admin, t.id, TicketStatus::InProgress, NOW)
                .unwrap();
        },
        TicketStatus::Resolved => {
            registry
                .update_status(admin, t.id, TicketStatus::Resolved, NOW)
                .unwrap();
        },
        TicketStatus::Closed => {
            registry
                .update_status(admin, t.id, TicketStatus::Resolved, NOW)
                .unwrap();
            registry
                .update_status(admin, t.id, TicketStatus::Closed, NOW)
                .unwrap();
        },
    }
    registry.get_ticket(t.id).unwrap()
}

#[test]
fn test_transition_matrix() {
    let admin: u64 = 900;
    let statuses = [
        TicketStatus::Open,
        TicketStatus::InProgress,
        TicketStatus::Resolved,
        TicketStatus::Closed,
    ];
    let allowed = [
        (TicketStatus::Open, TicketStatus::InProgress),
        (TicketStatus::Open, TicketStatus::Resolved),
        (TicketStatus::InProgress, TicketStatus::Resolved),
        (TicketStatus::InProgress, TicketStatus::Open),
        (TicketStatus::Resolved, TicketStatus::InProgress),
        (TicketStatus::Resolved, TicketStatus::Closed),
    ];

    for from in statuses {
        for to in statuses {
            let mut registry = SupportTicketContract::new();
            let ticket = fresh_ticket_in(&mut registry, from);
            let r = registry.update_status(admin, ticket.id, to, NOW);
            if allowed.contains(&(from, to)) {
                assert_eq!(r.unwrap().status, to);
            } else {
                // the move is rejected and the stored status stays `from`
                assert!(matches!(r, Err(Error::InvalidTransition)));
                assert_eq!(registry.get_ticket(ticket.id).unwrap().status, from);
            }
        }
    }
}

#[test]
fn test_sequential_ticket_ids() {
    let mut registry = SupportTicketContract::new();

    let user: u64 = 501;
    let t1 = registry.submit_ticket(
        user,
        TicketCategory::Payment,
        String::from("First"),
        String::from("Description"),
        NOW,
    );
    let t2 = registry.submit_ticket(
        user,
        TicketCategory::Course,
        String::from("Second"),
        String::from("Description"),
        NOW,
    );
    let t3 = registry.submit_ticket(
        user,
        TicketCategory::Other,
        String::from("Third"),
        String::from("Description"),
        NOW,
    );

    assert_eq!(t1.id, 1);
    assert_eq!(t2.id, 2);
    assert_eq!(t3.id, 3);

    let tickets = registry.list_user_tickets(user);
    assert_eq!(tickets.len(), 3);
    assert_eq!(tickets[0].id, 1);
    assert_eq!(tickets[1].id, 2);
    assert_eq!(tickets[2].id, 3);
}

#[test]
fn test_get_unknown_ticket_fails() {
    let registry = SupportTicketContract::new();
    let r = registry.get_ticket(1);
    assert!(matches!(r, Err(Error::TicketNotFound)));
}
