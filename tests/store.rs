use pleme_support::{
    AddTicketMessageInput, CreateTicketInput, SupportError, SupportMutations, SupportQueries,
    SupportRepository, TicketFilter, TicketPriority, TicketStatus, UpdateTicketInput,
};

const T0: i64 = 1_704_103_200;

fn input(customer: u128, subject: &str, priority: TicketPriority) -> CreateTicketInput {
    CreateTicketInput {
        customer_id: customer,
        subject: subject.to_string(),
        description: format!("{} details", subject),
        priority,
        category: Some("authentication".to_string()),
    }
}

fn no_update() -> UpdateTicketInput {
    UpdateTicketInput {
        subject: None,
        description: None,
        status: None,
        priority: None,
        category: None,
        assigned_to: None,
    }
}

#[test]
fn created_ticket_is_found_as_stored() {
    let mut repo = SupportRepository::new();
    let made = repo.create_ticket("acme", &input(7, "Login issue", TicketPriority::High), 1, T0).unwrap();
    let found = repo.find_by_id(1).unwrap();
    assert_eq!(found.id, 1);
    assert_eq!(found.product, "acme");
    assert_eq!(found.customer_id, 7);
    assert_eq!(found.subject, "Login issue");
    assert_eq!(found.description, "Login issue details");
    assert_eq!(found.priority, TicketPriority::High);
    assert_eq!(found.category, Some("authentication".to_string()));
    assert_eq!(found.status, TicketStatus::New);
    assert_eq!(found.created_at, T0);
    assert_eq!(found.updated_at, T0);
    assert_eq!(found.assigned_to, None);
    assert_eq!(found.deleted_at, None);
    assert!(!found.sla_breach);
    assert_eq!(made.subject, found.subject);
}

#[test]
fn missing_ticket_is_not_found() {
    let mut repo = SupportRepository::new();
    repo.create_ticket("acme", &input(7, "a", TicketPriority::Low), 1, T0).unwrap();
    assert_eq!(repo.find_by_id(2).unwrap_err(), SupportError::TicketNotFound(2));
    let queries = SupportQueries;
    assert_eq!(queries.support_ticket(&repo, 3).unwrap_err(), SupportError::TicketNotFound(3));
}

#[test]
fn duplicate_id_is_a_storage_failure() {
    let mut repo = SupportRepository::new();
    repo.create_ticket("acme", &input(7, "a", TicketPriority::Low), 1, T0).unwrap();
    let again = repo.create_ticket("acme", &input(8, "b", TicketPriority::Low), 1, T0 + 5);
    assert!(matches!(again, Err(SupportError::Database(_))));
    assert_eq!(repo.tickets().len(), 1);
}

#[test]
fn time_out_of_range_is_invalid_input() {
    let mut repo = SupportRepository::new();
    let r = repo.create_ticket("acme", &input(7, "a", TicketPriority::Low), 1, i64::MAX);
    assert!(matches!(r, Err(SupportError::InvalidInput(_))));
}

#[test]
fn empty_update_only_refreshes_update_time() {
    let mut repo = SupportRepository::new();
    let before = repo.create_ticket("acme", &input(7, "a", TicketPriority::Medium), 1, T0).unwrap();
    let after = repo.update_ticket(1, &no_update(), T0 + 60).unwrap();
    assert_eq!(after.updated_at, T0 + 60);
    assert_eq!(after.subject, before.subject);
    assert_eq!(after.description, before.description);
    assert_eq!(after.status, before.status);
    assert_eq!(after.priority, before.priority);
    assert_eq!(after.category, before.category);
    assert_eq!(after.assigned_to, before.assigned_to);
    assert_eq!(after.created_at, before.created_at);
}

#[test]
fn update_replaces_supplied_fields() {
    let mut repo = SupportRepository::new();
    repo.create_ticket("acme", &input(7, "a", TicketPriority::Medium), 1, T0).unwrap();
    let mut u = no_update();
    u.status = Some(TicketStatus::InProgress);
    u.assigned_to = Some(99);
    let mutations = SupportMutations;
    let t = mutations.update_support_ticket(&mut repo, 1, &u, T0 + 10).unwrap();
    assert_eq!(t.status, TicketStatus::InProgress);
    assert_eq!(t.assigned_to, Some(99));
    assert_eq!(t.subject, "a");
    assert_eq!(repo.find_by_id(1).unwrap().status, TicketStatus::InProgress);
}

#[test]
fn update_of_missing_ticket_is_not_found() {
    let mut repo = SupportRepository::new();
    let r = repo.update_ticket(5, &no_update(), T0);
    assert_eq!(r.unwrap_err(), SupportError::TicketNotFound(5));
}

#[test]
fn list_keeps_to_its_product_newest_first() {
    let mut repo = SupportRepository::new();
    repo.create_ticket("acme", &input(1, "old", TicketPriority::Low), 1, T0).unwrap();
    repo.create_ticket("other", &input(1, "foreign", TicketPriority::Low), 2, T0 + 1).unwrap();
    repo.create_ticket("acme", &input(1, "new", TicketPriority::Low), 3, T0 + 2).unwrap();
    let all = repo.list("acme", &TicketFilter::empty(), 20, 0).unwrap();
    let subjects: Vec<&str> = all.iter().map(|t| t.subject.as_str()).collect();
    assert_eq!(subjects, vec!["new", "old"]);
}

#[test]
fn list_applies_status_and_customer_filters() {
    let mut repo = SupportRepository::new();
    repo.create_ticket("acme", &input(1, "a", TicketPriority::Low), 1, T0).unwrap();
    repo.create_ticket("acme", &input(2, "b", TicketPriority::High), 2, T0 + 1).unwrap();
    let mut f = TicketFilter::empty();
    f.customer_id = Some(2);
    let hits = repo.list("acme", &f, 20, 0).unwrap();
    assert_eq!(hits.len(), 1);
    assert_eq!(hits[0].id, 2);
    let mut g = TicketFilter::empty();
    g.status = Some(TicketStatus::Closed);
    assert!(repo.list("acme", &g, 20, 0).unwrap().is_empty());
    let mut h = TicketFilter::empty();
    h.search_query = Some("nothing matches this".to_string());
    h.category = Some("none".to_string());
    assert_eq!(repo.list("acme", &h, 20, 0).unwrap().len(), 2);
}

#[test]
fn list_pages_join_up() {
    let mut repo = SupportRepository::new();
    for i in 0..45u128 {
        repo.create_ticket("acme", &input(1, "t", TicketPriority::Low), i, T0 + i as i64).unwrap();
    }
    let f = TicketFilter::empty();
    let first = repo.list("acme", &f, 20, 0).unwrap();
    let second = repo.list("acme", &f, 20, 20).unwrap();
    let both = repo.list("acme", &f, 40, 0).unwrap();
    let joined: Vec<u128> = first.iter().chain(second.iter()).map(|t| t.id).collect();
    let whole: Vec<u128> = both.iter().map(|t| t.id).collect();
    assert_eq!(joined, whole);
    assert_eq!(whole[0], 44);
    assert_eq!(repo.list("acme", &f, 20, 40).unwrap().len(), 5);
    assert!(repo.list("acme", &f, 20, 100).unwrap().is_empty());
}

#[test]
fn default_page_is_twenty_from_the_start() {
    let mut repo = SupportRepository::new();
    for i in 0..25u128 {
        repo.create_ticket("acme", &input(1, "t", TicketPriority::Low), i, T0 + i as i64).unwrap();
    }
    let queries = SupportQueries;
    let page = queries.support_tickets(&repo, "acme", None, None, None).unwrap();
    assert_eq!(page.len(), 20);
    assert_eq!(page[0].id, 24);
}

#[test]
fn negative_page_bounds_are_invalid() {
    let repo = SupportRepository::new();
    let r = repo.list("acme", &TicketFilter::empty(), -1, 0);
    assert!(matches!(r, Err(SupportError::InvalidInput(_))));
    let s = repo.list("acme", &TicketFilter::empty(), 5, -3);
    assert!(matches!(s, Err(SupportError::InvalidInput(_))));
}

#[test]
fn messages_come_back_oldest_first() {
    let mut repo = SupportRepository::new();
    repo.create_ticket("acme", &input(1, "t", TicketPriority::Low), 1, T0).unwrap();
    repo.create_ticket("acme", &input(1, "u", TicketPriority::Low), 2, T0).unwrap();
    let msg = |ticket: u128, text: &str| AddTicketMessageInput {
        ticket_id: ticket,
        content: text.to_string(),
        is_internal: false,
    };
    repo.add_message(5, &msg(1, "second"), 10, T0 + 20).unwrap();
    repo.add_message(5, &msg(2, "elsewhere"), 11, T0 + 5).unwrap();
    repo.add_message(6, &msg(1, "first"), 12, T0 + 10).unwrap();
    repo.add_message(6, &msg(1, "third"), 13, T0 + 30).unwrap();
    let thread = repo.get_messages(1);
    let texts: Vec<&str> = thread.iter().map(|m| m.content.as_str()).collect();
    assert_eq!(texts, vec!["first", "second", "third"]);
    assert!(thread.windows(2).all(|w| w[0].created_at <= w[1].created_at));
    assert_eq!(thread[0].author_id, 6);
}

#[test]
fn message_for_unknown_ticket_is_a_storage_failure() {
    let mut repo = SupportRepository::new();
    let mutations = SupportMutations;
    let input = AddTicketMessageInput { ticket_id: 404, content: "hi".to_string(), is_internal: true };
    let r = mutations.add_ticket_message(&mut repo, 1, &input, 1, T0);
    assert!(matches!(r, Err(SupportError::Database(_))));
    assert!(repo.get_messages(404).is_empty());
}

fn stored(id: u128, product: &str, created: i64, deleted: Option<i64>) -> pleme_support::SupportTicket {
    pleme_support::SupportTicket {
        id,
        product: product.to_string(),
        customer_id: 1,
        subject: format!("ticket {}", id),
        description: "d".to_string(),
        status: TicketStatus::New,
        priority: TicketPriority::Low,
        category: None,
        assigned_to: None,
        first_response_at: None,
        resolved_at: None,
        closed_at: None,
        sla_breach: false,
        csat_score: None,
        created_at: created,
        updated_at: created,
        deleted_at: deleted,
    }
}

#[test]
fn deleted_ticket_is_not_found_nor_listed_nor_updated() {
    let rows = vec![
        stored(1, "acme", T0, None),
        stored(2, "acme", T0 + 1, Some(T0 + 50)),
        stored(3, "beta", T0 + 2, None),
    ];
    let mut repo = SupportRepository::with_rows(rows, Vec::new()).unwrap();
    assert_eq!(repo.find_by_id(2).unwrap_err(), SupportError::TicketNotFound(2));
    assert_eq!(repo.find_by_id(1).unwrap().id, 1);
    let mut f = TicketFilter::empty();
    f.priority = Some(TicketPriority::Low);
    let listed: Vec<u128> = repo.list("acme", &f, 20, 0).unwrap().iter().map(|t| t.id).collect();
    assert_eq!(listed, vec![1]);
    assert_eq!(repo.update_ticket(2, &no_update(), T0 + 60).unwrap_err(), SupportError::TicketNotFound(2));
}

#[test]
fn list_rows_skips_deleted_and_foreign_rows() {
    let rows = vec![
        stored(1, "acme", T0, None),
        stored(2, "acme", T0 + 1, Some(T0 + 2)),
        stored(3, "beta", T0 + 2, None),
        stored(4, "acme", T0 + 3, None),
    ];
    let page = pleme_support::list_rows(&rows, "acme", &TicketFilter::empty(), 1, 1).unwrap();
    assert_eq!(page.len(), 1);
    assert_eq!(page[0].id, 1);
}

#[test]
fn loading_rejects_disordered_or_repeated_rows() {
    let late_first = vec![stored(1, "acme", T0 + 5, None), stored(2, "acme", T0, None)];
    assert!(matches!(SupportRepository::with_rows(late_first, Vec::new()), Err(SupportError::InvalidInput(_))));
    let twice = vec![stored(1, "acme", T0, None), stored(1, "acme", T0 + 1, None)];
    assert!(matches!(SupportRepository::with_rows(twice, Vec::new()), Err(SupportError::InvalidInput(_))));
}

#[test]
fn message_to_deleted_ticket_is_kept() {
    let rows = vec![stored(1, "acme", T0, Some(T0 + 1))];
    let mut repo = SupportRepository::with_rows(rows, Vec::new()).unwrap();
    let input = AddTicketMessageInput { ticket_id: 1, content: "late".to_string(), is_internal: true };
    let m = repo.add_message(9, &input, 100, T0 + 2).unwrap();
    assert!(m.is_internal);
    assert_eq!(repo.get_messages(1).len(), 1);
    let again = repo.add_message(9, &input, 100, T0 + 3);
    assert!(matches!(again, Err(SupportError::Database(_))));
}

#[test]
fn page_bounds_default_to_first_twenty() {
    assert_eq!(pleme_support::page_bounds(None, None), (20, 0));
    assert_eq!(pleme_support::page_bounds(Some(5), Some(7)), (5, 7));
}

#[test]
fn find_live_skips_deleted_rows() {
    let rows = vec![stored(1, "acme", T0, Some(T0 + 1)), stored(2, "acme", T0 + 1, None)];
    assert_eq!(pleme_support::find_live(&rows, 1).unwrap_err(), SupportError::TicketNotFound(1));
    assert_eq!(pleme_support::find_live(&rows, 2).unwrap().id, 2);
}
