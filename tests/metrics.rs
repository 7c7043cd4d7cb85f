use pleme_support::metrics::day_number;
use pleme_support::{
    dashboard_metrics, overview_metrics, priority_counts, response_metrics, sla_metrics,
    status_counts, ticket_trends, top_agents, Fraction, SupportError, SupportTicket,
    TicketPriority, TicketStatus,
};

const MONDAY: i64 = 1_704_067_200; // 2024-01-01T00:00:00Z
const HOUR: i64 = 3600;
const DAY: i64 = 86_400;
const WEEK_END: i64 = MONDAY + 7 * DAY - 1;

fn row(id: u128, product: &str, created: i64) -> SupportTicket {
    SupportTicket {
        id,
        product: product.to_string(),
        customer_id: 1,
        subject: "s".to_string(),
        description: "d".to_string(),
        status: TicketStatus::New,
        priority: TicketPriority::Medium,
        category: None,
        assigned_to: None,
        first_response_at: None,
        resolved_at: None,
        closed_at: None,
        sla_breach: false,
        csat_score: None,
        created_at: created,
        updated_at: created,
        deleted_at: None,
    }
}

fn value(f: &Fraction) -> f64 {
    f.numerator as f64 / f.denominator as f64
}

fn example_rows() -> Vec<SupportTicket> {
    let mut t = row(1, "acme", MONDAY + 10 * HOUR);
    t.priority = TicketPriority::High;
    t.first_response_at = Some(MONDAY + 10 * HOUR + 30 * 60);
    t.resolved_at = Some(MONDAY + DAY + 12 * HOUR);
    t.status = TicketStatus::Resolved;
    vec![t]
}

#[test]
fn dashboard_of_one_resolved_ticket() {
    let rows = example_rows();
    let d = dashboard_metrics(&rows, "acme", MONDAY, WEEK_END, WEEK_END).unwrap();
    let fr = d.overview.avg_first_response_time_minutes.unwrap();
    assert!((value(&fr) - 30.0).abs() < 1e-9);
    assert_eq!(value(&d.overview.sla_compliance_rate.unwrap()), 100.0);
    assert_eq!(d.ticket_by_priority.len(), 1);
    assert_eq!(d.ticket_by_priority[0].priority, "HIGH");
    assert_eq!(d.ticket_by_priority[0].count, 1);
    assert_eq!(d.overview.total_active_tickets, 0);
    assert_eq!(value(&d.overview.avg_resolution_time_hours.unwrap()), 26.0);
    assert_eq!(d.overview.first_contact_resolution_rate.unwrap().numerator, 0);
    assert_eq!(d.ticket_trends.len(), 7);
}

#[test]
fn empty_period_rates_differ() {
    let rows = example_rows();
    let far = MONDAY + 100 * DAY;
    let sla = sla_metrics(&rows, "acme", far, far + DAY);
    assert_eq!(sla.total_tickets, 0);
    assert_eq!(value(&sla.compliance_rate), 0.0);
    let o = overview_metrics(&rows, "acme", far, far + DAY, far);
    assert!(o.sla_compliance_rate.is_none());
    assert!(o.first_contact_resolution_rate.is_none());
    assert!(o.avg_first_response_time_minutes.is_none());
    assert!(o.avg_csat_score.is_none());
}

#[test]
fn overview_counts_and_rates() {
    let mut rows = Vec::new();
    let mut a = row(1, "acme", MONDAY);
    a.first_response_at = Some(MONDAY + 600);
    a.resolved_at = Some(MONDAY + 1200);
    a.status = TicketStatus::Closed;
    a.csat_score = Some(5);
    rows.push(a);
    let mut b = row(2, "acme", MONDAY + HOUR);
    b.sla_breach = true;
    b.csat_score = Some(2);
    b.resolved_at = Some(MONDAY + 5 * HOUR);
    rows.push(b);
    let mut gone = row(3, "acme", MONDAY);
    gone.deleted_at = Some(MONDAY + 1);
    rows.push(gone);
    rows.push(row(4, "other", MONDAY));
    let o = overview_metrics(&rows, "acme", MONDAY, WEEK_END, MONDAY + 2 * HOUR);
    assert_eq!(o.total_active_tickets, 1);
    assert_eq!(o.new_tickets_today, 2);
    assert_eq!(o.resolved_tickets_today, 2);
    assert_eq!(o.sla_breach_count, 1);
    assert_eq!(value(&o.sla_compliance_rate.unwrap()), 50.0);
    assert_eq!(value(&o.first_contact_resolution_rate.unwrap()), 50.0);
    assert_eq!(value(&o.avg_csat_score.unwrap()), 3.5);
    assert_eq!(value(&o.avg_first_response_time_minutes.unwrap()), 10.0);
    let later = overview_metrics(&rows, "acme", MONDAY, WEEK_END, MONDAY + DAY + 2 * HOUR);
    assert_eq!(later.new_tickets_today, 0);
    assert_eq!(later.resolved_tickets_today, 1);
}

#[test]
fn priorities_come_in_severity_order() {
    let mut rows = Vec::new();
    for (i, p) in [TicketPriority::Low, TicketPriority::Low, TicketPriority::Low, TicketPriority::Urgent, TicketPriority::Medium, TicketPriority::Medium]
        .iter()
        .enumerate()
    {
        let mut t = row(i as u128, "acme", MONDAY + i as i64);
        t.priority = *p;
        rows.push(t);
    }
    let c = priority_counts(&rows, "acme", MONDAY, WEEK_END);
    let got: Vec<(String, i64)> = c.iter().map(|r| (r.priority.clone(), r.count)).collect();
    assert_eq!(got, vec![("URGENT".to_string(), 1), ("MEDIUM".to_string(), 2), ("LOW".to_string(), 3)]);
}

#[test]
fn statuses_come_largest_first() {
    let mut rows = Vec::new();
    let statuses = [
        TicketStatus::Closed,
        TicketStatus::New,
        TicketStatus::New,
        TicketStatus::InProgress,
        TicketStatus::New,
        TicketStatus::InProgress,
    ];
    for (i, s) in statuses.iter().enumerate() {
        let mut t = row(i as u128, "acme", MONDAY + i as i64);
        t.status = *s;
        rows.push(t);
    }
    let c = status_counts(&rows, "acme", MONDAY, WEEK_END);
    let got: Vec<(String, i64)> = c.iter().map(|r| (r.status.clone(), r.count)).collect();
    assert_eq!(
        got,
        vec![("NEW".to_string(), 3), ("IN_PROGRESS".to_string(), 2), ("CLOSED".to_string(), 1)]
    );
}

#[test]
fn trends_cover_seven_days_even_without_tickets() {
    let rows: Vec<SupportTicket> = Vec::new();
    let t = ticket_trends(&rows, "acme", WEEK_END);
    assert_eq!(t.len(), 7);
    let dates: Vec<&str> = t.iter().map(|r| r.date.as_str()).collect();
    assert_eq!(
        dates,
        vec!["2024-01-07", "2024-01-06", "2024-01-05", "2024-01-04", "2024-01-03", "2024-01-02", "2024-01-01"]
    );
    assert!(t.iter().all(|r| r.new_tickets == 0 && r.resolved_tickets == 0 && r.active_tickets == 0));
}

#[test]
fn trends_count_by_day() {
    let mut rows = example_rows();
    rows.push(row(2, "acme", MONDAY + 2 * DAY + 5));
    let t = ticket_trends(&rows, "acme", MONDAY + 2 * DAY + 100);
    assert_eq!(t[0].date, "2024-01-03");
    assert_eq!(t[0].new_tickets, 1);
    assert_eq!(t[0].active_tickets, 1);
    assert_eq!(t[1].date, "2024-01-02");
    assert_eq!(t[1].resolved_tickets, 1);
    assert_eq!(t[1].active_tickets, 0);
    assert_eq!(t[2].new_tickets, 1);
    assert_eq!(t[3].new_tickets, 0);
}

#[test]
fn response_medians_interpolate() {
    let mut rows = Vec::new();
    for (i, mins) in [10i64, 40, 20, 30].iter().enumerate() {
        let mut t = row(i as u128, "acme", MONDAY);
        t.first_response_at = Some(MONDAY + mins * 60);
        rows.push(t);
    }
    let r = response_metrics(&rows, "acme", MONDAY, WEEK_END);
    assert_eq!(value(&r.median_first_response_minutes.unwrap()), 25.0);
    assert_eq!(value(&r.avg_first_response_minutes.unwrap()), 25.0);
    assert_eq!(r.median_response_minutes, r.median_first_response_minutes);
    assert!(r.median_resolution_hours.is_none());
    rows.pop();
    let s = response_metrics(&rows, "acme", MONDAY, WEEK_END);
    assert_eq!(value(&s.median_first_response_minutes.unwrap()), 20.0);
}

#[test]
fn top_agents_rank_by_resolutions() {
    let mut rows = Vec::new();
    let agent_a: u128 = 0x0123_4567_89ab_cdef_0123_4567_89ab_cdef;
    let agent_b: u128 = 2;
    for i in 0..3u128 {
        let mut t = row(i, "acme", MONDAY + i as i64);
        t.assigned_to = Some(agent_b);
        t.status = TicketStatus::Resolved;
        t.csat_score = Some(4);
        rows.push(t);
    }
    let mut t = row(10, "acme", MONDAY);
    t.assigned_to = Some(agent_a);
    rows.push(t);
    rows.push(row(11, "acme", MONDAY));
    let top = top_agents(&rows, "acme", MONDAY, WEEK_END);
    assert_eq!(top.len(), 2);
    assert_eq!(top[0].agent_id, uuid::Uuid::from_u128(agent_b).to_string());
    assert_eq!(top[0].tickets_resolved, 3);
    assert_eq!(top[0].tickets_assigned, 3);
    assert_eq!(value(&top[0].csat_score.unwrap()), 4.0);
    assert_eq!(top[1].agent_id, "01234567-89ab-cdef-0123-456789abcdef");
    assert_eq!(top[1].agent_name, top[1].agent_id);
    assert_eq!(top[1].tickets_resolved, 0);
}

#[test]
fn top_agents_stop_at_ten() {
    let mut rows = Vec::new();
    for a in 0..12u128 {
        for k in 0..a {
            let mut t = row(a * 100 + k, "acme", MONDAY);
            t.assigned_to = Some(a + 1);
            t.status = TicketStatus::Closed;
            rows.push(t);
        }
    }
    let top = top_agents(&rows, "acme", MONDAY, WEEK_END);
    assert_eq!(top.len(), 10);
    assert_eq!(top[0].tickets_resolved, 11);
    assert_eq!(top[9].tickets_resolved, 2);
}

#[test]
fn days_round_down_before_the_epoch() {
    assert_eq!(day_number(0), 0);
    assert_eq!(day_number(-1), -1);
    assert_eq!(day_number(DAY), 1);
    assert_eq!(day_number(MONDAY), 19723);
}

#[test]
fn dashboard_rejects_times_out_of_range() {
    let rows = example_rows();
    let r = dashboard_metrics(&rows, "acme", MONDAY, i64::MAX, MONDAY);
    assert!(matches!(r, Err(SupportError::InvalidInput(_))));
    let mut bad = example_rows();
    bad[0].resolved_at = Some(i64::MIN);
    assert!(matches!(dashboard_metrics(&bad, "acme", MONDAY, WEEK_END, MONDAY), Err(SupportError::InvalidInput(_))));
}
