use vstd::prelude::*;

use crate::models::{time_ok, Fraction, SupportError, SupportTicket, TicketPriority, TicketStatus, DAY, HOUR, TIME_LIMIT};

verus! {

/// Number of rows for which both `scope` and `p` hold.
pub open spec fn count_where(
    s: Seq<SupportTicket>,
    scope: spec_fn(SupportTicket) -> bool,
    p: spec_fn(SupportTicket) -> bool,
) -> int
    decreases s.len(),
{
    if s.len() == 0 {
        0
    } else {
        count_where(s.drop_last(), scope, p) + if scope(s.last()) && p(s.last()) {
            1int
        } else {
            0int
        }
    }
}

/// Sum of `f` over the rows for which both `scope` and `p` hold.
pub open spec fn sum_where(
    s: Seq<SupportTicket>,
    scope: spec_fn(SupportTicket) -> bool,
    p: spec_fn(SupportTicket) -> bool,
    f: spec_fn(SupportTicket) -> int,
) -> int
    decreases s.len(),
{
    if s.len() == 0 {
        0
    } else {
        sum_where(s.drop_last(), scope, p, f) + if scope(s.last()) && p(s.last()) {
            f(s.last())
        } else {
            0int
        }
    }
}

/// Live tickets of the product created within `[start, end]`, and where an
/// agent is given, assigned to that agent.
pub open spec fn in_scope(product: Seq<char>, start: i64, end: i64, agent: Option<u128>) -> spec_fn(
    SupportTicket,
) -> bool {
    |t: SupportTicket|
        t.product@ == product && t.is_live() && start <= t.created_at <= end && (agent matches Some(
            a,
        ) ==> t.assigned_to == Some(a))
}

/// Live tickets of the product created within `[start, end]`.
pub open spec fn in_period(product: Seq<char>, start: i64, end: i64) -> spec_fn(SupportTicket) -> bool {
    in_scope(product, start, end, None)
}

/// Resolved or closed.
pub open spec fn finished() -> spec_fn(SupportTicket) -> bool {
    |t: SupportTicket| t.status.is_done()
}

pub open spec fn every() -> spec_fn(SupportTicket) -> bool {
    |t: SupportTicket| true
}

pub open spec fn active() -> spec_fn(SupportTicket) -> bool {
    |t: SupportTicket| !t.status.is_done()
}

pub open spec fn created_since(since: int) -> spec_fn(SupportTicket) -> bool {
    |t: SupportTicket| t.created_at >= since
}

pub open spec fn resolved_since(since: int) -> spec_fn(SupportTicket) -> bool {
    |t: SupportTicket| t.resolved_at matches Some(r) && r >= since
}

pub open spec fn responded() -> spec_fn(SupportTicket) -> bool {
    |t: SupportTicket| t.first_response_at is Some
}

pub open spec fn resolved() -> spec_fn(SupportTicket) -> bool {
    |t: SupportTicket| t.resolved_at is Some
}

/// Resolved less than an hour after the first response.
pub open spec fn first_contact() -> spec_fn(SupportTicket) -> bool {
    |t: SupportTicket|
        t.first_response_at matches Some(f) && t.resolved_at matches Some(r) && r - f < HOUR
}

pub open spec fn breached() -> spec_fn(SupportTicket) -> bool {
    |t: SupportTicket| t.sla_breach
}

pub open spec fn met() -> spec_fn(SupportTicket) -> bool {
    |t: SupportTicket| !t.sla_breach
}

pub open spec fn rated() -> spec_fn(SupportTicket) -> bool {
    |t: SupportTicket| t.csat_score is Some
}

/// Seconds from creation to first response (0 where there is none).
pub open spec fn response_secs() -> spec_fn(SupportTicket) -> int {
    |t: SupportTicket|
        match t.first_response_at {
            Some(f) => f - t.created_at,
            None => 0,
        }
}

/// Seconds from creation to resolution (0 where there is none).
pub open spec fn resolution_secs() -> spec_fn(SupportTicket) -> int {
    |t: SupportTicket|
        match t.resolved_at {
            Some(r) => r - t.created_at,
            None => 0,
        }
}

pub open spec fn csat() -> spec_fn(SupportTicket) -> int {
    |t: SupportTicket|
        match t.csat_score {
            Some(c) => c as int,
            None => 0,
        }
}

/// `r` is `n / d`, or nothing where `d` is zero.
pub open spec fn is_ratio(r: Option<Fraction>, n: int, d: int) -> bool {
    if d == 0 {
        r is None
    } else {
        r matches Some(f) && f.is(n, d)
    }
}

pub open spec fn rows_ok(rows: Seq<SupportTicket>) -> bool {
    &&& rows.len() <= i64::MAX
    &&& forall|i: int| 0 <= i < rows.len() ==> #[trigger] rows[i].wf()
}

/// Per-period counts and sums from which the summary metrics are formed.
#[derive(Clone, Copy)]
pub struct Tally {
    pub total: i64,
    pub active: i64,
    pub done: i64,
    pub new_since: i64,
    pub resolved_since: i64,
    pub breached: i64,
    pub met: i64,
    pub responded: i64,
    pub response_sum: i128,
    pub resolved: i64,
    pub resolution_sum: i128,
    pub first_contact: i64,
    pub rated: i64,
    pub csat_sum: i128,
}

impl Tally {
    pub open spec fn of(
        self,
        rows: Seq<SupportTicket>,
        scope: spec_fn(SupportTicket) -> bool,
        since: int,
    ) -> bool {
        &&& self.total == count_where(rows, scope, every())
        &&& self.active == count_where(rows, scope, active())
        &&& self.done == count_where(rows, scope, finished())
        &&& self.new_since == count_where(rows, scope, created_since(since))
        &&& self.resolved_since == count_where(rows, scope, resolved_since(since))
        &&& self.breached == count_where(rows, scope, breached())
        &&& self.met == count_where(rows, scope, met())
        &&& self.responded == count_where(rows, scope, responded())
        &&& self.response_sum == sum_where(rows, scope, responded(), response_secs())
        &&& self.resolved == count_where(rows, scope, resolved())
        &&& self.resolution_sum == sum_where(rows, scope, resolved(), resolution_secs())
        &&& self.first_contact == count_where(rows, scope, first_contact())
        &&& self.rated == count_where(rows, scope, rated())
        &&& self.csat_sum == sum_where(rows, scope, rated(), csat())
    }
}

/// Seconds between two stored times, widened so that no difference overflows.
fn span(from: i64, to: i64) -> (r: i128)
    ensures
        r == to - from,
{
    to as i128 - from as i128
}

/// Counts and sums over the live tickets of `product` created within
/// `[start, end]` (and assigned to `agent`, where one is given); `since` is the
/// start of the recent window.
pub fn tally(
    rows: &Vec<SupportTicket>,
    product: &str,
    start: i64,
    end: i64,
    agent: Option<u128>,
    since: i128,
) -> (r: Tally)
    requires
        rows_ok(rows@),
    ensures
        r.of(rows@, in_scope(product@, start, end, agent), since as int),
        r.done >= 0 && r.total >= 0 && r.active >= 0 && r.new_since >= 0 && r.resolved_since >= 0,
        r.breached >= 0 && r.met >= 0 && r.responded >= 0 && r.resolved >= 0,
        r.first_contact >= 0 && r.rated >= 0,
{
    let name = product.to_owned();
    let ghost scope = in_scope(product@, start, end, agent);
    let ghost sn = since as int;
    let mut a = Tally {
        total: 0,
        active: 0,
        done: 0,
        new_since: 0,
        resolved_since: 0,
        breached: 0,
        met: 0,
        responded: 0,
        response_sum: 0,
        resolved: 0,
        resolution_sum: 0,
        first_contact: 0,
        rated: 0,
        csat_sum: 0,
    };
    let mut i: usize = 0;
    while i < rows.len()
        invariant
            i <= rows.len() <= i64::MAX,
            rows_ok(rows@),
            name@ == product@,
            scope == in_scope(product@, start, end, agent),
            sn == since as int,
            0 <= a.done <= i,
            a.of(rows@.take(i as int), scope, sn),
            0 <= a.total <= i,
            0 <= a.active <= i,
            0 <= a.new_since <= i,
            0 <= a.resolved_since <= i,
            0 <= a.breached <= i,
            0 <= a.met <= i,
            0 <= a.responded <= i,
            0 <= a.resolved <= i,
            0 <= a.first_contact <= i,
            0 <= a.rated <= i,
            -(i as int) * 2 * TIME_LIMIT <= a.response_sum <= (i as int) * 2 * TIME_LIMIT,
            -(i as int) * 2 * TIME_LIMIT <= a.resolution_sum <= (i as int) * 2 * TIME_LIMIT,
            -(i as int) * 0x8000_0000 <= a.csat_sum <= (i as int) * 0x8000_0000,
        decreases rows.len() - i,
    {
        let t = &rows[i];
        assert(rows@.take(i as int + 1).drop_last() =~= rows@.take(i as int));
        assert(rows@.take(i as int + 1).last() == rows@[i as int]);
        assert(t.wf());
        let agent_ok = match agent {
            Some(x) => match t.assigned_to {
                Some(y) => x == y,
                None => false,
            },
            None => true,
        };
        if t.product == name && t.deleted_at.is_none() && start <= t.created_at && t.created_at
            <= end && agent_ok {
            a.total = a.total + 1;
            if !t.status.done() {
                a.active = a.active + 1;
            } else {
                a.done = a.done + 1;
            }
            if t.created_at as i128 >= since {
                a.new_since = a.new_since + 1;
            }
            if t.sla_breach {
                a.breached = a.breached + 1;
            } else {
                a.met = a.met + 1;
            }
            match t.first_response_at {
                Some(f) => {
                    a.responded = a.responded + 1;
                    a.response_sum = a.response_sum + span(t.created_at, f);
                },
                None => {},
            }
            match t.resolved_at {
                Some(r) => {
                    a.resolved = a.resolved + 1;
                    a.resolution_sum = a.resolution_sum + span(t.created_at, r);
                    if r as i128 >= since {
                        a.resolved_since = a.resolved_since + 1;
                    }
                    match t.first_response_at {
                        Some(f) => {
                            if span(f, r) < HOUR as i128 {
                                a.first_contact = a.first_contact + 1;
                            }
                        },
                        None => {},
                    }
                },
                None => {},
            }
            match t.csat_score {
                Some(c) => {
                    a.rated = a.rated + 1;
                    a.csat_sum = a.csat_sum + c as i128;
                },
                None => {},
            }
        }
        i = i + 1;
    }
    assert(rows@.take(i as int) =~= rows@);
    a
}


/// `n / d` where `d` is not zero; nothing where it is.
fn ratio(n: i128, d: i128) -> (r: Option<Fraction>)
    requires
        d >= 0,
    ensures
        is_ratio(r, n as int, d as int),
{
    if d == 0 {
        None
    } else {
        Some(Fraction { numerator: n, denominator: d })
    }
}

pub struct CrmCoreSupportOverviewMetrics {
    pub total_active_tickets: i64,
    pub new_tickets_today: i64,
    pub resolved_tickets_today: i64,
    pub avg_first_response_time_minutes: Option<Fraction>,
    pub avg_resolution_time_hours: Option<Fraction>,
    pub first_contact_resolution_rate: Option<Fraction>,
    pub sla_compliance_rate: Option<Fraction>,
    pub sla_breach_count: i64,
    pub avg_csat_score: Option<Fraction>,
}

impl CrmCoreSupportOverviewMetrics {
    /// The overview of the live tickets of `product` created within
    /// `[start, end]`; "today" is the day up to `now`.
    pub open spec fn describes(
        self,
        rows: Seq<SupportTicket>,
        product: Seq<char>,
        start: i64,
        end: i64,
        now: i64,
    ) -> bool {
        let scope = in_period(product, start, end);
        let since = now - DAY;
        &&& self.total_active_tickets == count_where(rows, scope, active())
        &&& self.new_tickets_today == count_where(rows, scope, created_since(since))
        &&& self.resolved_tickets_today == count_where(rows, scope, resolved_since(since))
        &&& is_ratio(
            self.avg_first_response_time_minutes,
            sum_where(rows, scope, responded(), response_secs()),
            60 * count_where(rows, scope, responded()),
        )
        &&& is_ratio(
            self.avg_resolution_time_hours,
            sum_where(rows, scope, resolved(), resolution_secs()),
            HOUR * count_where(rows, scope, resolved()),
        )
        &&& is_ratio(
            self.first_contact_resolution_rate,
            100 * count_where(rows, scope, first_contact()),
            count_where(rows, scope, resolved()),
        )
        &&& is_ratio(
            self.sla_compliance_rate,
            100 * count_where(rows, scope, met()),
            count_where(rows, scope, every()),
        )
        &&& self.sla_breach_count == count_where(rows, scope, breached())
        &&& is_ratio(
            self.avg_csat_score,
            sum_where(rows, scope, rated(), csat()),
            count_where(rows, scope, rated()),
        )
    }
}

/// Summary of the live tickets of `product` created within `[start, end]`.
pub fn overview_metrics(
    rows: &Vec<SupportTicket>,
    product: &str,
    start: i64,
    end: i64,
    now: i64,
) -> (r: CrmCoreSupportOverviewMetrics)
    requires
        rows_ok(rows@),
    ensures
        r.describes(rows@, product@, start, end, now),
{
    let a = tally(rows, product, start, end, None, now as i128 - DAY as i128);
    CrmCoreSupportOverviewMetrics {
        total_active_tickets: a.active,
        new_tickets_today: a.new_since,
        resolved_tickets_today: a.resolved_since,
        avg_first_response_time_minutes: ratio(a.response_sum, 60 * a.responded as i128),
        avg_resolution_time_hours: ratio(a.resolution_sum, HOUR as i128 * a.resolved as i128),
        first_contact_resolution_rate: ratio(100 * a.first_contact as i128, a.resolved as i128),
        sla_compliance_rate: ratio(100 * a.met as i128, a.total as i128),
        sla_breach_count: a.breached,
        avg_csat_score: ratio(a.csat_sum, a.rated as i128),
    }
}

pub struct CrmCoreSlaMetrics {
    pub total_tickets: i64,
    pub tickets_meeting_sla: i64,
    pub tickets_breaching_sla: i64,
    pub compliance_rate: Fraction,
    pub avg_first_response_minutes: Option<Fraction>,
    pub avg_resolution_hours: Option<Fraction>,
}

impl CrmCoreSlaMetrics {
    pub open spec fn describes(self, rows: Seq<SupportTicket>, product: Seq<char>, start: i64, end: i64) -> bool {
        let scope = in_period(product, start, end);
        &&& self.total_tickets == count_where(rows, scope, every())
        &&& self.tickets_meeting_sla == count_where(rows, scope, met())
        &&& self.tickets_breaching_sla == count_where(rows, scope, breached())
        &&& if count_where(rows, scope, every()) == 0 {
            self.compliance_rate.is(0, 1)
        } else {
            self.compliance_rate.is(
                100 * count_where(rows, scope, met()),
                count_where(rows, scope, every()),
            )
        }
        &&& is_ratio(
            self.avg_first_response_minutes,
            sum_where(rows, scope, responded(), response_secs()),
            60 * count_where(rows, scope, responded()),
        )
        &&& is_ratio(
            self.avg_resolution_hours,
            sum_where(rows, scope, resolved(), resolution_secs()),
            HOUR * count_where(rows, scope, resolved()),
        )
    }
}

/// Service-level figures of the live tickets of `product` created within
/// `[start, end]`; the compliance rate is zero where there are none.
pub fn sla_metrics(rows: &Vec<SupportTicket>, product: &str, start: i64, end: i64) -> (r:
    CrmCoreSlaMetrics)
    requires
        rows_ok(rows@),
    ensures
        r.describes(rows@, product@, start, end),
{
    let a = tally(rows, product, start, end, None, 0);
    CrmCoreSlaMetrics {
        total_tickets: a.total,
        tickets_meeting_sla: a.met,
        tickets_breaching_sla: a.breached,
        compliance_rate: if a.total == 0 {
            Fraction { numerator: 0, denominator: 1 }
        } else {
            Fraction { numerator: 100 * a.met as i128, denominator: a.total as i128 }
        },
        avg_first_response_minutes: ratio(a.response_sum, 60 * a.responded as i128),
        avg_resolution_hours: ratio(a.resolution_sum, HOUR as i128 * a.resolved as i128),
    }
}


pub open spec fn has_status(st: TicketStatus) -> spec_fn(SupportTicket) -> bool {
    |t: SupportTicket| t.status == st
}

pub open spec fn has_priority(p: TicketPriority) -> spec_fn(SupportTicket) -> bool {
    |t: SupportTicket| t.priority == p
}

/// Number of live tickets of `product` created within `[start, end]` with the
/// given status, or else with the given priority.
fn count_in_period(
    rows: &Vec<SupportTicket>,
    product: &String,
    start: i64,
    end: i64,
    status: Option<TicketStatus>,
    priority: Option<TicketPriority>,
) -> (r: i64)
    requires
        rows_ok(rows@),
        status is None || priority is None,
    ensures
        status matches Some(st) ==> r == count_where(
            rows@,
            in_period(product@, start, end),
            has_status(st),
        ),
        priority matches Some(p) ==> r == count_where(
            rows@,
            in_period(product@, start, end),
            has_priority(p),
        ),
        r >= 0,
{
    let ghost scope = in_period(product@, start, end);
    let mut n: i64 = 0;
    let mut i: usize = 0;
    while i < rows.len()
        invariant
            i <= rows.len() <= i64::MAX,
            scope == in_period(product@, start, end),
            0 <= n <= i,
            status is None || priority is None,
            status matches Some(st) ==> n == count_where(
                rows@.take(i as int),
                scope,
                has_status(st),
            ),
            priority matches Some(p) ==> n == count_where(
                rows@.take(i as int),
                scope,
                has_priority(p),
            ),
        decreases rows.len() - i,
    {
        let t = &rows[i];
        assert(rows@.take(i as int + 1).drop_last() =~= rows@.take(i as int));
        assert(rows@.take(i as int + 1).last() == rows@[i as int]);
        let in_scope = t.product == *product && t.deleted_at.is_none() && start <= t.created_at
            && t.created_at <= end;
        let hit = match status {
            Some(st) => t.status == st,
            None => match priority {
                Some(p) => t.priority == p,
                None => false,
            },
        };
        if in_scope && hit {
            n = n + 1;
        }
        i = i + 1;
    }
    assert(rows@.take(i as int) =~= rows@);
    n
}

pub struct CrmCoreTicketPriorityCount {
    pub priority: String,
    pub count: i64,
}

/// The row for a priority where it has tickets, none where it has not.
pub open spec fn keep(p: TicketPriority, c: int) -> Seq<(TicketPriority, int)> {
    if c > 0 {
        seq![(p, c)]
    } else {
        Seq::empty()
    }
}

/// Priorities with tickets in the period and their counts, most severe first.
pub open spec fn priority_table(rows: Seq<SupportTicket>, product: Seq<char>, start: i64, end: i64) -> Seq<
    (TicketPriority, int),
> {
    let scope = in_period(product, start, end);
    keep(TicketPriority::Urgent, count_where(rows, scope, has_priority(TicketPriority::Urgent)))
        + keep(TicketPriority::High, count_where(rows, scope, has_priority(TicketPriority::High)))
        + keep(
        TicketPriority::Medium,
        count_where(rows, scope, has_priority(TicketPriority::Medium)),
    ) + keep(TicketPriority::Low, count_where(rows, scope, has_priority(TicketPriority::Low)))
}

pub open spec fn priority_rows_are(r: Seq<CrmCoreTicketPriorityCount>, table: Seq<(TicketPriority, int)>) -> bool {
    &&& r.len() == table.len()
    &&& forall|k: int|
        0 <= k < r.len() ==> (#[trigger] r[k]).priority@ == table[k].0.code_spec() && r[k].count
            == table[k].1
}

fn push_priority(out: &mut Vec<CrmCoreTicketPriorityCount>, p: TicketPriority, c: i64)
    ensures
        final(out)@.len() == old(out)@.len() + keep(p, c as int).len(),
        forall|k: int| 0 <= k < old(out)@.len() ==> final(out)@[k] == old(out)@[k],
        c > 0 ==> final(out)@.last().priority@ == p.code_spec() && final(out)@.last().count == c,
{
    if c > 0 {
        out.push(CrmCoreTicketPriorityCount { priority: p.code(), count: c });
    }
}

/// Ticket counts per priority in the period, most severe first, leaving out
/// priorities without tickets.
pub fn priority_counts(rows: &Vec<SupportTicket>, product: &str, start: i64, end: i64) -> (r: Vec<
    CrmCoreTicketPriorityCount,
>)
    requires
        rows_ok(rows@),
    ensures
        priority_rows_are(r@, priority_table(rows@, product@, start, end)),
{
    let name = product.to_owned();
    let cu = count_in_period(rows, &name, start, end, None, Some(TicketPriority::Urgent));
    let ch = count_in_period(rows, &name, start, end, None, Some(TicketPriority::High));
    let cm = count_in_period(rows, &name, start, end, None, Some(TicketPriority::Medium));
    let cl = count_in_period(rows, &name, start, end, None, Some(TicketPriority::Low));
    let mut out: Vec<CrmCoreTicketPriorityCount> = Vec::new();
    push_priority(&mut out, TicketPriority::Urgent, cu);
    let ghost o1 = out@;
    push_priority(&mut out, TicketPriority::High, ch);
    let ghost o2 = out@;
    push_priority(&mut out, TicketPriority::Medium, cm);
    let ghost o3 = out@;
    push_priority(&mut out, TicketPriority::Low, cl);
    proof {
        let t = priority_table(rows@, product@, start, end);
        let t1 = keep(TicketPriority::Urgent, cu as int);
        let t2 = t1 + keep(TicketPriority::High, ch as int);
        let t3 = t2 + keep(TicketPriority::Medium, cm as int);
        assert(t == t3 + keep(TicketPriority::Low, cl as int));
        assert(priority_rows_are(o1, t1));
        assert(priority_rows_are(o2, t2));
        assert(priority_rows_are(o3, t3));
    }
    out
}

/// Priority rows come in order of severity whatever their counts, and only
/// priorities with tickets have one.
pub proof fn lemma_priority_order(rows: Seq<SupportTicket>, product: Seq<char>, start: i64, end: i64)
    ensures
        forall|i: int, j: int|
            0 <= i < j < priority_table(rows, product, start, end).len() ==> (
            #[trigger] priority_table(rows, product, start, end)[i]).0.rank_spec() < (
            #[trigger] priority_table(rows, product, start, end)[j]).0.rank_spec(),
        forall|k: int|
            0 <= k < priority_table(rows, product, start, end).len() ==> (
            #[trigger] priority_table(rows, product, start, end)[k]).1 > 0,
{
}


pub struct CrmCoreTicketStatusCount {
    pub status: String,
    pub count: i64,
}

pub open spec fn status_seq() -> Seq<TicketStatus> {
    seq![
        TicketStatus::New,
        TicketStatus::InProgress,
        TicketStatus::WaitingOnCustomer,
        TicketStatus::Resolved,
        TicketStatus::Closed,
    ]
}

pub open spec fn status_total(
    rows: Seq<SupportTicket>,
    product: Seq<char>,
    start: i64,
    end: i64,
    st: TicketStatus,
) -> int {
    count_where(rows, in_period(product, start, end), has_status(st))
}

/// The row holds the code of some status and that status's count, which is positive.
pub open spec fn row_fits(
    row: CrmCoreTicketStatusCount,
    rows: Seq<SupportTicket>,
    product: Seq<char>,
    start: i64,
    end: i64,
) -> bool {
    exists|st: TicketStatus|
        row.status@ == st.code_spec() && row.count == status_total(rows, product, start, end, st)
            && row.count > 0
}

/// The row list holds the status.
pub open spec fn lists_status(r: Seq<CrmCoreTicketStatusCount>, st: TicketStatus) -> bool {
    exists|k: int| 0 <= k < r.len() && r[k].status@ == st.code_spec()
}

/// One row per status with tickets in the period, holding its count, in
/// order of count, largest first.
pub open spec fn status_rows_are(
    r: Seq<CrmCoreTicketStatusCount>,
    rows: Seq<SupportTicket>,
    product: Seq<char>,
    start: i64,
    end: i64,
) -> bool {
    &&& forall|k: int| 0 <= k < r.len() ==> row_fits(#[trigger] r[k], rows, product, start, end)
    &&& forall|st: TicketStatus|
        #[trigger] status_total(rows, product, start, end, st) > 0 ==> lists_status(r, st)
    &&& forall|k: int, l: int|
        0 <= k < l < r.len() ==> (#[trigger] r[k]).status@ != (#[trigger] r[l]).status@ && r[k].count
            >= r[l].count
}

pub proof fn lemma_status_codes_distinct(a: TicketStatus, b: TicketStatus)
    requires
        a != b,
    ensures
        a.code_spec() != b.code_spec(),
{
    reveal_strlit("NEW");
    reveal_strlit("IN_PROGRESS");
    reveal_strlit("WAITING_ON_CUSTOMER");
    reveal_strlit("RESOLVED");
    reveal_strlit("CLOSED");
    assert("NEW"@.len() == 3);
    assert("IN_PROGRESS"@.len() == 11);
    assert("WAITING_ON_CUSTOMER"@.len() == 19);
    assert("RESOLVED"@.len() == 8);
    assert("CLOSED"@.len() == 6);
}

/// Number of `true` entries.
pub open spec fn count_true(s: Seq<bool>) -> int
    decreases s.len(),
{
    if s.len() == 0 {
        0
    } else {
        count_true(s.drop_last()) + if s.last() {
            1int
        } else {
            0int
        }
    }
}

proof fn lemma_count_true(s: Seq<bool>)
    ensures
        0 <= count_true(s) <= s.len(),
        (exists|m: int| 0 <= m < s.len() && !s[m]) ==> count_true(s) < s.len(),
    decreases s.len(),
{
    if s.len() > 0 {
        lemma_count_true(s.drop_last());
        if exists|m: int| 0 <= m < s.len() && !s[m] {
            let m = choose|m: int| 0 <= m < s.len() && !s[m];
            if m < s.len() - 1 {
                assert(!s.drop_last()[m]);
            }
        }
    }
}

proof fn lemma_count_true_set(s: Seq<bool>, i: int)
    requires
        0 <= i < s.len(),
        !s[i],
    ensures
        count_true(s.update(i, true)) == count_true(s) + 1,
    decreases s.len(),
{
    if i < s.len() - 1 {
        assert(s.update(i, true).drop_last() =~= s.drop_last().update(i, true));
        lemma_count_true_set(s.drop_last(), i);
    } else {
        assert(s.update(i, true).drop_last() =~= s.drop_last());
    }
}

/// Indices of the `cap` largest keys (all of them where there are fewer),
/// largest first.
fn order_desc(keys: &Vec<i64>, cap: usize) -> (idx: Vec<usize>)
    ensures
        idx@.len() <= cap,
        forall|k: int| 0 <= k < idx@.len() ==> #[trigger] idx@[k] < keys@.len(),
        forall|k: int, l: int| 0 <= k < l < idx@.len() ==> #[trigger] idx@[k] != #[trigger] idx@[l],
        forall|k: int, l: int|
            0 <= k < l < idx@.len() ==> keys@[#[trigger] idx@[k] as int] >= keys@[#[trigger] idx@[l] as int],
        forall|m: usize|
            m < keys@.len() && !idx@.contains(m) ==> idx@.len() == cap && cap < keys@.len() && forall|k: int|
                0 <= k < idx@.len() ==> keys@[#[trigger] idx@[k] as int] >= keys@[m as int],
{
    let n = keys.len();
    let mut taken: Vec<bool> = Vec::new();
    let mut i: usize = 0;
    while i < n
        invariant
            i <= n == keys@.len(),
            taken@.len() == i,
            count_true(taken@) == 0,
            forall|k: int| 0 <= k < i ==> !taken@[k],
        decreases n - i,
    {
        let ghost before = taken@;
        taken.push(false);
        assert(taken@.drop_last() =~= before);
        i = i + 1;
    }
    let mut idx: Vec<usize> = Vec::new();
    let mut round: usize = 0;
    while round < cap
        invariant
            round <= cap,
            n == keys@.len() == taken@.len(),
            idx@.len() <= round,
            count_true(taken@) == idx@.len(),
            forall|k: int| 0 <= k < idx@.len() ==> #[trigger] idx@[k] < n && taken@[idx@[k] as int],
            forall|m: int| 0 <= m < n && #[trigger] taken@[m] ==> idx@.contains(m as usize),
            forall|k: int, l: int| 0 <= k < l < idx@.len() ==> #[trigger] idx@[k] != #[trigger] idx@[l],
            forall|k: int, l: int|
                0 <= k < l < idx@.len() ==> keys@[#[trigger] idx@[k] as int] >= keys@[#[trigger] idx@[l] as int],
            forall|k: int, m: int|
                0 <= k < idx@.len() && 0 <= m < n && !taken@[m] ==> keys@[#[trigger] idx@[k] as int]
                    >= #[trigger] keys@[m],
            idx@.len() < round ==> forall|m: int| 0 <= m < n ==> #[trigger] taken@[m],
            idx@.len() == round || idx@.len() < round,
        decreases cap - round,
    {
        let mut best: usize = n;
        let mut j: usize = 0;
        while j < n
            invariant
                j <= n == keys@.len() == taken@.len(),
                best == n || (best < j && !taken@[best as int]),
                forall|m: int| 0 <= m < j && !#[trigger] taken@[m] ==> best < n,
                forall|m: int|
                    0 <= m < j && !taken@[m] ==> #[trigger] keys@[m] <= keys@[best as int],
            decreases n - j,
        {
            if !taken[j] && (best == n || keys[j] > keys[best]) {
                best = j;
            }
            assert(!taken@[j as int] ==> best < n && keys@[j as int] <= keys@[best as int]);
            j = j + 1;
        }
        if best < n {
            let ghost old_idx = idx@;
            let ghost old_taken = taken@;
            proof {
                lemma_count_true_set(old_taken, best as int);
            }
            idx.push(best);
            taken.set(best, true);
            assert forall|m: int| 0 <= m < n && #[trigger] taken@[m] implies idx@.contains(m as usize) by {
                if m == best as int {
                    assert(idx@[idx@.len() - 1] == m as usize);
                } else {
                    assert(old_taken[m]);
                    let k = choose|k: int| 0 <= k < old_idx.len() && old_idx[k] == m as usize;
                    assert(idx@[k] == m as usize);
                }
            }
            assert forall|k: int, l: int| 0 <= k < l < idx@.len() implies #[trigger] idx@[k]
                != #[trigger] idx@[l] by {
                if l == idx@.len() - 1 {
                    assert(old_taken[idx@[k] as int]);
                }
            }
        } else {
            assert forall|m: int| 0 <= m < n implies #[trigger] taken@[m] by {}
        }
        round = round + 1;
    }
    proof {
        lemma_count_true(taken@);
        assert forall|m: usize| m < keys@.len() && !idx@.contains(m) implies idx@.len() == cap
            && cap < keys@.len() && forall|k: int|
            0 <= k < idx@.len() ==> keys@[#[trigger] idx@[k] as int] >= keys@[m as int] by {
            assert(!taken@[m as int]);
        }
    }
    idx
}

proof fn lemma_status_rows(
    r: Seq<CrmCoreTicketStatusCount>,
    idx: Seq<usize>,
    counts: Seq<i64>,
    rows: Seq<SupportTicket>,
    product: Seq<char>,
    start: i64,
    end: i64,
)
    requires
        counts.len() == 5,
        forall|k: int|
            0 <= k < 5 ==> counts[k] == status_total(rows, product, start, end, status_seq()[k]),
        forall|k: int| 0 <= k < idx.len() ==> #[trigger] idx[k] < 5 && counts[idx[k] as int] > 0,
        forall|m: int| 0 <= m < 5 && #[trigger] counts[m] > 0 ==> exists|k: int| 0 <= k < idx.len() && idx[k] == m,
        forall|k: int, l: int| 0 <= k < l < idx.len() ==> #[trigger] idx[k] != #[trigger] idx[l],
        forall|k: int, l: int|
            0 <= k < l < idx.len() ==> counts[#[trigger] idx[k] as int] >= counts[#[trigger] idx[l] as int],
        r.len() == idx.len(),
        forall|q: int|
            0 <= q < r.len() ==> (#[trigger] r[q]).status@ == status_seq()[idx[q] as int].code_spec()
                && r[q].count == counts[idx[q] as int],
    ensures
        status_rows_are(r, rows, product, start, end),
{
    assert forall|st: TicketStatus|
        #[trigger] status_total(rows, product, start, end, st) > 0 implies lists_status(r, st) by {
        let m: int = if st == TicketStatus::New {
            0
        } else if st == TicketStatus::InProgress {
            1
        } else if st == TicketStatus::WaitingOnCustomer {
            2
        } else if st == TicketStatus::Resolved {
            3
        } else {
            4
        };
        assert(status_seq()[m] == st);
        assert(counts[m] > 0);
        let q = choose|q: int| 0 <= q < idx.len() && idx[q] == m;
        assert(r[q].status@ == st.code_spec());
    }
    assert forall|q: int| 0 <= q < r.len() implies row_fits(#[trigger] r[q], rows, product, start, end) by {
        let st = status_seq()[idx[q] as int];
        assert(idx[q] < 5 && counts[idx[q] as int] > 0);
        assert(r[q].status@ == st.code_spec());
        assert(r[q].count == status_total(rows, product, start, end, st));
    }
    assert forall|q: int, l: int| 0 <= q < l < r.len() implies (#[trigger] r[q]).status@ != (
    #[trigger] r[l]).status@ && r[q].count >= r[l].count by {
        assert(idx[q] != idx[l]);
        assert(counts[idx[q] as int] >= counts[idx[l] as int]);
        lemma_status_codes_distinct(status_seq()[idx[q] as int], status_seq()[idx[l] as int]);
    }
}

/// Ticket counts per status in the period, largest first, leaving out
/// statuses without tickets.
pub fn status_counts(rows: &Vec<SupportTicket>, product: &str, start: i64, end: i64) -> (r: Vec<
    CrmCoreTicketStatusCount,
>)
    requires
        rows_ok(rows@),
    ensures
        status_rows_are(r@, rows@, product@, start, end),
{
    let name = product.to_owned();
    let statuses: Vec<TicketStatus> = vec![
        TicketStatus::New,
        TicketStatus::InProgress,
        TicketStatus::WaitingOnCustomer,
        TicketStatus::Resolved,
        TicketStatus::Closed,
    ];
    assert(statuses@ =~= status_seq());
    let mut counts: Vec<i64> = Vec::new();
    let mut i: usize = 0;
    while i < 5
        invariant
            i <= 5,
            rows_ok(rows@),
            statuses@ == status_seq(),
            name@ == product@,
            counts@.len() == i,
            forall|k: int|
                0 <= k < i ==> counts@[k] == status_total(rows@, product@, start, end, status_seq()[k]),
        decreases 5 - i,
    {
        let c = count_in_period(rows, &name, start, end, Some(statuses[i]), None);
        counts.push(c);
        i = i + 1;
    }
    let idx = order_desc(&counts, 5);
    proof {
        assert forall|m: usize| m < 5 implies #[trigger] idx@.contains(m) by {}
    }
    let mut out: Vec<CrmCoreTicketStatusCount> = Vec::new();
    let mut k: usize = 0;
    while k < idx.len() && counts[idx[k]] > 0
        invariant
            k <= idx@.len(),
            forall|q: int| 0 <= q < k ==> counts@[#[trigger] idx@[q] as int] > 0,
            forall|m: usize| m < 5 ==> #[trigger] idx@.contains(m),
            forall|q: int, l: int|
                0 <= q < l < idx@.len() ==> counts@[#[trigger] idx@[q] as int] >= counts@[#[trigger] idx@[l] as int],
            forall|q: int, l: int| 0 <= q < l < idx@.len() ==> #[trigger] idx@[q] != #[trigger] idx@[l],
            statuses@ == status_seq(),
            counts@.len() == 5,
            out@.len() == k,
            forall|q: int| 0 <= q < idx@.len() ==> #[trigger] idx@[q] < 5,
            forall|q: int|
                0 <= q < k ==> (#[trigger] out@[q]).status@ == status_seq()[idx@[q] as int].code_spec()
                    && out@[q].count == counts@[idx@[q] as int],
        decreases idx@.len() - k,
    {
        let m = idx[k];
        out.push(CrmCoreTicketStatusCount { status: statuses[m].code(), count: counts[m] });
        k = k + 1;
    }
    proof {
        let head = idx@.take(k as int);
        assert forall|m: int| 0 <= m < 5 && #[trigger] counts@[m] > 0 implies exists|q: int|
            0 <= q < head.len() && head[q] == m by {
            assert(idx@.contains(m as usize));
            let q = choose|q: int| 0 <= q < idx@.len() && idx@[q] == m as usize;
            if q >= k {
                assert(counts@[idx@[k as int] as int] >= counts@[idx@[q] as int]);
            }
            assert(head[q] == m);
        }
        lemma_status_rows(out@, head, counts@, rows@, product@, start, end);
    }
    out
}


/// Number of whole days that `DAY_SHIFT` spans.
pub const SHIFT_DAYS: i64 = 50903317;

/// A whole number of days no smaller than `TIME_LIMIT`.
pub const DAY_SHIFT: i64 = 4398046588800;

/// The day (counted from the epoch, rounding down) that a time falls on.
pub open spec fn day_of(t: i64) -> int {
    (t as int) / (DAY as int)
}

/// The calendar day of a time.
pub fn day_number(t: i64) -> (r: i64)
    requires
        time_ok(t),
    ensures
        r == day_of(t),
        -SHIFT_DAYS <= r <= SHIFT_DAYS,
{
    proof {
        assert(DAY_SHIFT == SHIFT_DAYS * DAY);
        vstd::arithmetic::div_mod::lemma_hoist_over_denominator(t as int, SHIFT_DAYS as int, DAY as nat);
        vstd::arithmetic::div_mod::lemma_div_is_ordered(0, t as int + DAY_SHIFT, DAY as int);
        vstd::arithmetic::div_mod::lemma_div_is_ordered(t as int + DAY_SHIFT, 2 * DAY_SHIFT, DAY as int);
        vstd::arithmetic::div_mod::lemma_div_multiples_vanish(2 * SHIFT_DAYS, DAY as int);
    }
    let shifted = (t + DAY_SHIFT) as u64;
    (shifted / (DAY as u64)) as i64 - SHIFT_DAYS
}

pub uninterp spec fn calendar_date_of(secs: i64) -> Seq<char>;

/// Relies on chrono: `DateTime::from_timestamp` turns a Unix time into a UTC
/// date and time (it has one for every time in the range required here), and
/// the `Display` of its `NaiveDate` writes the calendar day, as YYYY-MM-DD for
/// the years 0 to 9999; the text depends on `secs` alone.
#[verifier::external_body]
fn calendar_date(secs: i64) -> (r: String)
    requires
        -DAY_SHIFT - 7 * DAY <= secs <= DAY_SHIFT,
    ensures
        r@ == calendar_date_of(secs),
        0 <= secs < 253402300800 ==> r@.len() == 10 && r@[4] == '-' && r@[7] == '-',
{
    match chrono::DateTime::from_timestamp(secs, 0) {
        Some(t) => t.date_naive().to_string(),
        None => String::new(),
    }
}

/// Live tickets of the product, whenever created.
pub open spec fn of_product(product: Seq<char>) -> spec_fn(SupportTicket) -> bool {
    |t: SupportTicket| t.product@ == product && t.is_live()
}

pub open spec fn created_on(d: int) -> spec_fn(SupportTicket) -> bool {
    |t: SupportTicket| day_of(t.created_at) == d
}

pub open spec fn resolved_on(d: int) -> spec_fn(SupportTicket) -> bool {
    |t: SupportTicket| t.resolved_at matches Some(r) && day_of(r) == d
}

/// Not resolved or closed, and created on or before day `d`.
pub open spec fn open_by(d: int) -> spec_fn(SupportTicket) -> bool {
    |t: SupportTicket| !t.status.is_done() && day_of(t.created_at) <= d
}

pub struct CrmCoreTicketTrend {
    pub date: String,
    pub new_tickets: i64,
    pub resolved_tickets: i64,
    pub active_tickets: i64,
}

impl CrmCoreTicketTrend {
    /// The figures of the product's live tickets for day `d`.
    pub open spec fn describes(self, rows: Seq<SupportTicket>, product: Seq<char>, d: int) -> bool {
        &&& self.date@ == calendar_date_of((d * DAY) as i64)
        &&& self.new_tickets == count_where(rows, of_product(product), created_on(d))
        &&& self.resolved_tickets == count_where(rows, of_product(product), resolved_on(d))
        &&& self.active_tickets == count_where(rows, of_product(product), open_by(d))
    }
}

/// Counts of one day over the product's live tickets.
fn day_trend(rows: &Vec<SupportTicket>, product: &String, d: i64) -> (r: CrmCoreTicketTrend)
    requires
        rows_ok(rows@),
        -SHIFT_DAYS - 7 <= d <= SHIFT_DAYS,
    ensures
        r.describes(rows@, product@, d as int),
{
    let ghost scope = of_product(product@);
    let mut created: i64 = 0;
    let mut closed: i64 = 0;
    let mut open: i64 = 0;
    let mut i: usize = 0;
    while i < rows.len()
        invariant
            i <= rows.len() <= i64::MAX,
            rows_ok(rows@),
            scope == of_product(product@),
            0 <= created <= i,
            0 <= closed <= i,
            0 <= open <= i,
            created == count_where(rows@.take(i as int), scope, created_on(d as int)),
            closed == count_where(rows@.take(i as int), scope, resolved_on(d as int)),
            open == count_where(rows@.take(i as int), scope, open_by(d as int)),
        decreases rows.len() - i,
    {
        let t = &rows[i];
        assert(rows@.take(i as int + 1).drop_last() =~= rows@.take(i as int));
        assert(rows@.take(i as int + 1).last() == rows@[i as int]);
        assert(t.wf());
        if t.product == *product && t.deleted_at.is_none() {
            let c = day_number(t.created_at);
            if c == d {
                created = created + 1;
            }
            match t.resolved_at {
                Some(r) => {
                    if day_number(r) == d {
                        closed = closed + 1;
                    }
                },
                None => {},
            }
            if !t.status.done() && c <= d {
                open = open + 1;
            }
        }
        i = i + 1;
    }
    assert(rows@.take(i as int) =~= rows@);
    CrmCoreTicketTrend {
        date: calendar_date(d * DAY),
        new_tickets: created,
        resolved_tickets: closed,
        active_tickets: open,
    }
}

/// One row for each of the seven calendar days ending on the day of
/// `period_end`, latest first, over the product's live tickets.
pub fn ticket_trends(rows: &Vec<SupportTicket>, product: &str, period_end: i64) -> (r: Vec<
    CrmCoreTicketTrend,
>)
    requires
        rows_ok(rows@),
        time_ok(period_end),
    ensures
        r@.len() == 7,
        forall|k: int|
            0 <= k < 7 ==> (#[trigger] r@[k]).describes(rows@, product@, day_of(period_end) - k),
{
    let name = product.to_owned();
    let last = day_number(period_end);
    let mut out: Vec<CrmCoreTicketTrend> = Vec::new();
    let mut k: i64 = 0;
    while k < 7
        invariant
            0 <= k <= 7,
            rows_ok(rows@),
            name@ == product@,
            last == day_of(period_end),
            -SHIFT_DAYS <= last <= SHIFT_DAYS,
            out@.len() == k,
            forall|q: int|
                0 <= q < k ==> (#[trigger] out@[q]).describes(rows@, product@, day_of(period_end) - q),
        decreases 7 - k,
    {
        out.push(day_trend(rows, &name, last - k));
        k = k + 1;
    }
    out
}


/// Values of `f` over the rows for which both `scope` and `p` hold, in row order.
pub open spec fn durations(
    s: Seq<SupportTicket>,
    scope: spec_fn(SupportTicket) -> bool,
    p: spec_fn(SupportTicket) -> bool,
    f: spec_fn(SupportTicket) -> int,
) -> Seq<int>
    decreases s.len(),
{
    if s.len() == 0 {
        Seq::empty()
    } else {
        let r = durations(s.drop_last(), scope, p, f);
        if scope(s.last()) && p(s.last()) {
            r.push(f(s.last()))
        } else {
            r
        }
    }
}

pub open spec fn ascending(t: Seq<int>) -> bool {
    forall|i: int, j: int| 0 <= i <= j < t.len() ==> t[i] <= t[j]
}

pub open spec fn ints(v: Seq<i64>) -> Seq<int> {
    v.map_values(|x: i64| x as int)
}

/// `r` is the middle of the sorted `t` in units of `unit`: the middle value,
/// or the mean of the two middle values.
pub open spec fn is_middle(r: Fraction, t: Seq<int>, unit: int) -> bool {
    if t.len() % 2 == 1 {
        r.is(t[(t.len() / 2) as int], unit)
    } else {
        r.is(t[t.len() / 2 - 1] + t[(t.len() / 2) as int], 2 * unit)
    }
}

/// `r` is the interpolated median of `vals` in units of `unit`, or nothing
/// where there are no values.
pub open spec fn is_median(r: Option<Fraction>, vals: Seq<int>, unit: int) -> bool {
    if vals.len() == 0 {
        r is None
    } else {
        exists|t: Seq<int>|
            ascending(t) && t.to_multiset() == vals.to_multiset() && (r matches Some(f)
                && is_middle(f, t, unit))
    }
}

/// The response (or, with `resolution`, resolution) times in seconds of the
/// live tickets of `product` created within `[start, end]`, in ascending order.
fn sorted_spans(rows: &Vec<SupportTicket>, product: &String, start: i64, end: i64, resolution: bool) -> (v:
    Vec<i64>)
    requires
        rows_ok(rows@),
    ensures
        ascending(ints(v@)),
        !resolution ==> ints(v@).to_multiset() == durations(
            rows@,
            in_period(product@, start, end),
            responded(),
            response_secs(),
        ).to_multiset(),
        resolution ==> ints(v@).to_multiset() == durations(
            rows@,
            in_period(product@, start, end),
            resolved(),
            resolution_secs(),
        ).to_multiset(),
        forall|k: int| 0 <= k < v@.len() ==> -2 * TIME_LIMIT <= #[trigger] v@[k] <= 2 * TIME_LIMIT,
{
    let ghost scope = in_period(product@, start, end);
    let ghost p = if resolution { resolved() } else { responded() };
    let ghost f = if resolution { resolution_secs() } else { response_secs() };
    let mut v: Vec<i64> = Vec::new();
    let mut i: usize = 0;
    assert(ints(v@) =~= durations(rows@.take(0), scope, p, f));
    while i < rows.len()
        invariant
            i <= rows.len(),
            rows_ok(rows@),
            scope == in_period(product@, start, end),
            p == (if resolution { resolved() } else { responded() }),
            f == (if resolution { resolution_secs() } else { response_secs() }),
            ascending(ints(v@)),
            ints(v@).to_multiset() == durations(rows@.take(i as int), scope, p, f).to_multiset(),
            forall|k: int| 0 <= k < v@.len() ==> -2 * TIME_LIMIT <= #[trigger] v@[k] <= 2 * TIME_LIMIT,
        decreases rows.len() - i,
    {
        let t = &rows[i];
        assert(rows@.take(i as int + 1).drop_last() =~= rows@.take(i as int));
        assert(rows@.take(i as int + 1).last() == rows@[i as int]);
        assert(t.wf());
        let mut x: Option<i64> = None;
        if t.product == *product && t.deleted_at.is_none() && start <= t.created_at && t.created_at
            <= end {
            let stamp = if resolution {
                t.resolved_at
            } else {
                t.first_response_at
            };
            match stamp {
                Some(at) => {
                    x = Some(at - t.created_at);
                },
                None => {},
            }
        }
        match x {
            Some(d) => {
                let mut q: usize = 0;
                while q < v.len() && v[q] <= d
                    invariant
                        q <= v@.len(),
                        forall|k: int| 0 <= k < q ==> v@[k] <= d,
                    decreases v@.len() - q,
                {
                    q = q + 1;
                }
                let ghost before = ints(v@);
                proof {
                    assert forall|k: int| 0 <= k < q implies before[k] <= d by {
                        assert(before[k] == v@[k] as int);
                    }
                    assert forall|k: int| q <= k < before.len() implies before[k] > d by {
                        assert(before[q as int] <= before[k]);
                        assert(before[q as int] == v@[q as int] as int);
                    }
                }
                v.insert(q, d);
                proof {
                    let after = ints(v@);
                    assert(after =~= before.insert(q as int, d as int));
                    vstd::seq_lib::to_multiset_insert(before, q as int, d as int);
                    vstd::seq_lib::to_multiset_build(
                        durations(rows@.take(i as int), scope, p, f),
                        d as int,
                    );
                    assert forall|a: int, b: int| 0 <= a <= b < after.len() implies after[a]
                        <= after[b] by {
                        assert(after[a] == (if a < q {
                            before[a]
                        } else if a == q {
                            d as int
                        } else {
                            before[a - 1]
                        }));
                        assert(after[b] == (if b < q {
                            before[b]
                        } else if b == q {
                            d as int
                        } else {
                            before[b - 1]
                        }));
                    }
                }
            },
            None => {},
        }
        i = i + 1;
    }
    assert(rows@.take(i as int) =~= rows@);
    v
}

/// The interpolated median of ascending values, in units of `unit`.
fn median(v: &Vec<i64>, unit: i128) -> (r: Option<Fraction>)
    requires
        ascending(ints(v@)),
        forall|k: int| 0 <= k < v@.len() ==> -2 * TIME_LIMIT <= #[trigger] v@[k] <= 2 * TIME_LIMIT,
        0 < unit < 0x1000_0000,
    ensures
        is_median(r, ints(v@), unit as int),
{
    let n = v.len();
    let r = if n == 0 {
        None
    } else if n % 2 == 1 {
        Some(Fraction { numerator: v[n / 2] as i128, denominator: unit })
    } else {
        Some(Fraction { numerator: v[n / 2 - 1] as i128 + v[n / 2] as i128, denominator: 2 * unit })
    };
    proof {
        let w = ints(v@);
        if n > 0 {
            assert(ascending(w) && w.to_multiset() == w.to_multiset() && is_middle(r->0, w, unit as int));
        }
    }
    r
}


pub struct CrmCoreResponseMetrics {
    pub avg_first_response_minutes: Option<Fraction>,
    pub median_first_response_minutes: Option<Fraction>,
    pub avg_response_minutes: Option<Fraction>,
    pub median_response_minutes: Option<Fraction>,
    pub avg_resolution_hours: Option<Fraction>,
    pub median_resolution_hours: Option<Fraction>,
}

impl CrmCoreResponseMetrics {
    pub open spec fn describes(self, rows: Seq<SupportTicket>, product: Seq<char>, start: i64, end: i64) -> bool {
        let scope = in_period(product, start, end);
        let responses = durations(rows, scope, responded(), response_secs());
        let resolutions = durations(rows, scope, resolved(), resolution_secs());
        &&& is_ratio(
            self.avg_first_response_minutes,
            sum_where(rows, scope, responded(), response_secs()),
            60 * count_where(rows, scope, responded()),
        )
        &&& is_median(self.median_first_response_minutes, responses, 60)
        &&& self.avg_response_minutes == self.avg_first_response_minutes
        &&& self.median_response_minutes == self.median_first_response_minutes
        &&& is_ratio(
            self.avg_resolution_hours,
            sum_where(rows, scope, resolved(), resolution_secs()),
            HOUR * count_where(rows, scope, resolved()),
        )
        &&& is_median(self.median_resolution_hours, resolutions, HOUR as int)
    }
}

/// Means and medians of response times (minutes) and resolution times
/// (hours) of the live tickets of `product` created within `[start, end]`.
pub fn response_metrics(rows: &Vec<SupportTicket>, product: &str, start: i64, end: i64) -> (r:
    CrmCoreResponseMetrics)
    requires
        rows_ok(rows@),
    ensures
        r.describes(rows@, product@, start, end),
{
    let name = product.to_owned();
    let a = tally(rows, product, start, end, None, 0);
    let responses = sorted_spans(rows, &name, start, end, false);
    let resolutions = sorted_spans(rows, &name, start, end, true);
    let mid_response = median(&responses, 60);
    let mid_resolution = median(&resolutions, HOUR as i128);
    proof {
        let scope = in_period(product@, start, end);
        let w = durations(rows@, scope, responded(), response_secs());
        let x = durations(rows@, scope, resolved(), resolution_secs());
        w.to_multiset_ensures();
        ints(responses@).to_multiset_ensures();
        x.to_multiset_ensures();
        ints(resolutions@).to_multiset_ensures();
        assert(w.len() == ints(responses@).len());
        assert(x.len() == ints(resolutions@).len());
    }
    let avg_response = ratio(a.response_sum, 60 * a.responded as i128);
    CrmCoreResponseMetrics {
        avg_first_response_minutes: avg_response,
        median_first_response_minutes: mid_response,
        avg_response_minutes: avg_response,
        median_response_minutes: mid_response,
        avg_resolution_hours: ratio(a.resolution_sum, HOUR as i128 * a.resolved as i128),
        median_resolution_hours: mid_resolution,
    }
}

/// No more rows satisfy `scope` and `p` than satisfy `scope` alone.
pub proof fn lemma_count_within(
    s: Seq<SupportTicket>,
    scope: spec_fn(SupportTicket) -> bool,
    p: spec_fn(SupportTicket) -> bool,
)
    ensures
        0 <= count_where(s, scope, p) <= count_where(s, scope, every()),
    decreases s.len(),
{
    if s.len() > 0 {
        lemma_count_within(s.drop_last(), scope, p);
    }
}

/// With no ticket in the period, the service-level compliance rate is zero,
/// while the overview's compliance and first-contact rates are undefined.
pub proof fn lemma_empty_period_rates(
    rows: Seq<SupportTicket>,
    product: Seq<char>,
    start: i64,
    end: i64,
    now: i64,
    overview: CrmCoreSupportOverviewMetrics,
    sla: CrmCoreSlaMetrics,
)
    requires
        overview.describes(rows, product, start, end, now),
        sla.describes(rows, product, start, end),
        count_where(rows, in_period(product, start, end), every()) == 0,
    ensures
        sla.compliance_rate.is(0, 1),
        overview.sla_compliance_rate is None,
        overview.first_contact_resolution_rate is None,
{
    lemma_count_within(rows, in_period(product, start, end), resolved());
}

/// Without live tickets of the product, each of the seven trend rows counts
/// nothing.
pub proof fn lemma_trends_without_tickets(
    rows: Seq<SupportTicket>,
    product: Seq<char>,
    period_end: i64,
    r: Seq<CrmCoreTicketTrend>,
)
    requires
        r.len() == 7,
        forall|k: int|
            0 <= k < 7 ==> (#[trigger] r[k]).describes(rows, product, day_of(period_end) - k),
        count_where(rows, of_product(product), every()) == 0,
    ensures
        forall|k: int|
            0 <= k < 7 ==> (#[trigger] r[k]).new_tickets == 0 && r[k].resolved_tickets == 0
                && r[k].active_tickets == 0,
{
    assert forall|k: int| 0 <= k < 7 implies (#[trigger] r[k]).new_tickets == 0
        && r[k].resolved_tickets == 0 && r[k].active_tickets == 0 by {
        let d = day_of(period_end) - k;
        lemma_count_within(rows, of_product(product), created_on(d));
        lemma_count_within(rows, of_product(product), resolved_on(d));
        lemma_count_within(rows, of_product(product), open_by(d));
    }
}


/// Most agents that the ranking lists.
pub const TOP_AGENTS: usize = 10;

/// The lowercase hexadecimal digit of `d` (below 16).
pub open spec fn hex_digit(d: u128) -> char {
    if d == 0 {
        '0'
    } else if d == 1 {
        '1'
    } else if d == 2 {
        '2'
    } else if d == 3 {
        '3'
    } else if d == 4 {
        '4'
    } else if d == 5 {
        '5'
    } else if d == 6 {
        '6'
    } else if d == 7 {
        '7'
    } else if d == 8 {
        '8'
    } else if d == 9 {
        '9'
    } else if d == 10 {
        'a'
    } else if d == 11 {
        'b'
    } else if d == 12 {
        'c'
    } else if d == 13 {
        'd'
    } else if d == 14 {
        'e'
    } else {
        'f'
    }
}

/// Hex digit `k` of `id`, counted from the most significant.
pub open spec fn nibble(id: u128, k: int) -> u128 {
    (id >> ((124 - 4 * k) as u128)) & 0xf
}

/// Which hex digit stands at position `i` of the hyphenated text.
pub open spec fn digit_at(i: int) -> int {
    if i < 8 {
        i
    } else if i < 13 {
        i - 1
    } else if i < 18 {
        i - 2
    } else if i < 23 {
        i - 3
    } else {
        i - 4
    }
}

/// The hyphenated lowercase form of a UUID: 32 hex digits of the value,
/// most significant first, grouped 8-4-4-4-12.
pub open spec fn uuid_text_of(id: u128) -> Seq<char> {
    Seq::new(
        36,
        |i: int|
            if i == 8 || i == 13 || i == 18 || i == 23 {
                '-'
            } else {
                hex_digit(nibble(id, digit_at(i)))
            },
    )
}

proof fn lemma_hex_digit_injective(x: u128, y: u128)
    requires
        x < 16,
        y < 16,
        hex_digit(x) == hex_digit(y),
    ensures
        x == y,
{
}

proof fn lemma_nibble_small(a: u128, s: u128)
    by (bit_vector)
    ensures
        (a >> s) & 0xf < 16,
{
}

proof fn lemma_nibbles_determine(a: u128, b: u128)
    by (bit_vector)
    requires
        (a >> 124u128) & 0xf == (b >> 124u128) & 0xf,
        (a >> 120u128) & 0xf == (b >> 120u128) & 0xf,
        (a >> 116u128) & 0xf == (b >> 116u128) & 0xf,
        (a >> 112u128) & 0xf == (b >> 112u128) & 0xf,
        (a >> 108u128) & 0xf == (b >> 108u128) & 0xf,
        (a >> 104u128) & 0xf == (b >> 104u128) & 0xf,
        (a >> 100u128) & 0xf == (b >> 100u128) & 0xf,
        (a >> 96u128) & 0xf == (b >> 96u128) & 0xf,
        (a >> 92u128) & 0xf == (b >> 92u128) & 0xf,
        (a >> 88u128) & 0xf == (b >> 88u128) & 0xf,
        (a >> 84u128) & 0xf == (b >> 84u128) & 0xf,
        (a >> 80u128) & 0xf == (b >> 80u128) & 0xf,
        (a >> 76u128) & 0xf == (b >> 76u128) & 0xf,
        (a >> 72u128) & 0xf == (b >> 72u128) & 0xf,
        (a >> 68u128) & 0xf == (b >> 68u128) & 0xf,
        (a >> 64u128) & 0xf == (b >> 64u128) & 0xf,
        (a >> 60u128) & 0xf == (b >> 60u128) & 0xf,
        (a >> 56u128) & 0xf == (b >> 56u128) & 0xf,
        (a >> 52u128) & 0xf == (b >> 52u128) & 0xf,
        (a >> 48u128) & 0xf == (b >> 48u128) & 0xf,
        (a >> 44u128) & 0xf == (b >> 44u128) & 0xf,
        (a >> 40u128) & 0xf == (b >> 40u128) & 0xf,
        (a >> 36u128) & 0xf == (b >> 36u128) & 0xf,
        (a >> 32u128) & 0xf == (b >> 32u128) & 0xf,
        (a >> 28u128) & 0xf == (b >> 28u128) & 0xf,
        (a >> 24u128) & 0xf == (b >> 24u128) & 0xf,
        (a >> 20u128) & 0xf == (b >> 20u128) & 0xf,
        (a >> 16u128) & 0xf == (b >> 16u128) & 0xf,
        (a >> 12u128) & 0xf == (b >> 12u128) & 0xf,
        (a >> 8u128) & 0xf == (b >> 8u128) & 0xf,
        (a >> 4u128) & 0xf == (b >> 4u128) & 0xf,
        (a >> 0u128) & 0xf == (b >> 0u128) & 0xf,
    ensures
        a == b,
{
}

/// Different ids have different texts.
pub proof fn lemma_uuid_text_injective(a: u128, b: u128)
    requires
        uuid_text_of(a) == uuid_text_of(b),
    ensures
        a == b,
{
    let ta = uuid_text_of(a);
    let tb = uuid_text_of(b);
    assert forall|k: int| 0 <= k < 32 implies nibble(a, k) < 16 && nibble(b, k) < 16 by {
        lemma_nibble_small(a, (124 - 4 * k) as u128);
        lemma_nibble_small(b, (124 - 4 * k) as u128);
    }
    assert(ta[0] == tb[0]);
    lemma_hex_digit_injective(nibble(a, 0), nibble(b, 0));
    assert(ta[1] == tb[1]);
    lemma_hex_digit_injective(nibble(a, 1), nibble(b, 1));
    assert(ta[2] == tb[2]);
    lemma_hex_digit_injective(nibble(a, 2), nibble(b, 2));
    assert(ta[3] == tb[3]);
    lemma_hex_digit_injective(nibble(a, 3), nibble(b, 3));
    assert(ta[4] == tb[4]);
    lemma_hex_digit_injective(nibble(a, 4), nibble(b, 4));
    assert(ta[5] == tb[5]);
    lemma_hex_digit_injective(nibble(a, 5), nibble(b, 5));
    assert(ta[6] == tb[6]);
    lemma_hex_digit_injective(nibble(a, 6), nibble(b, 6));
    assert(ta[7] == tb[7]);
    lemma_hex_digit_injective(nibble(a, 7), nibble(b, 7));
    assert(ta[9] == tb[9]);
    lemma_hex_digit_injective(nibble(a, 8), nibble(b, 8));
    assert(ta[10] == tb[10]);
    lemma_hex_digit_injective(nibble(a, 9), nibble(b, 9));
    assert(ta[11] == tb[11]);
    lemma_hex_digit_injective(nibble(a, 10), nibble(b, 10));
    assert(ta[12] == tb[12]);
    lemma_hex_digit_injective(nibble(a, 11), nibble(b, 11));
    assert(ta[14] == tb[14]);
    lemma_hex_digit_injective(nibble(a, 12), nibble(b, 12));
    assert(ta[15] == tb[15]);
    lemma_hex_digit_injective(nibble(a, 13), nibble(b, 13));
    assert(ta[16] == tb[16]);
    lemma_hex_digit_injective(nibble(a, 14), nibble(b, 14));
    assert(ta[17] == tb[17]);
    lemma_hex_digit_injective(nibble(a, 15), nibble(b, 15));
    assert(ta[19] == tb[19]);
    lemma_hex_digit_injective(nibble(a, 16), nibble(b, 16));
    assert(ta[20] == tb[20]);
    lemma_hex_digit_injective(nibble(a, 17), nibble(b, 17));
    assert(ta[21] == tb[21]);
    lemma_hex_digit_injective(nibble(a, 18), nibble(b, 18));
    assert(ta[22] == tb[22]);
    lemma_hex_digit_injective(nibble(a, 19), nibble(b, 19));
    assert(ta[24] == tb[24]);
    lemma_hex_digit_injective(nibble(a, 20), nibble(b, 20));
    assert(ta[25] == tb[25]);
    lemma_hex_digit_injective(nibble(a, 21), nibble(b, 21));
    assert(ta[26] == tb[26]);
    lemma_hex_digit_injective(nibble(a, 22), nibble(b, 22));
    assert(ta[27] == tb[27]);
    lemma_hex_digit_injective(nibble(a, 23), nibble(b, 23));
    assert(ta[28] == tb[28]);
    lemma_hex_digit_injective(nibble(a, 24), nibble(b, 24));
    assert(ta[29] == tb[29]);
    lemma_hex_digit_injective(nibble(a, 25), nibble(b, 25));
    assert(ta[30] == tb[30]);
    lemma_hex_digit_injective(nibble(a, 26), nibble(b, 26));
    assert(ta[31] == tb[31]);
    lemma_hex_digit_injective(nibble(a, 27), nibble(b, 27));
    assert(ta[32] == tb[32]);
    lemma_hex_digit_injective(nibble(a, 28), nibble(b, 28));
    assert(ta[33] == tb[33]);
    lemma_hex_digit_injective(nibble(a, 29), nibble(b, 29));
    assert(ta[34] == tb[34]);
    lemma_hex_digit_injective(nibble(a, 30), nibble(b, 30));
    assert(ta[35] == tb[35]);
    lemma_hex_digit_injective(nibble(a, 31), nibble(b, 31));
    lemma_nibbles_determine(a, b);
}

/// Relies on uuid: `Uuid::from_u128` keeps the value's bytes most significant
/// first, and its `Display` writes them as lowercase hex, hyphenated 8-4-4-4-12.
#[verifier::external_body]
fn uuid_text(id: u128) -> (r: String)
    ensures
        r@ == uuid_text_of(id),
{
    uuid::Uuid::from_u128(id).to_string()
}

pub struct CrmCoreAgentPerformance {
    pub agent_id: String,
    pub agent_name: String,
    pub tickets_assigned: i64,
    pub tickets_resolved: i64,
    pub avg_first_response_minutes: Option<Fraction>,
    pub avg_resolution_hours: Option<Fraction>,
    pub csat_score: Option<Fraction>,
}

/// The agent has a live ticket of the product created within `[start, end]`.
pub open spec fn works_on(rows: Seq<SupportTicket>, product: Seq<char>, start: i64, end: i64, a: u128) -> bool {
    exists|j: int|
        0 <= j < rows.len() && in_period(product, start, end)(rows[j]) && #[trigger] rows[j].assigned_to
            == Some(a)
}

pub open spec fn resolved_by(rows: Seq<SupportTicket>, product: Seq<char>, start: i64, end: i64, a: u128) -> int {
    count_where(rows, in_scope(product, start, end, Some(a)), finished())
}

impl CrmCoreAgentPerformance {
    /// The figures of agent `a` over the period's live tickets assigned to it.
    pub open spec fn describes(
        self,
        rows: Seq<SupportTicket>,
        product: Seq<char>,
        start: i64,
        end: i64,
        a: u128,
    ) -> bool {
        let scope = in_scope(product, start, end, Some(a));
        &&& self.agent_id@ == uuid_text_of(a)
        &&& self.agent_name@ == uuid_text_of(a)
        &&& self.tickets_assigned == count_where(rows, scope, every())
        &&& self.tickets_resolved == count_where(rows, scope, finished())
        &&& is_ratio(
            self.avg_first_response_minutes,
            sum_where(rows, scope, responded(), response_secs()),
            60 * count_where(rows, scope, responded()),
        )
        &&& is_ratio(
            self.avg_resolution_hours,
            sum_where(rows, scope, resolved(), resolution_secs()),
            HOUR * count_where(rows, scope, resolved()),
        )
        &&& is_ratio(
            self.csat_score,
            sum_where(rows, scope, rated(), csat()),
            count_where(rows, scope, rated()),
        )
    }
}

/// `ags` names the agents of the rows of `r`: distinct agents of the period,
/// with distinct ids, most resolutions first, and no agent left out ranks
/// above one listed.
pub open spec fn ranks_agents(
    ags: Seq<u128>,
    r: Seq<CrmCoreAgentPerformance>,
    rows: Seq<SupportTicket>,
    product: Seq<char>,
    start: i64,
    end: i64,
) -> bool {
    &&& ags.len() == r.len() <= TOP_AGENTS
    &&& forall|k: int|
        0 <= k < r.len() ==> works_on(rows, product, start, end, #[trigger] ags[k]) && r[k].describes(
            rows,
            product,
            start,
            end,
            ags[k],
        )
    &&& forall|k: int, l: int|
        0 <= k < l < r.len() ==> #[trigger] ags[k] != #[trigger] ags[l] && r[k].tickets_resolved
            >= r[l].tickets_resolved && r[k].agent_id@ != r[l].agent_id@
    &&& forall|a: u128|
        #[trigger] works_on(rows, product, start, end, a) && !ags.contains(a) ==> r.len() == TOP_AGENTS
            && forall|k: int| 0 <= k < r.len() ==> resolved_by(rows, product, start, end, a) <= (
            #[trigger] r[k]).tickets_resolved
}

/// The rows rank some agents as `ranks_agents` says.
pub open spec fn agents_ranked(
    r: Seq<CrmCoreAgentPerformance>,
    rows: Seq<SupportTicket>,
    product: Seq<char>,
    start: i64,
    end: i64,
) -> bool {
    exists|ags: Seq<u128>| ranks_agents(ags, r, rows, product, start, end)
}



/// The distinct agents with live tickets of the product in the period, in
/// order of first appearance.
fn period_agents(rows: &Vec<SupportTicket>, product: &String, start: i64, end: i64) -> (ags: Vec<u128>)
    ensures
        forall|k: int| 0 <= k < ags@.len() ==> works_on(rows@, product@, start, end, #[trigger] ags@[k]),
        forall|k: int, l: int| 0 <= k < l < ags@.len() ==> #[trigger] ags@[k] != #[trigger] ags@[l],
        forall|a: u128| #[trigger] works_on(rows@, product@, start, end, a) ==> ags@.contains(a),
{
    let ghost scope = in_period(product@, start, end);
    let mut ags: Vec<u128> = Vec::new();
    let mut i: usize = 0;
    while i < rows.len()
        invariant
            i <= rows.len(),
            scope == in_period(product@, start, end),
            forall|k: int| 0 <= k < ags@.len() ==> works_on(rows@, product@, start, end, #[trigger] ags@[k]),
            forall|k: int, l: int| 0 <= k < l < ags@.len() ==> #[trigger] ags@[k] != #[trigger] ags@[l],
            forall|j: int|
                0 <= j < i && scope(#[trigger] rows@[j]) && rows@[j].assigned_to is Some
                    ==> ags@.contains(rows@[j].assigned_to->0),
        decreases rows.len() - i,
    {
        let t = &rows[i];
        if t.product == *product && t.deleted_at.is_none() && start <= t.created_at && t.created_at
            <= end {
            match t.assigned_to {
                Some(a) => {
                    let mut q: usize = 0;
                    let mut seen = false;
                    while q < ags.len()
                        invariant
                            q <= ags@.len(),
                            seen ==> ags@.contains(a),
                            !seen ==> forall|k: int| 0 <= k < q ==> ags@[k] != a,
                        decreases ags@.len() - q,
                    {
                        if ags[q] == a {
                            seen = true;
                        }
                        q = q + 1;
                    }
                    if !seen {
                        assert(works_on(rows@, product@, start, end, a)) by {
                            assert(scope(rows@[i as int]) && rows@[i as int].assigned_to == Some(a));
                        }
                        let ghost old_ags = ags@;
                        ags.push(a);
                        assert forall|j: int|
                            0 <= j <= i && scope(#[trigger] rows@[j]) && rows@[j].assigned_to is Some implies ags@.contains(
                                rows@[j].assigned_to->0,
                            ) by {
                            let b = rows@[j].assigned_to->0;
                            if j < i {
                                assert(old_ags.contains(b));
                                let k = choose|k: int| 0 <= k < old_ags.len() && old_ags[k] == b;
                                assert(ags@[k] == b);
                            } else {
                                assert(ags@[ags@.len() - 1] == b);
                            }
                        }
                    }
                },
                None => {},
            }
        }
        i = i + 1;
    }
    proof {
        assert forall|a: u128| #[trigger] works_on(rows@, product@, start, end, a) implies ags@.contains(a) by {
            let j = choose|j: int|
                0 <= j < rows@.len() && in_period(product@, start, end)(rows@[j]) && #[trigger] rows@[j].assigned_to
                    == Some(a);
            assert(scope(rows@[j]));
        }
    }
    ags
}

/// Up to ten agents of the period, ranked by tickets resolved or closed.
pub fn top_agents(rows: &Vec<SupportTicket>, product: &str, start: i64, end: i64) -> (r: Vec<
    CrmCoreAgentPerformance,
>)
    requires
        rows_ok(rows@),
    ensures
        agents_ranked(r@, rows@, product@, start, end),
{
    let name = product.to_owned();
    let ags = period_agents(rows, &name, start, end);
    let mut tallies: Vec<Tally> = Vec::new();
    let mut keys: Vec<i64> = Vec::new();
    let mut i: usize = 0;
    while i < ags.len()
        invariant
            i <= ags@.len(),
            rows_ok(rows@),
            tallies@.len() == i,
            keys@.len() == i,
            forall|k: int|
                0 <= k < i ==> (#[trigger] tallies@[k]).of(
                    rows@,
                    in_scope(product@, start, end, Some(ags@[k])),
                    0,
                ) && keys@[k] == tallies@[k].done && tallies@[k].responded >= 0
                    && tallies@[k].resolved >= 0 && tallies@[k].rated >= 0,
        decreases ags@.len() - i,
    {
        let t = tally(rows, product, start, end, Some(ags[i]), 0);
        tallies.push(t);
        keys.push(t.done);
        i = i + 1;
    }
    let idx = order_desc(&keys, TOP_AGENTS);
    let mut out: Vec<CrmCoreAgentPerformance> = Vec::new();
    let ghost mut chosen: Seq<u128> = Seq::empty();
    let mut k: usize = 0;
    while k < idx.len()
        invariant
            k <= idx@.len(),
            tallies@.len() == keys@.len() == ags@.len(),
            forall|q: int| 0 <= q < idx@.len() ==> #[trigger] idx@[q] < ags@.len(),
            forall|q: int|
                0 <= q < ags@.len() ==> (#[trigger] tallies@[q]).of(
                    rows@,
                    in_scope(product@, start, end, Some(ags@[q])),
                    0,
                ) && keys@[q] == tallies@[q].done && tallies@[q].responded >= 0
                    && tallies@[q].resolved >= 0 && tallies@[q].rated >= 0,
            out@.len() == k,
            chosen.len() == k,
            forall|q: int| 0 <= q < k ==> #[trigger] chosen[q] == ags@[idx@[q] as int],
            forall|q: int|
                0 <= q < k ==> (#[trigger] out@[q]).describes(rows@, product@, start, end, chosen[q])
                    && out@[q].tickets_resolved == keys@[idx@[q] as int],
        decreases idx@.len() - k,
    {
        let m = idx[k];
        let t = tallies[m];
        let a = ags[m];
        out.push(
            CrmCoreAgentPerformance {
                agent_id: uuid_text(a),
                agent_name: uuid_text(a),
                tickets_assigned: t.total,
                tickets_resolved: t.done,
                avg_first_response_minutes: ratio(t.response_sum, 60 * t.responded as i128),
                avg_resolution_hours: ratio(t.resolution_sum, HOUR as i128 * t.resolved as i128),
                csat_score: ratio(t.csat_sum, t.rated as i128),
            },
        );
        proof {
            chosen = chosen.push(a);
        }
        k = k + 1;
    }
    proof {
        let r = out@;
        assert forall|q: int| 0 <= q < r.len() implies works_on(rows@, product@, start, end, #[trigger] chosen[q]) && r[q].describes(
            rows@,
            product@,
            start,
            end,
            chosen[q],
        ) by {
            assert(idx@[q] < ags@.len());
        }
        assert forall|q: int, l: int| 0 <= q < l < r.len() implies #[trigger] chosen[q] != #[trigger] chosen[l] && r[q].tickets_resolved
            >= r[l].tickets_resolved && r[q].agent_id@ != r[l].agent_id@ by {
            assert(idx@[q] != idx@[l]);
            assert(keys@[idx@[q] as int] >= keys@[idx@[l] as int]);
            if r[q].agent_id@ == r[l].agent_id@ {
                lemma_uuid_text_injective(chosen[q], chosen[l]);
            }
        }
        assert forall|a: u128|
            #[trigger] works_on(rows@, product@, start, end, a) && !chosen.contains(a) implies r.len() == TOP_AGENTS
                && forall|q: int| 0 <= q < r.len() ==> resolved_by(rows@, product@, start, end, a) <= (
                #[trigger] r[q]).tickets_resolved by {
            let m = choose|m: int| 0 <= m < ags@.len() && ags@[m] == a;
            if idx@.contains(m as usize) {
                let q = choose|q: int| 0 <= q < idx@.len() && idx@[q] == m as usize;
                assert(chosen[q] == a);
            }
            assert(!idx@.contains(m as usize));
            assert(tallies@[m].of(rows@, in_scope(product@, start, end, Some(a)), 0));
            assert forall|q: int| 0 <= q < r.len() implies resolved_by(rows@, product@, start, end, a) <= (
                #[trigger] r[q]).tickets_resolved by {
                assert(keys@[idx@[q] as int] >= keys@[m]);
            }
        }
        assert(ranks_agents(chosen, r, rows@, product@, start, end));
    }
    out
}


/// Whether every row's times are in range and the rows can be counted.
pub fn rows_valid(rows: &Vec<SupportTicket>) -> (r: bool)
    ensures
        r == rows_ok(rows@),
{
    if rows.len() as u128 > i64::MAX as u128 {
        return false;
    }
    let mut i: usize = 0;
    while i < rows.len()
        invariant
            i <= rows.len(),
            forall|k: int| 0 <= k < i ==> #[trigger] rows@[k].wf(),
        decreases rows.len() - i,
    {
        if !row_valid(&rows[i]) {
            return false;
        }
        i = i + 1;
    }
    true
}

fn time_valid(t: i64) -> (r: bool)
    ensures
        r == time_ok(t),
{
    -TIME_LIMIT <= t && t <= TIME_LIMIT
}

fn opt_time_valid(t: Option<i64>) -> (r: bool)
    ensures
        r == crate::models::opt_time_ok(t),
{
    match t {
        Some(v) => time_valid(v),
        None => true,
    }
}

pub fn row_valid(t: &SupportTicket) -> (r: bool)
    ensures
        r == t.wf(),
{
    time_valid(t.created_at) && time_valid(t.updated_at) && opt_time_valid(t.first_response_at)
        && opt_time_valid(t.resolved_at) && opt_time_valid(t.closed_at) && opt_time_valid(
        t.deleted_at,
    )
}

pub struct CrmCoreSupportDashboardMetrics {
    pub overview: CrmCoreSupportOverviewMetrics,
    pub ticket_by_status: Vec<CrmCoreTicketStatusCount>,
    pub ticket_by_priority: Vec<CrmCoreTicketPriorityCount>,
    pub sla_metrics: CrmCoreSlaMetrics,
    pub response_metrics: CrmCoreResponseMetrics,
    pub top_agents: Vec<CrmCoreAgentPerformance>,
    pub ticket_trends: Vec<CrmCoreTicketTrend>,
}

impl CrmCoreSupportDashboardMetrics {
    pub open spec fn describes(
        self,
        rows: Seq<SupportTicket>,
        product: Seq<char>,
        start: i64,
        end: i64,
        now: i64,
    ) -> bool {
        &&& self.overview.describes(rows, product, start, end, now)
        &&& status_rows_are(self.ticket_by_status@, rows, product, start, end)
        &&& priority_rows_are(self.ticket_by_priority@, priority_table(rows, product, start, end))
        &&& self.sla_metrics.describes(rows, product, start, end)
        &&& self.response_metrics.describes(rows, product, start, end)
        &&& agents_ranked(self.top_agents@, rows, product, start, end)
        &&& self.ticket_trends@.len() == 7
        &&& forall|k: int|
            0 <= k < 7 ==> (#[trigger] self.ticket_trends@[k]).describes(
                rows,
                product,
                day_of(end) - k,
            )
    }
}

/// All dashboard figures of the live tickets of `product` for the period
/// `[period_start, period_end]`, with "today" ending at `now`. Fails where a
/// row or `period_end` holds a time out of range.
pub fn dashboard_metrics(
    rows: &Vec<SupportTicket>,
    product: &str,
    period_start: i64,
    period_end: i64,
    now: i64,
) -> (r: Result<CrmCoreSupportDashboardMetrics, SupportError>)
    ensures
        r is Ok <==> rows_ok(rows@) && time_ok(period_end),
        r is Err ==> r matches Err(SupportError::InvalidInput(_)),
        r matches Ok(d) ==> d.describes(rows@, product@, period_start, period_end, now),
{
    if !rows_valid(rows) {
        return Err(SupportError::InvalidInput("ticket time out of range".to_owned()));
    }
    if !time_valid(period_end) {
        return Err(SupportError::InvalidInput("period end out of range".to_owned()));
    }
    let d = CrmCoreSupportDashboardMetrics {
        overview: overview_metrics(rows, product, period_start, period_end, now),
        ticket_by_status: status_counts(rows, product, period_start, period_end),
        ticket_by_priority: priority_counts(rows, product, period_start, period_end),
        sla_metrics: sla_metrics(rows, product, period_start, period_end),
        response_metrics: response_metrics(rows, product, period_start, period_end),
        top_agents: top_agents(rows, product, period_start, period_end),
        ticket_trends: ticket_trends(rows, product, period_end),
    };
    Ok(d)
}

} // verus!
