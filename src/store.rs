use vstd::prelude::*;

use crate::models::{
    copy_text, time_ok, TicketStatus, TIME_LIMIT, AddTicketMessageInput, CreateTicketInput, SupportError, SupportTicket, TicketFilter,
    TicketMessage, UpdateTicketInput,
};

use crate::metrics::{dashboard_metrics, rows_ok, CrmCoreSupportDashboardMetrics};

verus! {

/// Page size used when the caller gives none.
pub const DEFAULT_LIMIT: i64 = 20;

pub open spec fn tickets_sorted(s: Seq<SupportTicket>) -> bool {
    forall|i: int, j: int| 0 <= i <= j < s.len() ==> s[i].created_at <= s[j].created_at
}

pub open spec fn ticket_ids_unique(s: Seq<SupportTicket>) -> bool {
    forall|i: int, j: int|
        0 <= i < s.len() && 0 <= j < s.len() && i != j ==> s[i].id != s[j].id
}

pub open spec fn messages_sorted(s: Seq<TicketMessage>) -> bool {
    forall|i: int, j: int| 0 <= i <= j < s.len() ==> s[i].created_at <= s[j].created_at
}

pub open spec fn message_ids_unique(s: Seq<TicketMessage>) -> bool {
    forall|i: int, j: int|
        0 <= i < s.len() && 0 <= j < s.len() && i != j ==> s[i].id != s[j].id
}

pub open spec fn has_ticket_id(s: Seq<SupportTicket>, id: u128) -> bool {
    exists|i: int| 0 <= i < s.len() && s[i].id == id
}

pub open spec fn has_message_id(s: Seq<TicketMessage>, id: u128) -> bool {
    exists|i: int| 0 <= i < s.len() && s[i].id == id
}

/// Index of the first live ticket with the given id, or -1.
pub open spec fn live_index(s: Seq<SupportTicket>, id: u128) -> int
    decreases s.len(),
{
    if s.len() == 0 {
        -1
    } else {
        let k = live_index(s.drop_last(), id);
        if k >= 0 {
            k
        } else if s.last().id == id && s.last().is_live() {
            s.len() - 1
        } else {
            -1
        }
    }
}

/// `p` is where a row created at `now` goes: after every row created at or
/// before `now`, before every later one.
pub open spec fn ticket_slot(s: Seq<SupportTicket>, now: i64, p: int) -> bool {
    &&& 0 <= p <= s.len()
    &&& forall|k: int| 0 <= k < p ==> s[k].created_at <= now
    &&& forall|k: int| p <= k < s.len() ==> s[k].created_at > now
}

pub open spec fn message_slot(s: Seq<TicketMessage>, now: i64, p: int) -> bool {
    &&& 0 <= p <= s.len()
    &&& forall|k: int| 0 <= k < p ==> s[k].created_at <= now
    &&& forall|k: int| p <= k < s.len() ==> s[k].created_at > now
}

/// The row that creating a ticket with the given input stores.
pub open spec fn opened(
    product: Seq<char>,
    input: CreateTicketInput,
    id: u128,
    now: i64,
    t: SupportTicket,
) -> bool {
    &&& t.id == id
    &&& t.product@ == product
    &&& t.customer_id == input.customer_id
    &&& t.subject == input.subject
    &&& t.description == input.description
    &&& t.status == crate::models::TicketStatus::New
    &&& t.priority == input.priority
    &&& t.category == input.category
    &&& t.assigned_to is None
    &&& t.first_response_at is None
    &&& t.resolved_at is None
    &&& t.closed_at is None
    &&& !t.sla_breach
    &&& t.csat_score is None
    &&& t.created_at == now
    &&& t.updated_at == now
    &&& t.deleted_at is None
}

/// The row after an update: each supplied field replaces the stored one.
pub open spec fn merged(t: SupportTicket, u: UpdateTicketInput, now: i64) -> SupportTicket {
    SupportTicket {
        id: t.id,
        product: t.product,
        customer_id: t.customer_id,
        subject: match u.subject {
            Some(v) => v,
            None => t.subject,
        },
        description: match u.description {
            Some(v) => v,
            None => t.description,
        },
        status: match u.status {
            Some(v) => v,
            None => t.status,
        },
        priority: match u.priority {
            Some(v) => v,
            None => t.priority,
        },
        category: match u.category {
            Some(v) => Some(v),
            None => t.category,
        },
        assigned_to: match u.assigned_to {
            Some(v) => Some(v),
            None => t.assigned_to,
        },
        first_response_at: t.first_response_at,
        resolved_at: t.resolved_at,
        closed_at: t.closed_at,
        sla_breach: t.sla_breach,
        csat_score: t.csat_score,
        created_at: t.created_at,
        updated_at: now,
        deleted_at: t.deleted_at,
    }
}

/// Whether `list` shows the ticket for this product and filter.
pub open spec fn listed(t: SupportTicket, product: Seq<char>, f: TicketFilter) -> bool {
    t.product@ == product && t.is_live() && f.accepts(t)
}

/// The tickets that `list` shows, newest first (rows are kept oldest first).
pub open spec fn selected(s: Seq<SupportTicket>, product: Seq<char>, f: TicketFilter) -> Seq<
    SupportTicket,
>
    decreases s.len(),
{
    if s.len() == 0 {
        Seq::empty()
    } else {
        let rest = selected(s.drop_first(), product, f);
        if listed(s[0], product, f) {
            rest.push(s[0])
        } else {
            rest
        }
    }
}

/// The part of `l` from `offset` on, at most `limit` long.
pub open spec fn page<T>(l: Seq<T>, offset: int, limit: int) -> Seq<T> {
    let start = if offset < l.len() {
        offset
    } else {
        l.len() as int
    };
    let end = if start + limit < l.len() {
        start + limit
    } else {
        l.len() as int
    };
    l.subrange(start, end)
}

/// The messages of one ticket, in stored order.
pub open spec fn thread(s: Seq<TicketMessage>, ticket_id: u128) -> Seq<TicketMessage>
    decreases s.len(),
{
    if s.len() == 0 {
        Seq::empty()
    } else {
        let rest = thread(s.drop_last(), ticket_id);
        if s.last().ticket_id == ticket_id {
            rest.push(s.last())
        } else {
            rest
        }
    }
}

/// Where `live_index` points, a live ticket with the id stands, and none before it.
pub proof fn lemma_live_index_bounds(s: Seq<SupportTicket>, id: u128)
    ensures
        -1 <= live_index(s, id) < s.len(),
        live_index(s, id) >= 0 ==> s[live_index(s, id)].id == id && s[live_index(s, id)].is_live(),
        forall|j: int|
            0 <= j < s.len() && (live_index(s, id) < 0 || j < live_index(s, id)) ==> !(
            #[trigger] s[j]).is_live() || s[j].id != id,
    decreases s.len(),
{
    if s.len() > 0 {
        let d = s.drop_last();
        lemma_live_index_bounds(d, id);
        assert forall|j: int|
            0 <= j < s.len() && (live_index(s, id) < 0 || j < live_index(s, id)) implies !(
            #[trigger] s[j]).is_live() || s[j].id != id by {
            if j < s.len() - 1 {
                assert(d[j] == s[j]);
            }
        }
    }
}

/// A live match found in a prefix stays the first one in the whole sequence.
pub proof fn lemma_live_index_extends(s: Seq<SupportTicket>, n: int, id: u128)
    requires
        0 <= n <= s.len(),
        live_index(s.take(n), id) >= 0,
    ensures
        live_index(s, id) == live_index(s.take(n), id),
    decreases s.len(),
{
    if n == s.len() {
        assert(s.take(n) =~= s);
    } else {
        assert(s.drop_last().take(n) =~= s.take(n));
        lemma_live_index_extends(s.drop_last(), n, id);
    }
}

fn shown(t: &SupportTicket, product: &String, f: &TicketFilter) -> (r: bool)
    ensures
        r == listed(*t, product@, *f),
{
    if t.product != *product || t.deleted_at.is_some() {
        return false;
    }
    let status_ok = match f.status {
        Some(s) => t.status == s,
        None => true,
    };
    let priority_ok = match f.priority {
        Some(p) => t.priority == p,
        None => true,
    };
    let agent_ok = match f.assigned_to {
        Some(a) => match t.assigned_to {
            Some(b) => a == b,
            None => false,
        },
        None => true,
    };
    let customer_ok = match f.customer_id {
        Some(c) => t.customer_id == c,
        None => true,
    };
    status_ok && priority_ok && agent_ok && customer_ok
}

/// Of `rows` (kept oldest first), the live tickets of `product` that `filter`
/// accepts, newest first, from `offset` on and at most `limit` of them.
pub fn list_rows(rows: &Vec<SupportTicket>, product: &str, filter: &TicketFilter, limit: i64, offset: i64) -> (r: Result<
    Vec<SupportTicket>,
    SupportError,
>)
    ensures
        r is Err <==> limit < 0 || offset < 0,
        r is Err ==> r matches Err(SupportError::InvalidInput(_)),
        r matches Ok(v) ==> v@ == page(
            selected(rows@, product@, *filter),
            offset as int,
            limit as int,
        ),
{
    if limit < 0 || offset < 0 {
        return Err(SupportError::InvalidInput("negative limit or offset".to_owned()));
    }
    let name = product.to_owned();
    let n = rows.len();
    let mut all: Vec<SupportTicket> = Vec::new();
    let mut i: usize = n;
    while i > 0
        invariant
            i <= n == rows.len(),
            name@ == product@,
            all@ == selected(rows@.subrange(i as int, n as int), product@, *filter),
        decreases i,
    {
        assert(rows@.subrange(i - 1, n as int).drop_first() =~= rows@.subrange(
            i as int,
            n as int,
        ));
        i = i - 1;
        let t = &rows[i];
        if shown(t, &name, filter) {
            all.push(t.duplicate());
        }
    }
    assert(rows@.subrange(0, n as int) =~= rows@);
    let total = all.len();
    let start: usize = if (offset as u64) < (total as u64) {
        offset as usize
    } else {
        total
    };
    let end: usize = if (limit as u64) < ((total - start) as u64) {
        start + limit as usize
    } else {
        total
    };
    let mut out: Vec<SupportTicket> = Vec::new();
    let mut j: usize = start;
    while j < end
        invariant
            start <= j <= end <= total == all.len(),
            out@ == all@.subrange(start as int, j as int),
        decreases end - j,
    {
        out.push(all[j].duplicate());
        j = j + 1;
        assert(out@ =~= all@.subrange(start as int, j as int));
    }
    Ok(out)
}

/// Putting an item with a fresh id at its slot keeps a sequence ordered by
/// `key` and its ids distinct.
pub proof fn lemma_insert_in_slot<T>(
    before: Seq<T>,
    p: int,
    x: T,
    key: spec_fn(T) -> int,
    id: spec_fn(T) -> u128,
)
    requires
        forall|i: int, j: int| 0 <= i <= j < before.len() ==> key(before[i]) <= key(before[j]),
        forall|i: int, j: int|
            0 <= i < before.len() && 0 <= j < before.len() && i != j ==> id(before[i]) != id(
                before[j],
            ),
        0 <= p <= before.len(),
        forall|k: int| 0 <= k < p ==> key(before[k]) <= key(x),
        forall|k: int| p <= k < before.len() ==> key(before[k]) > key(x),
        forall|k: int| 0 <= k < before.len() ==> id(before[k]) != id(x),
    ensures
        forall|i: int, j: int|
            0 <= i <= j < before.len() + 1 ==> key(before.insert(p, x)[i]) <= key(
                before.insert(p, x)[j],
            ),
        forall|i: int, j: int|
            0 <= i < before.len() + 1 && 0 <= j < before.len() + 1 && i != j ==> id(
                before.insert(p, x)[i],
            ) != id(before.insert(p, x)[j]),
{
    let after = before.insert(p, x);
    assert forall|k: int| 0 <= k < after.len() implies #[trigger] after[k] == (if k < p {
        before[k]
    } else if k == p {
        x
    } else {
        before[k - 1]
    }) by {}
}

/// Of `rows`, the first live ticket with this id.
pub fn find_live(rows: &Vec<SupportTicket>, ticket_id: u128) -> (r: Result<SupportTicket, SupportError>)
    ensures
        live_index(rows@, ticket_id) >= 0 ==> r == Ok::<SupportTicket, SupportError>(
            rows@[live_index(rows@, ticket_id)],
        ),
        live_index(rows@, ticket_id) < 0 ==> r == Err::<SupportTicket, SupportError>(
            SupportError::TicketNotFound(ticket_id),
        ),
{
    proof {
        lemma_live_index_bounds(rows@, ticket_id);
    }
    match live_position(rows, ticket_id) {
        Some(k) => Ok(rows[k].duplicate()),
        None => Err(SupportError::TicketNotFound(ticket_id)),
    }
}

fn live_position(rows: &Vec<SupportTicket>, ticket_id: u128) -> (r: Option<usize>)
    ensures
        r matches Some(k) ==> k as int == live_index(rows@, ticket_id),
        r is None <==> live_index(rows@, ticket_id) < 0,
{
    let mut i: usize = 0;
    while i < rows.len()
        invariant
            i <= rows.len(),
            live_index(rows@.take(i as int), ticket_id) == -1,
        decreases rows.len() - i,
    {
        assert(rows@.take(i as int + 1).drop_last() =~= rows@.take(i as int));
        if rows[i].id == ticket_id && rows[i].deleted_at.is_none() {
            proof {
                lemma_live_index_extends(rows@, i as int + 1, ticket_id);
            }
            return Some(i);
        }
        i = i + 1;
    }
    assert(rows@.take(i as int) =~= rows@);
    None
}

/// The row that creating a ticket stores: the input, status New, created and
/// updated at `now`.
pub fn new_ticket(product: &str, input: &CreateTicketInput, id: u128, now: i64) -> (t: SupportTicket)
    ensures
        opened(product@, *input, id, now, t),
{
    SupportTicket {
        id,
        product: product.to_owned(),
        customer_id: input.customer_id,
        subject: input.subject.clone(),
        description: input.description.clone(),
        status: TicketStatus::New,
        priority: input.priority,
        category: copy_text(&input.category),
        assigned_to: None,
        first_response_at: None,
        resolved_at: None,
        closed_at: None,
        sla_breach: false,
        csat_score: None,
        created_at: now,
        updated_at: now,
        deleted_at: None,
    }
}

/// The message that adding `input` by `author_id` at `now` stores.
pub fn new_message(author_id: u128, input: &AddTicketMessageInput, id: u128, now: i64) -> (m:
    TicketMessage)
    ensures
        m == (TicketMessage {
            id,
            ticket_id: input.ticket_id,
            author_id,
            is_internal: input.is_internal,
            content: input.content,
            created_at: now,
        }),
{
    TicketMessage {
        id,
        ticket_id: input.ticket_id,
        author_id,
        is_internal: input.is_internal,
        content: input.content.clone(),
        created_at: now,
    }
}

/// Tickets and their messages, held in memory.
pub struct SupportRepository {
    tickets: Vec<SupportTicket>,
    messages: Vec<TicketMessage>,
}

impl SupportRepository {
    /// The stored tickets, oldest first.
    pub closed spec fn ticket_rows(&self) -> Seq<SupportTicket> {
        self.tickets@
    }

    /// The stored messages, oldest first.
    pub closed spec fn message_rows(&self) -> Seq<TicketMessage> {
        self.messages@
    }

    pub open spec fn wf(&self) -> bool {
        &&& tickets_sorted(self.ticket_rows())
        &&& ticket_ids_unique(self.ticket_rows())
        &&& forall|i: int| 0 <= i < self.ticket_rows().len() ==> #[trigger] self.ticket_rows()[i].wf()
        &&& messages_sorted(self.message_rows())
        &&& message_ids_unique(self.message_rows())
        &&& forall|i: int|
            0 <= i < self.message_rows().len() ==> time_ok(#[trigger] self.message_rows()[i].created_at)
    }

    pub fn new() -> (r: SupportRepository)
        ensures
            r.wf(),
            r.ticket_rows().len() == 0,
            r.message_rows().len() == 0,
    {
        SupportRepository { tickets: Vec::new(), messages: Vec::new() }
    }

    /// A store holding the given rows (each list oldest first). Fails where
    /// the rows are out of order, share an id, or hold a time out of range.
    pub fn with_rows(tickets: Vec<SupportTicket>, messages: Vec<TicketMessage>) -> (r: Result<
        SupportRepository,
        SupportError,
    >)
        ensures
            r is Ok <==> tickets_sorted(tickets@) && ticket_ids_unique(tickets@) && (forall|i: int|
                0 <= i < tickets@.len() ==> #[trigger] tickets@[i].wf()) && messages_sorted(messages@)
                && message_ids_unique(messages@) && (forall|i: int|
                0 <= i < messages@.len() ==> time_ok(#[trigger] messages@[i].created_at)),
            r is Err ==> r matches Err(SupportError::InvalidInput(_)),
            r matches Ok(repo) ==> repo.wf() && repo.ticket_rows() == tickets@ && repo.message_rows()
                == messages@,
    {
        let mut i: usize = 0;
        while i < tickets.len()
            invariant
                i <= tickets@.len(),
                forall|a: int, b: int| 0 <= a <= b < i ==> tickets@[a].created_at <= tickets@[b].created_at,
                forall|a: int, b: int| 0 <= a < i && 0 <= b < i && a != b ==> tickets@[a].id != tickets@[b].id,
                forall|a: int| 0 <= a < i ==> #[trigger] tickets@[a].wf(),
            decreases tickets@.len() - i,
        {
            if !crate::metrics::row_valid(&tickets[i]) {
                return Err(SupportError::InvalidInput("ticket time out of range".to_owned()));
            }
            let mut j: usize = 0;
            while j < i
                invariant
                    j <= i < tickets@.len(),
                    forall|a: int| 0 <= a < j ==> tickets@[a].created_at <= tickets@[i as int].created_at
                        && tickets@[a].id != tickets@[i as int].id,
                decreases i - j,
            {
                if tickets[j].created_at > tickets[i].created_at || tickets[j].id == tickets[i].id {
                    return Err(SupportError::InvalidInput("tickets out of order or repeated".to_owned()));
                }
                j = j + 1;
            }
            i = i + 1;
        }
        let mut i: usize = 0;
        while i < messages.len()
            invariant
                i <= messages@.len(),
                forall|a: int, b: int| 0 <= a <= b < i ==> messages@[a].created_at <= messages@[b].created_at,
                forall|a: int, b: int| 0 <= a < i && 0 <= b < i && a != b ==> messages@[a].id != messages@[b].id,
                forall|a: int| 0 <= a < i ==> time_ok(#[trigger] messages@[a].created_at),
            decreases messages@.len() - i,
        {
            if messages[i].created_at < -TIME_LIMIT || messages[i].created_at > TIME_LIMIT {
                return Err(SupportError::InvalidInput("message time out of range".to_owned()));
            }
            let mut j: usize = 0;
            while j < i
                invariant
                    j <= i < messages@.len(),
                    forall|a: int| 0 <= a < j ==> messages@[a].created_at <= messages@[i as int].created_at
                        && messages@[a].id != messages@[i as int].id,
                decreases i - j,
            {
                if messages[j].created_at > messages[i].created_at || messages[j].id == messages[i].id {
                    return Err(SupportError::InvalidInput("messages out of order or repeated".to_owned()));
                }
                j = j + 1;
            }
            i = i + 1;
        }
        Ok(SupportRepository { tickets, messages })
    }

    /// All dashboard figures over the stored tickets; see `dashboard_metrics`.
    pub fn get_dashboard_metrics(
        &self,
        product: &str,
        period_start: i64,
        period_end: i64,
        now: i64,
    ) -> (r: Result<CrmCoreSupportDashboardMetrics, SupportError>)
        ensures
            r is Ok <==> rows_ok(self.ticket_rows()) && time_ok(period_end),
            r is Err ==> r matches Err(SupportError::InvalidInput(_)),
            r matches Ok(d) ==> d.describes(self.ticket_rows(), product@, period_start, period_end, now),
    {
        dashboard_metrics(&self.tickets, product, period_start, period_end, now)
    }

    /// The stored tickets, oldest first.
    pub fn tickets(&self) -> (r: &Vec<SupportTicket>)
        ensures
            r@ == self.ticket_rows(),
    {
        &self.tickets
    }

    /// The live ticket with this id.
    pub fn find_by_id(&self, ticket_id: u128) -> (r: Result<SupportTicket, SupportError>)
        ensures
            live_index(self.ticket_rows(), ticket_id) >= 0 ==> r == Ok::<SupportTicket, SupportError>(
                self.ticket_rows()[live_index(self.ticket_rows(), ticket_id)],
            ),
            live_index(self.ticket_rows(), ticket_id) < 0 ==> r == Err::<SupportTicket, SupportError>(
                SupportError::TicketNotFound(ticket_id),
            ),
    {
        find_live(&self.tickets, ticket_id)
    }

    /// First index whose row was created after `now`.
    fn ticket_insertion_point(&self, now: i64) -> (r: usize)
        requires
            tickets_sorted(self.ticket_rows()),
        ensures
            ticket_slot(self.ticket_rows(), now, r as int),
    {
        let mut i: usize = 0;
        while i < self.tickets.len() && self.tickets[i].created_at <= now
            invariant
                i <= self.tickets.len(),
                tickets_sorted(self.tickets@),
                forall|k: int| 0 <= k < i ==> self.tickets@[k].created_at <= now,
            decreases self.tickets.len() - i,
        {
            i = i + 1;
        }
        i
    }

    fn ticket_id_taken(&self, id: u128) -> (r: bool)
        ensures
            r == has_ticket_id(self.ticket_rows(), id),
    {
        let mut i: usize = 0;
        while i < self.tickets.len()
            invariant
                i <= self.tickets.len(),
                forall|k: int| 0 <= k < i ==> self.tickets@[k].id != id,
            decreases self.tickets.len() - i,
        {
            if self.tickets[i].id == id {
                return true;
            }
            i = i + 1;
        }
        false
    }

    /// Stores a new ticket with status New, created and updated at `now`.
    /// Fails when `now` is out of range, or when `id` is already taken.
    pub fn create_ticket(
        &mut self,
        product: &str,
        input: &CreateTicketInput,
        id: u128,
        now: i64,
    ) -> (r: Result<SupportTicket, SupportError>)
        requires
            old(self).wf(),
        ensures
            final(self).wf(),
            final(self).message_rows() == old(self).message_rows(),
            r is Ok <==> time_ok(now) && !has_ticket_id(old(self).ticket_rows(), id),
            !time_ok(now) ==> r matches Err(SupportError::InvalidInput(_)),
            time_ok(now) && has_ticket_id(old(self).ticket_rows(), id) ==> r matches Err(
                SupportError::Database(_),
            ),
            r is Err ==> final(self).ticket_rows() == old(self).ticket_rows(),
            r matches Ok(t) ==> opened(product@, *input, id, now, t) && exists|p: int|
                ticket_slot(old(self).ticket_rows(), now, p) && final(self).ticket_rows()
                    == old(self).ticket_rows().insert(p, t),
    {
        if now < -TIME_LIMIT || now > TIME_LIMIT {
            return Err(SupportError::InvalidInput("time out of range".to_owned()));
        }
        if self.ticket_id_taken(id) {
            return Err(SupportError::Database("duplicate ticket id".to_owned()));
        }
        let t = new_ticket(product, input, id, now);
        let p = self.ticket_insertion_point(now);
        let ghost before = self.tickets@;
        self.tickets.insert(p, t.duplicate());
        proof {
            lemma_insert_in_slot(
                before,
                p as int,
                t,
                |x: SupportTicket| x.created_at as int,
                |x: SupportTicket| x.id,
            );
        }
        Ok(t)
    }

    /// Replaces each field that `input` supplies in the live ticket `ticket_id`,
    /// and sets its update time to `now`.
    pub fn update_ticket(&mut self, ticket_id: u128, input: &UpdateTicketInput, now: i64) -> (r:
        Result<SupportTicket, SupportError>)
        requires
            old(self).wf(),
        ensures
            final(self).wf(),
            final(self).message_rows() == old(self).message_rows(),
            !time_ok(now) ==> r matches Err(SupportError::InvalidInput(_)),
            time_ok(now) && live_index(old(self).ticket_rows(), ticket_id) < 0 ==> r == Err::<
                SupportTicket,
                SupportError,
            >(SupportError::TicketNotFound(ticket_id)),
            r is Err ==> final(self).ticket_rows() == old(self).ticket_rows(),
            time_ok(now) && live_index(old(self).ticket_rows(), ticket_id) >= 0 ==> {
                let k = live_index(old(self).ticket_rows(), ticket_id);
                let t = merged(old(self).ticket_rows()[k], *input, now);
                &&& r == Ok::<SupportTicket, SupportError>(t)
                &&& final(self).ticket_rows() == old(self).ticket_rows().update(k, t)
            },
    {
        if now < -TIME_LIMIT || now > TIME_LIMIT {
            return Err(SupportError::InvalidInput("time out of range".to_owned()));
        }
        proof {
            lemma_live_index_bounds(self.ticket_rows(), ticket_id);
        }
        let k = match live_position(&self.tickets, ticket_id) {
            Some(k) => k,
            None => {
                return Err(SupportError::TicketNotFound(ticket_id));
            },
        };
        let cur = &self.tickets[k];
        let t = SupportTicket {
            id: cur.id,
            product: cur.product.clone(),
            customer_id: cur.customer_id,
            subject: match &input.subject {
                Some(v) => v.clone(),
                None => cur.subject.clone(),
            },
            description: match &input.description {
                Some(v) => v.clone(),
                None => cur.description.clone(),
            },
            status: match input.status {
                Some(v) => v,
                None => cur.status,
            },
            priority: match input.priority {
                Some(v) => v,
                None => cur.priority,
            },
            category: match &input.category {
                Some(v) => Some(v.clone()),
                None => copy_text(&cur.category),
            },
            assigned_to: match input.assigned_to {
                Some(v) => Some(v),
                None => cur.assigned_to,
            },
            first_response_at: cur.first_response_at,
            resolved_at: cur.resolved_at,
            closed_at: cur.closed_at,
            sla_breach: cur.sla_breach,
            csat_score: cur.csat_score,
            created_at: cur.created_at,
            updated_at: now,
            deleted_at: cur.deleted_at,
        };
        let ghost before = self.tickets@;
        self.tickets.set(k, t.duplicate());
        proof {
            let after = self.tickets@;
            assert(before[k as int].wf());
            assert forall|i: int| 0 <= i < after.len() implies #[trigger] after[i].created_at
                == before[i].created_at && after[i].id == before[i].id && after[i].wf() by {
                if i != k {
                    assert(after[i] == before[i]);
                }
            }
        }
        Ok(t)
    }

    /// Live tickets of `product` that `filter` accepts, newest first,
    /// from `offset` on and at most `limit` of them.
    pub fn list(&self, product: &str, filter: &TicketFilter, limit: i64, offset: i64) -> (r: Result<
        Vec<SupportTicket>,
        SupportError,
    >)
        ensures
            r is Err <==> limit < 0 || offset < 0,
            r is Err ==> r matches Err(SupportError::InvalidInput(_)),
            r matches Ok(v) ==> v@ == page(
                selected(self.ticket_rows(), product@, *filter),
                offset as int,
                limit as int,
            ),
    {
        list_rows(&self.tickets, product, filter, limit, offset)
    }

    fn message_insertion_point(&self, now: i64) -> (r: usize)
        requires
            messages_sorted(self.message_rows()),
        ensures
            message_slot(self.message_rows(), now, r as int),
    {
        let mut i: usize = 0;
        while i < self.messages.len() && self.messages[i].created_at <= now
            invariant
                i <= self.messages.len(),
                messages_sorted(self.messages@),
                forall|k: int| 0 <= k < i ==> self.messages@[k].created_at <= now,
            decreases self.messages.len() - i,
        {
            i = i + 1;
        }
        i
    }

    fn message_id_taken(&self, id: u128) -> (r: bool)
        ensures
            r == has_message_id(self.message_rows(), id),
    {
        let mut i: usize = 0;
        while i < self.messages.len()
            invariant
                i <= self.messages.len(),
                forall|k: int| 0 <= k < i ==> self.messages@[k].id != id,
            decreases self.messages.len() - i,
        {
            if self.messages[i].id == id {
                return true;
            }
            i = i + 1;
        }
        false
    }

    /// Stores a message by `author_id` under `input.ticket_id`, created at `now`.
    /// The ticket must exist (deleted or not), as a foreign key would demand.
    pub fn add_message(
        &mut self,
        author_id: u128,
        input: &AddTicketMessageInput,
        id: u128,
        now: i64,
    ) -> (r: Result<TicketMessage, SupportError>)
        requires
            old(self).wf(),
        ensures
            final(self).wf(),
            final(self).ticket_rows() == old(self).ticket_rows(),
            r is Ok <==> time_ok(now) && has_ticket_id(old(self).ticket_rows(), input.ticket_id)
                && !has_message_id(old(self).message_rows(), id),
            !time_ok(now) ==> r matches Err(SupportError::InvalidInput(_)),
            time_ok(now) && !(has_ticket_id(old(self).ticket_rows(), input.ticket_id)
                && !has_message_id(old(self).message_rows(), id)) ==> r matches Err(
                SupportError::Database(_),
            ),
            r is Err ==> final(self).message_rows() == old(self).message_rows(),
            r matches Ok(m) ==> {
                &&& m == (TicketMessage {
                    id,
                    ticket_id: input.ticket_id,
                    author_id,
                    is_internal: input.is_internal,
                    content: input.content,
                    created_at: now,
                })
                &&& exists|p: int|
                    message_slot(old(self).message_rows(), now, p) && final(self).message_rows()
                        == old(self).message_rows().insert(p, m)
            },
    {
        if now < -TIME_LIMIT || now > TIME_LIMIT {
            return Err(SupportError::InvalidInput("time out of range".to_owned()));
        }
        if !self.ticket_id_taken(input.ticket_id) {
            return Err(SupportError::Database("message refers to no ticket".to_owned()));
        }
        if self.message_id_taken(id) {
            return Err(SupportError::Database("duplicate message id".to_owned()));
        }
        let m = new_message(author_id, input, id, now);
        let p = self.message_insertion_point(now);
        let ghost before = self.messages@;
        self.messages.insert(p, m.duplicate());
        proof {
            lemma_insert_in_slot(
                before,
                p as int,
                m,
                |x: TicketMessage| x.created_at as int,
                |x: TicketMessage| x.id,
            );
        }
        Ok(m)
    }

    /// The messages of one ticket, oldest first.
    pub fn get_messages(&self, ticket_id: u128) -> (r: Vec<TicketMessage>)
        ensures
            r@ == thread(self.message_rows(), ticket_id),
    {
        let mut out: Vec<TicketMessage> = Vec::new();
        let mut i: usize = 0;
        while i < self.messages.len()
            invariant
                i <= self.messages.len(),
                out@ == thread(self.messages@.take(i as int), ticket_id),
            decreases self.messages.len() - i,
        {
            assert(self.messages@.take(i as int + 1).drop_last() =~= self.messages@.take(i as int));
            if self.messages[i].ticket_id == ticket_id {
                out.push(self.messages[i].duplicate());
            }
            i = i + 1;
        }
        assert(self.messages@.take(i as int) =~= self.messages@);
        out
    }
}

} // verus!

verus! {

/// A ticket that has just been created is what a lookup by its id then finds:
/// the row holding the input, the assigned id and times, and status New.
pub proof fn lemma_create_then_find(
    before: Seq<SupportTicket>,
    product: Seq<char>,
    input: CreateTicketInput,
    id: u128,
    now: i64,
    t: SupportTicket,
    p: int,
)
    requires
        ticket_ids_unique(before),
        !has_ticket_id(before, id),
        opened(product, input, id, now, t),
        ticket_slot(before, now, p),
    ensures
        live_index(before.insert(p, t), id) == p,
        before.insert(p, t)[p] == t,
{
    let after = before.insert(p, t);
    let head = after.take(p);
    assert(head =~= before.take(p));
    lemma_live_index_bounds(head, id);
    if live_index(head, id) >= 0 {
        assert(before[live_index(head, id)].id == id);
    }
    assert(after.take(p + 1).drop_last() =~= head);
    lemma_live_index_extends(after, p + 1, id);
}

/// An update that supplies no field changes nothing but the update time.
pub proof fn lemma_empty_update(t: SupportTicket, u: UpdateTicketInput, now: i64)
    requires
        u.is_empty(),
    ensures
        merged(t, u, now) == (SupportTicket { updated_at: now, ..t }),
{
}

/// No live ticket with the id: the lookup finds nothing.
pub proof fn lemma_find_missing(s: Seq<SupportTicket>, id: u128)
    requires
        forall|i: int| 0 <= i < s.len() && #[trigger] s[i].id == id ==> !s[i].is_live(),
    ensures
        live_index(s, id) < 0,
{
    lemma_live_index_bounds(s, id);
}

/// Every listed ticket is a live ticket of the product that the filter accepts,
/// taken from the stored rows.
pub proof fn lemma_selected_only_listed(s: Seq<SupportTicket>, product: Seq<char>, f: TicketFilter)
    ensures
        forall|k: int|
            0 <= k < selected(s, product, f).len() ==> {
                &&& (#[trigger] selected(s, product, f)[k]).product@ == product
                &&& selected(s, product, f)[k].is_live()
                &&& f.accepts(selected(s, product, f)[k])
                &&& s.contains(selected(s, product, f)[k])
            },
    decreases s.len(),
{
    if s.len() > 0 {
        let rest = s.drop_first();
        lemma_selected_only_listed(rest, product, f);
        let l = selected(s, product, f);
        assert forall|k: int| 0 <= k < l.len() implies s.contains(#[trigger] l[k]) by {
            if k < selected(rest, product, f).len() {
                let j = choose|j: int| 0 <= j < rest.len() && rest[j] == l[k];
                assert(s[j + 1] == l[k]);
            } else {
                assert(s[0] == l[k]);
            }
        }
    }
}

/// Two adjacent pages together are the page that spans both.
pub proof fn lemma_pages_concat<T>(l: Seq<T>, offset: int, n: int, m: int)
    requires
        offset >= 0,
        n >= 0,
        m >= 0,
    ensures
        page(l, offset, n) + page(l, offset + n, m) == page(l, offset, n + m),
{
    assert(page(l, offset, n) + page(l, offset + n, m) =~= page(l, offset, n + m));
}

/// A ticket's messages come out in non-decreasing order of creation, each
/// one a stored message of that ticket.
pub proof fn lemma_thread_sorted(s: Seq<TicketMessage>, ticket_id: u128)
    requires
        messages_sorted(s),
    ensures
        messages_sorted(thread(s, ticket_id)),
        forall|k: int|
            0 <= k < thread(s, ticket_id).len() ==> s.contains(#[trigger] thread(s, ticket_id)[k])
                && thread(s, ticket_id)[k].ticket_id == ticket_id,
    decreases s.len(),
{
    if s.len() > 0 {
        let d = s.drop_last();
        lemma_thread_sorted(d, ticket_id);
        let r = thread(d, ticket_id);
        assert forall|k: int| 0 <= k < r.len() implies #[trigger] r[k].created_at
            <= s.last().created_at by {
            let j = choose|j: int| 0 <= j < d.len() && d[j] == r[k];
            assert(s[j] == r[k]);
        }
        let l = thread(s, ticket_id);
        assert forall|k: int| 0 <= k < l.len() implies s.contains(#[trigger] l[k]) by {
            if k < r.len() {
                let j = choose|j: int| 0 <= j < d.len() && d[j] == r[k];
                assert(s[j] == l[k]);
            } else {
                assert(s[s.len() - 1] == l[k]);
            }
        }
    }
}

} // verus!
