use vstd::prelude::*;

use crate::metrics::CrmCoreSupportDashboardMetrics;
use crate::models::{
    time_ok, AddTicketMessageInput, CreateTicketInput, SupportError, SupportTicket, TicketFilter,
    TicketMessage, UpdateTicketInput,
};
use crate::metrics::rows_ok;
use crate::store::{
    has_message_id, has_ticket_id, live_index, merged, message_slot, opened, page, selected, thread,
    ticket_slot,
    SupportRepository, DEFAULT_LIMIT,
};

verus! {

/// Read operations, with the defaults that callers may leave out.
/// Callers authenticate and authorise requests before calling.
pub struct SupportQueries;

/// Write operations. Callers authenticate and authorise requests before calling.
pub struct SupportMutations;

/// The page size and start that a listing uses: twenty from the first
/// ticket unless the caller says otherwise.
pub fn page_bounds(limit: Option<i64>, offset: Option<i64>) -> (r: (i64, i64))
    ensures
        r.0 == (match limit {
            Some(l) => l,
            None => DEFAULT_LIMIT,
        }),
        r.1 == (match offset {
            Some(o) => o,
            None => 0,
        }),
{
    let lim = match limit {
        Some(l) => l,
        None => DEFAULT_LIMIT,
    };
    let off = match offset {
        Some(o) => o,
        None => 0,
    };
    (lim, off)
}

impl SupportQueries {
    /// The live ticket with this id.
    pub fn support_ticket(&self, repo: &SupportRepository, id: u128) -> (r: Result<
        SupportTicket,
        SupportError,
    >)
        ensures
            live_index(repo.ticket_rows(), id) >= 0 ==> r == Ok::<SupportTicket, SupportError>(
                repo.ticket_rows()[live_index(repo.ticket_rows(), id)],
            ),
            live_index(repo.ticket_rows(), id) < 0 ==> r == Err::<SupportTicket, SupportError>(
                SupportError::TicketNotFound(id),
            ),
    {
        repo.find_by_id(id)
    }

    /// Tickets of `product`, newest first; no filter constrains nothing, and
    /// the page defaults to the first twenty.
    pub fn support_tickets(
        &self,
        repo: &SupportRepository,
        product: &str,
        filter: Option<TicketFilter>,
        limit: Option<i64>,
        offset: Option<i64>,
    ) -> (r: Result<Vec<SupportTicket>, SupportError>)
        ensures
            ({
                let f = match filter {
                    Some(f) => f,
                    None => TicketFilter {
                        status: None,
                        priority: None,
                        assigned_to: None,
                        customer_id: None,
                        category: None,
                        search_query: None,
                    },
                };
                let lim = match limit {
                    Some(l) => l,
                    None => DEFAULT_LIMIT,
                };
                let off = match offset {
                    Some(o) => o,
                    None => 0,
                };
                &&& (r is Err <==> lim < 0 || off < 0)
                &&& (r is Err ==> r matches Err(SupportError::InvalidInput(_)))
                &&& (r matches Ok(v) ==> v@ == page(
                    selected(repo.ticket_rows(), product@, f),
                    off as int,
                    lim as int,
                ))
            }),
    {
        let f = match filter {
            Some(f) => f,
            None => TicketFilter::empty(),
        };
        let (lim, off) = page_bounds(limit, offset);
        repo.list(product, &f, lim, off)
    }

    /// The ticket's messages, oldest first.
    pub fn ticket_messages(&self, repo: &SupportRepository, ticket_id: u128) -> (r: Vec<
        TicketMessage,
    >)
        ensures
            r@ == thread(repo.message_rows(), ticket_id),
    {
        repo.get_messages(ticket_id)
    }

    /// The dashboard of `product` for `[period_start, period_end]`.
    pub fn support_dashboard_metrics(
        &self,
        repo: &SupportRepository,
        product: &str,
        period_start: i64,
        period_end: i64,
        now: i64,
    ) -> (r: Result<CrmCoreSupportDashboardMetrics, SupportError>)
        ensures
            r is Ok <==> rows_ok(repo.ticket_rows()) && time_ok(period_end),
            r is Err ==> r matches Err(SupportError::InvalidInput(_)),
            r matches Ok(d) ==> d.describes(repo.ticket_rows(), product@, period_start, period_end, now),
    {
        repo.get_dashboard_metrics(product, period_start, period_end, now)
    }
}

impl SupportMutations {
    /// Creates a ticket; see `SupportRepository::create_ticket`.
    pub fn create_support_ticket(
        &self,
        repo: &mut SupportRepository,
        product: &str,
        input: &CreateTicketInput,
        id: u128,
        now: i64,
    ) -> (r: Result<SupportTicket, SupportError>)
        requires
            old(repo).wf(),
        ensures
            final(repo).wf(),
            final(repo).message_rows() == old(repo).message_rows(),
            r is Ok <==> time_ok(now) && !has_ticket_id(old(repo).ticket_rows(), id),
            !time_ok(now) ==> r matches Err(SupportError::InvalidInput(_)),
            time_ok(now) && has_ticket_id(old(repo).ticket_rows(), id) ==> r matches Err(
                SupportError::Database(_),
            ),
            r is Err ==> final(repo).ticket_rows() == old(repo).ticket_rows(),
            r matches Ok(t) ==> opened(product@, *input, id, now, t) && exists|p: int|
                ticket_slot(old(repo).ticket_rows(), now, p) && final(repo).ticket_rows()
                    == old(repo).ticket_rows().insert(p, t),
    {
        repo.create_ticket(product, input, id, now)
    }

    /// Updates a ticket; see `SupportRepository::update_ticket`.
    pub fn update_support_ticket(
        &self,
        repo: &mut SupportRepository,
        id: u128,
        input: &UpdateTicketInput,
        now: i64,
    ) -> (r: Result<SupportTicket, SupportError>)
        requires
            old(repo).wf(),
        ensures
            final(repo).wf(),
            final(repo).message_rows() == old(repo).message_rows(),
            !time_ok(now) ==> r matches Err(SupportError::InvalidInput(_)),
            time_ok(now) && live_index(old(repo).ticket_rows(), id) < 0 ==> r == Err::<
                SupportTicket,
                SupportError,
            >(SupportError::TicketNotFound(id)),
            r is Err ==> final(repo).ticket_rows() == old(repo).ticket_rows(),
            time_ok(now) && live_index(old(repo).ticket_rows(), id) >= 0 ==> {
                let k = live_index(old(repo).ticket_rows(), id);
                let t = merged(old(repo).ticket_rows()[k], *input, now);
                &&& r == Ok::<SupportTicket, SupportError>(t)
                &&& final(repo).ticket_rows() == old(repo).ticket_rows().update(k, t)
            },
    {
        repo.update_ticket(id, input, now)
    }

    /// Adds a message; see `SupportRepository::add_message`.
    pub fn add_ticket_message(
        &self,
        repo: &mut SupportRepository,
        author_id: u128,
        input: &AddTicketMessageInput,
        id: u128,
        now: i64,
    ) -> (r: Result<TicketMessage, SupportError>)
        requires
            old(repo).wf(),
        ensures
            final(repo).wf(),
            final(repo).ticket_rows() == old(repo).ticket_rows(),
            r is Ok <==> time_ok(now) && has_ticket_id(old(repo).ticket_rows(), input.ticket_id)
                && !has_message_id(old(repo).message_rows(), id),
            !time_ok(now) ==> r matches Err(SupportError::InvalidInput(_)),
            time_ok(now) && !(has_ticket_id(old(repo).ticket_rows(), input.ticket_id)
                && !has_message_id(old(repo).message_rows(), id)) ==> r matches Err(
                SupportError::Database(_),
            ),
            r is Err ==> final(repo).message_rows() == old(repo).message_rows(),
            r matches Ok(m) ==> {
                &&& m == (TicketMessage {
                    id,
                    ticket_id: input.ticket_id,
                    author_id,
                    is_internal: input.is_internal,
                    content: input.content,
                    created_at: now,
                })
                &&& exists|p: int|
                    message_slot(old(repo).message_rows(), now, p) && final(repo).message_rows()
                        == old(repo).message_rows().insert(p, m)
            },
    {
        repo.add_message(author_id, input, id, now)
    }
}

} // verus!
