//! Support tickets, their message threads, and the dashboard analytics
//! computed over them.
//!
//! Times are whole seconds since the Unix epoch (UTC), identifiers are the
//! 128-bit values of UUIDs, and every ratio or mean is returned as an exact
//! [`Fraction`] of integers.

pub mod api;
pub mod metrics;
pub mod models;
pub mod store;

pub use api::{page_bounds, SupportMutations, SupportQueries};
pub use metrics::{
    dashboard_metrics, overview_metrics, priority_counts, response_metrics, sla_metrics,
    status_counts, ticket_trends, top_agents, CrmCoreAgentPerformance,
    CrmCoreResponseMetrics, CrmCoreSlaMetrics, CrmCoreSupportDashboardMetrics,
    CrmCoreSupportOverviewMetrics, CrmCoreTicketPriorityCount, CrmCoreTicketStatusCount,
    CrmCoreTicketTrend,
};
pub use models::{
    AddTicketMessageInput, CreateTicketInput, Fraction, SupportError, SupportTicket, TicketFilter,
    TicketMessage, TicketPriority, TicketStatus, UpdateTicketInput,
};
pub use store::{
    find_live, list_rows, new_message, new_ticket, SupportRepository, DEFAULT_LIMIT,
};
