use vstd::prelude::*;

verus! {

/// Largest magnitude a stored time may have, in seconds from the epoch
/// (about 139,000 years either way, inside the range of calendar dates).
pub const TIME_LIMIT: i64 = 4398046511104;

/// Seconds in one hour.
pub const HOUR: i64 = 3600;

/// Seconds in one calendar day.
pub const DAY: i64 = 86400;

pub open spec fn time_ok(t: i64) -> bool {
    -TIME_LIMIT <= t <= TIME_LIMIT
}

pub open spec fn opt_time_ok(t: Option<i64>) -> bool {
    match t {
        Some(v) => time_ok(v),
        None => true,
    }
}

#[derive(Debug, Clone, Copy, PartialEq, Eq, Structural)]
pub enum TicketStatus {
    New,
    InProgress,
    WaitingOnCustomer,
    Resolved,
    Closed,
}

impl TicketStatus {
    /// Whether work on the ticket is finished (resolved or closed).
    pub open spec fn is_done(self) -> bool {
        self == TicketStatus::Resolved || self == TicketStatus::Closed
    }

    pub open spec fn code_spec(self) -> Seq<char> {
        match self {
            TicketStatus::New => "NEW"@,
            TicketStatus::InProgress => "IN_PROGRESS"@,
            TicketStatus::WaitingOnCustomer => "WAITING_ON_CUSTOMER"@,
            TicketStatus::Resolved => "RESOLVED"@,
            TicketStatus::Closed => "CLOSED"@,
        }
    }

    /// The code under which the status is stored.
    pub fn code(&self) -> (r: String)
        ensures
            r@ == self.code_spec(),
    {
        match self {
            TicketStatus::New => "NEW".to_owned(),
            TicketStatus::InProgress => "IN_PROGRESS".to_owned(),
            TicketStatus::WaitingOnCustomer => "WAITING_ON_CUSTOMER".to_owned(),
            TicketStatus::Resolved => "RESOLVED".to_owned(),
            TicketStatus::Closed => "CLOSED".to_owned(),
        }
    }

    /// Whether work on the ticket is finished (resolved or closed).
    pub fn done(&self) -> (r: bool)
        ensures
            r == self.is_done(),
    {
        match self {
            TicketStatus::Resolved | TicketStatus::Closed => true,
            _ => false,
        }
    }
}

#[derive(Debug, Clone, Copy, PartialEq, Eq, Structural)]
pub enum TicketPriority {
    Low,
    Medium,
    High,
    Urgent,
}

impl TicketPriority {
    pub open spec fn code_spec(self) -> Seq<char> {
        match self {
            TicketPriority::Low => "LOW"@,
            TicketPriority::Medium => "MEDIUM"@,
            TicketPriority::High => "HIGH"@,
            TicketPriority::Urgent => "URGENT"@,
        }
    }

    /// The code under which the priority is stored.
    pub fn code(&self) -> (r: String)
        ensures
            r@ == self.code_spec(),
    {
        match self {
            TicketPriority::Low => "LOW".to_owned(),
            TicketPriority::Medium => "MEDIUM".to_owned(),
            TicketPriority::High => "HIGH".to_owned(),
            TicketPriority::Urgent => "URGENT".to_owned(),
        }
    }

    /// Severity rank: 1 for the most urgent, 4 for the least.
    pub open spec fn rank_spec(self) -> int {
        match self {
            TicketPriority::Urgent => 1,
            TicketPriority::High => 2,
            TicketPriority::Medium => 3,
            TicketPriority::Low => 4,
        }
    }
}

/// An exact rational value `numerator / denominator`.
#[derive(Debug, Clone, Copy, PartialEq, Eq, Structural)]
pub struct Fraction {
    pub numerator: i128,
    pub denominator: i128,
}

impl Fraction {
    pub open spec fn is(self, n: int, d: int) -> bool {
        self.numerator as int == n && self.denominator as int == d
    }
}

#[derive(Debug, Clone)]
pub struct SupportTicket {
    pub id: u128,
    pub product: String,
    pub customer_id: u128,
    pub subject: String,
    pub description: String,
    pub status: TicketStatus,
    pub priority: TicketPriority,
    pub category: Option<String>,
    pub assigned_to: Option<u128>,
    pub first_response_at: Option<i64>,
    pub resolved_at: Option<i64>,
    pub closed_at: Option<i64>,
    pub sla_breach: bool,
    pub csat_score: Option<i32>,
    pub created_at: i64,
    pub updated_at: i64,
    pub deleted_at: Option<i64>,
}

pub fn copy_text(s: &Option<String>) -> (r: Option<String>)
    ensures
        r == *s,
{
    match s {
        Some(v) => Some(v.clone()),
        None => None,
    }
}

impl SupportTicket {
    /// All times of the row lie within the range a row may hold.
    pub open spec fn wf(&self) -> bool {
        &&& time_ok(self.created_at)
        &&& time_ok(self.updated_at)
        &&& opt_time_ok(self.first_response_at)
        &&& opt_time_ok(self.resolved_at)
        &&& opt_time_ok(self.closed_at)
        &&& opt_time_ok(self.deleted_at)
    }

    pub open spec fn is_live(&self) -> bool {
        self.deleted_at is None
    }

    /// A field-for-field copy.
    pub fn duplicate(&self) -> (r: SupportTicket)
        ensures
            r == *self,
    {
        SupportTicket {
            id: self.id,
            product: self.product.clone(),
            customer_id: self.customer_id,
            subject: self.subject.clone(),
            description: self.description.clone(),
            status: self.status,
            priority: self.priority,
            category: copy_text(&self.category),
            assigned_to: self.assigned_to,
            first_response_at: self.first_response_at,
            resolved_at: self.resolved_at,
            closed_at: self.closed_at,
            sla_breach: self.sla_breach,
            csat_score: self.csat_score,
            created_at: self.created_at,
            updated_at: self.updated_at,
            deleted_at: self.deleted_at,
        }
    }
}

#[derive(Debug, Clone)]
pub struct TicketMessage {
    pub id: u128,
    pub ticket_id: u128,
    pub author_id: u128,
    pub is_internal: bool,
    pub content: String,
    pub created_at: i64,
}

impl TicketMessage {
    /// A field-for-field copy.
    pub fn duplicate(&self) -> (r: TicketMessage)
        ensures
            r == *self,
    {
        TicketMessage {
            id: self.id,
            ticket_id: self.ticket_id,
            author_id: self.author_id,
            is_internal: self.is_internal,
            content: self.content.clone(),
            created_at: self.created_at,
        }
    }
}

#[derive(Debug, Clone)]
pub struct CreateTicketInput {
    pub customer_id: u128,
    pub subject: String,
    pub description: String,
    pub priority: TicketPriority,
    pub category: Option<String>,
}

#[derive(Debug, Clone)]
pub struct UpdateTicketInput {
    pub subject: Option<String>,
    pub description: Option<String>,
    pub status: Option<TicketStatus>,
    pub priority: Option<TicketPriority>,
    pub category: Option<String>,
    pub assigned_to: Option<u128>,
}

impl UpdateTicketInput {
    /// An update that supplies no field.
    pub open spec fn is_empty(&self) -> bool {
        &&& self.subject is None
        &&& self.description is None
        &&& self.status is None
        &&& self.priority is None
        &&& self.category is None
        &&& self.assigned_to is None
    }
}

#[derive(Debug, Clone)]
pub struct AddTicketMessageInput {
    pub ticket_id: u128,
    pub content: String,
    pub is_internal: bool,
}

/// Optional predicates over tickets. `category` and `search_query` are
/// accepted but constrain nothing.
#[derive(Debug, Clone)]
pub struct TicketFilter {
    pub status: Option<TicketStatus>,
    pub priority: Option<TicketPriority>,
    pub assigned_to: Option<u128>,
    pub customer_id: Option<u128>,
    pub category: Option<String>,
    pub search_query: Option<String>,
}

impl TicketFilter {
    /// The filter that constrains nothing.
    pub fn empty() -> (r: TicketFilter)
        ensures
            r.status is None,
            r.priority is None,
            r.assigned_to is None,
            r.customer_id is None,
            r.category is None,
            r.search_query is None,
    {
        TicketFilter {
            status: None,
            priority: None,
            assigned_to: None,
            customer_id: None,
            category: None,
            search_query: None,
        }
    }

    /// Every field that the filter supplies, and that it applies, matches.
    pub open spec fn accepts(&self, t: SupportTicket) -> bool {
        &&& (self.status matches Some(s) ==> t.status == s)
        &&& (self.priority matches Some(p) ==> t.priority == p)
        &&& (self.assigned_to matches Some(a) ==> t.assigned_to == Some(a))
        &&& (self.customer_id matches Some(c) ==> t.customer_id == c)
    }
}

#[derive(Debug, Clone, PartialEq, Eq)]
pub enum SupportError {
    /// The backing store refused or failed the operation.
    Database(String),
    TicketNotFound(u128),
    MessageNotFound(u128),
    InvalidInput(String),
    Validation(String),
    Unauthorized,
    Internal(String),
}

} // verus!
