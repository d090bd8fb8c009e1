//! Cash-register sessions and reconciliation summaries.
use vstd::prelude::*;
use crate::AMOUNT_LIMIT;

verus! {

#[derive(Clone, Copy, Debug, PartialEq, Eq, Structural)]
pub enum SessionStatus {
    Open,
    Closed,
}

#[derive(Debug)]
pub struct CashRegisterSession {
    pub id: u64,
    pub user_id: u64,
    pub user_name: Option<String>,
    /// Cash float counted in when the session opened, in minor units.
    pub opening_amount: u64,
    /// Cash counted at close; absent while the session is open.
    pub closing_amount: Option<u64>,
    pub exchange_rate: Option<u64>,
    pub status: SessionStatus,
    pub opened_at: u64,
    pub closed_at: Option<u64>,
}

impl CashRegisterSession {
    /// Amounts bounded, and the closing fields present exactly when closed.
    pub open spec fn wf(self) -> bool {
        &&& self.opening_amount <= AMOUNT_LIMIT
        &&& (self.status is Open ==> self.closing_amount is None && self.closed_at is None)
        &&& (self.status is Closed ==> self.closing_amount is Some && self.closed_at is Some)
        &&& (self.closing_amount is Some ==> self.closing_amount->0 <= AMOUNT_LIMIT)
    }

    /// A field-for-field copy.
    pub fn duplicate(&self) -> (r: CashRegisterSession)
        ensures
            r == *self,
    {
        CashRegisterSession {
            id: self.id,
            user_id: self.user_id,
            user_name: crate::product::clone_opt_string(&self.user_name),
            opening_amount: self.opening_amount,
            closing_amount: self.closing_amount,
            exchange_rate: self.exchange_rate,
            status: self.status,
            opened_at: self.opened_at,
            closed_at: self.closed_at,
        }
    }
}

/// The reconciliation of counted cash against the cash expected from the
/// opening float plus completed sales.
#[derive(Debug)]
pub struct CashRegisterSummary {
    pub session: CashRegisterSession,
    /// Sum of `total` over completed sales of the session.
    pub total_sales: u64,
    /// Count of completed sales of the session.
    pub total_transactions: u64,
    /// The counted closing amount (zero when the session never closed).
    pub total_cash: u64,
    /// `opening_amount + total_sales`.
    pub expected_cash: u64,
    /// `total_cash - expected_cash`; negative when cash is missing.
    pub difference: i64,
}

pub struct OpenCashRegisterRequest {
    pub user_id: u64,
    pub opening_amount: u64,
    pub exchange_rate: Option<u64>,
}

pub struct CloseCashRegisterRequest {
    pub session_id: u64,
    pub closing_amount: u64,
}

pub struct DateRangeRequest {
    pub start_date: u64,
    pub end_date: u64,
}

} // verus!
