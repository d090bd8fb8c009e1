//! Cash-register session lifecycle and reconciliation.
use vstd::prelude::*;
use crate::AMOUNT_LIMIT;
use crate::errors::PosError;
use crate::cash_register::{
    CashRegisterSession, CashRegisterSummary, SessionStatus, OpenCashRegisterRequest,
    CloseCashRegisterRequest, DateRangeRequest,
};
use crate::store::{
    Store, has_session, session_at, index_of_session, has_open_session, has_user, user_at,
    completed_total, completed_count, find_session_index, find_user_index, lemma_session_index,
    lemma_user_index, lemma_same_ids_has_session, lemma_completed_total_absent,
    lemma_completed_take_le, session_sales_totals,
};

verus! {

/// A session the date-range query reports: it opened at or after the range
/// start, and it closed (or, while still open, opened) by the range end.
pub open spec fn session_in_range(s: CashRegisterSession, start: u64, end: u64) -> bool {
    &&& s.opened_at >= start
    &&& ((s.status is Closed && (s.closed_at matches Some(c) && c <= end)) || (s.status is Open
        && s.opened_at <= end))
}

/// The sessions within a date range, oldest first.
pub open spec fn sessions_in_range(
    sessions: Seq<CashRegisterSession>,
    start: u64,
    end: u64,
) -> Seq<CashRegisterSession>
    decreases sessions.len(),
{
    if sessions.len() == 0 {
        Seq::empty()
    } else {
        let rest = sessions_in_range(sessions.drop_last(), start, end);
        if session_in_range(sessions.last(), start, end) {
            rest.push(sessions.last())
        } else {
            rest
        }
    }
}

/// Reverses a session list, moving the elements.
fn reversed_sessions(v: Vec<CashRegisterSession>) -> (r: Vec<CashRegisterSession>)
    ensures
        r@.len() == v@.len(),
        forall|i: int| 0 <= i < r@.len() ==> #[trigger] r@[i] == v@[v@.len() - 1 - i],
{
    let ghost v0 = v@;
    let mut v = v;
    let mut r: Vec<CashRegisterSession> = Vec::new();
    while v.len() > 0
        invariant
            v@ =~= v0.take(v@.len() as int),
            r@.len() + v@.len() == v0.len(),
            forall|i: int| 0 <= i < r@.len() ==> #[trigger] r@[i] == v0[v0.len() - 1 - i],
        decreases v@.len(),
    {
        let ghost l = v@.len() as int;
        match v.pop() {
            Some(x) => {
                proof {
                    assert(v0.take(l).drop_last() =~= v0.take(l - 1));
                    assert(x == v0[l - 1]);
                }
                r.push(x);
            },
            None => {
            },
        }
    }
    r
}

/// First index holding an open session, if any.
fn find_open_index(sessions: &Vec<CashRegisterSession>) -> (r: Option<usize>)
    ensures
        match r {
            Some(i) => i < sessions@.len() && sessions@[i as int].status is Open,
            None => !has_open_session(sessions@),
        },
{
    let mut i: usize = 0;
    while i < sessions.len()
        invariant
            i <= sessions@.len(),
            forall|j: int| 0 <= j < i ==> !((#[trigger] sessions@[j]).status is Open),
        decreases sessions@.len() - i,
    {
        if sessions[i].status == SessionStatus::Open {
            return Some(i);
        }
        i = i + 1;
    }
    None
}

impl Store {
    /// Opens a new cash-drawer session with the given opening float.
    /// Refused while any session anywhere in the store is still open, so at
    /// most one session is ever open at a time.
    pub fn open_cash_register(&mut self, request: &OpenCashRegisterRequest, now: u64) -> (r:
        Result<CashRegisterSession, PosError>)
        requires
            old(self).wf(),
        ensures
            final(self).wf(),
            has_open_session(old(self).sessions@) ==> r == Err::<CashRegisterSession, PosError>(
                PosError::SessionAlreadyOpen,
            ) && *final(self) == *old(self),
            !has_open_session(old(self).sessions@) && !has_user(
                old(self).users@,
                request.user_id,
            ) ==> r == Err::<CashRegisterSession, PosError>(PosError::NotFound) && *final(self)
                == *old(self),
            !has_open_session(old(self).sessions@) && has_user(old(self).users@, request.user_id)
                && (request.opening_amount > AMOUNT_LIMIT || old(self).next_session_id
                == u64::MAX) ==> r == Err::<CashRegisterSession, PosError>(PosError::LimitExceeded)
                && *final(self) == *old(self),
            !has_open_session(old(self).sessions@) && has_user(old(self).users@, request.user_id)
                && request.opening_amount <= AMOUNT_LIMIT && old(self).next_session_id < u64::MAX
                ==> ({
                let s = (CashRegisterSession {
                    id: old(self).next_session_id,
                    user_id: request.user_id,
                    user_name: Some(user_at(old(self).users@, request.user_id).user.full_name),
                    opening_amount: request.opening_amount,
                    closing_amount: None,
                    exchange_rate: request.exchange_rate,
                    status: SessionStatus::Open,
                    opened_at: now,
                    closed_at: None,
                });
                &&& r == Ok::<CashRegisterSession, PosError>(s)
                &&& final(self).sessions@ == old(self).sessions@.push(s)
                &&& final(self).next_session_id == old(self).next_session_id + 1
                &&& final(self).products == old(self).products
                &&& final(self).categories == old(self).categories
                &&& final(self).users == old(self).users
                &&& final(self).sales == old(self).sales
                &&& final(self).adjustments == old(self).adjustments
                &&& final(self).next_product_id == old(self).next_product_id
                &&& final(self).next_category_id == old(self).next_category_id
                &&& final(self).next_user_id == old(self).next_user_id
                &&& final(self).next_sale_id == old(self).next_sale_id
                &&& final(self).next_sale_item_id == old(self).next_sale_item_id
                &&& final(self).next_adjustment_id == old(self).next_adjustment_id
            }),
    {
        if let Some(_i) = find_open_index(&self.sessions) {
            return Err(PosError::SessionAlreadyOpen);
        }
        let uidx = match find_user_index(&self.users, request.user_id) {
            None => {
                return Err(PosError::NotFound);
            },
            Some(i) => i,
        };
        proof {
            lemma_user_index(self.users@, request.user_id, uidx as int);
        }
        if request.opening_amount > AMOUNT_LIMIT || self.next_session_id == u64::MAX {
            return Err(PosError::LimitExceeded);
        }
        let session = CashRegisterSession {
            id: self.next_session_id,
            user_id: request.user_id,
            user_name: Some(self.users[uidx].user.full_name.clone()),
            opening_amount: request.opening_amount,
            closing_amount: None,
            exchange_rate: request.exchange_rate,
            status: SessionStatus::Open,
            opened_at: now,
            closed_at: None,
        };
        let ret = session.duplicate();
        let ghost o = *self;
        self.sessions.push(session);
        self.next_session_id = self.next_session_id + 1;
        proof {
            lemma_same_ids_has_session(o.sessions@, self.sessions@.drop_last());
            assert(self.sessions@.drop_last() =~= o.sessions@);
            assert forall|i: int| 0 <= i < self.sales@.len() implies has_session(
                self.sessions@,
                (#[trigger] self.sales@[i]).cash_register_session_id,
            ) by {
                assert(has_session(o.sessions@, self.sales@[i].cash_register_session_id));
                let w = choose|w: int|
                    0 <= w < o.sessions@.len() && o.sessions@[w].id
                        == self.sales@[i].cash_register_session_id;
                assert(self.sessions@[w].id == self.sales@[i].cash_register_session_id);
            }
            assert forall|i: int| 0 <= i < self.sessions@.len() implies completed_total(
                self.sales@,
                (#[trigger] self.sessions@[i]).id,
            ) <= AMOUNT_LIMIT by {
                if i < o.sessions@.len() {
                } else {
                    assert forall|k: int| 0 <= k < self.sales@.len() implies (#[trigger] self
                        .sales@[k]).cash_register_session_id != o.next_session_id by {
                        let w = choose|w: int|
                            0 <= w < o.sessions@.len() && o.sessions@[w].id
                                == self.sales@[k].cash_register_session_id;
                    }
                    lemma_completed_total_absent(self.sales@, o.next_session_id);
                }
            }
            assert(self.wf());
        }
        Ok(ret)
    }

    /// Closes an open session in one atomic step: records the counted cash
    /// and the closing time, and computes the reconciliation summary from
    /// the completed sales the session accrued.
    pub fn close_cash_register(&mut self, request: &CloseCashRegisterRequest, now: u64) -> (r:
        Result<CashRegisterSummary, PosError>)
        requires
            old(self).wf(),
        ensures
            final(self).wf(),
            !has_session(old(self).sessions@, request.session_id) ==> r == Err::<
                CashRegisterSummary,
                PosError,
            >(PosError::NotFound) && *final(self) == *old(self),
            has_session(old(self).sessions@, request.session_id) ==> ({
                let s = session_at(old(self).sessions@, request.session_id);
                &&& (s.status is Closed ==> r == Err::<CashRegisterSummary, PosError>(
                    PosError::SessionAlreadyClosed,
                ) && *final(self) == *old(self))
                &&& (s.status is Open && request.closing_amount > AMOUNT_LIMIT ==> r == Err::<
                    CashRegisterSummary,
                    PosError,
                >(PosError::LimitExceeded) && *final(self) == *old(self))
                &&& (s.status is Open && request.closing_amount <= AMOUNT_LIMIT ==> ({
                    let ns = (CashRegisterSession {
                        status: SessionStatus::Closed,
                        closing_amount: Some(request.closing_amount),
                        closed_at: Some(now),
                        ..s
                    });
                    let total = completed_total(old(self).sales@, request.session_id);
                    let count = completed_count(old(self).sales@, request.session_id);
                    &&& final(self).sessions@ == old(self).sessions@.update(
                        index_of_session(old(self).sessions@, request.session_id),
                        ns,
                    )
                    &&& (r matches Ok(sum) && {
                        &&& sum.session == ns
                        &&& sum.total_sales as int == total
                        &&& sum.total_transactions as int == count
                        &&& sum.total_cash == request.closing_amount
                        &&& sum.expected_cash as int == s.opening_amount + total
                        &&& sum.difference as int == request.closing_amount - (s.opening_amount
                            + total)
                    })
                    &&& final(self).products == old(self).products
                    &&& final(self).categories == old(self).categories
                    &&& final(self).users == old(self).users
                    &&& final(self).sales == old(self).sales
                    &&& final(self).adjustments == old(self).adjustments
                    &&& final(self).next_product_id == old(self).next_product_id
                    &&& final(self).next_category_id == old(self).next_category_id
                    &&& final(self).next_user_id == old(self).next_user_id
                    &&& final(self).next_session_id == old(self).next_session_id
                    &&& final(self).next_sale_id == old(self).next_sale_id
                    &&& final(self).next_sale_item_id == old(self).next_sale_item_id
                    &&& final(self).next_adjustment_id == old(self).next_adjustment_id
                }))
            }),
    {
        let sidx = match find_session_index(&self.sessions, request.session_id) {
            None => {
                return Err(PosError::NotFound);
            },
            Some(i) => i,
        };
        proof {
            lemma_session_index(self.sessions@, request.session_id, sidx as int);
        }
        if self.sessions[sidx].status == SessionStatus::Closed {
            return Err(PosError::SessionAlreadyClosed);
        }
        if request.closing_amount > AMOUNT_LIMIT {
            return Err(PosError::LimitExceeded);
        }
        let totals = session_sales_totals(&self.sales, request.session_id);
        let total_sales = totals.0;
        let total_transactions = totals.1;
        let mut ns = self.sessions[sidx].duplicate();
        ns.status = SessionStatus::Closed;
        ns.closing_amount = Some(request.closing_amount);
        ns.closed_at = Some(now);
        let session_copy = ns.duplicate();
        let ghost o = *self;
        self.sessions[sidx] = ns;
        proof {
            lemma_same_ids_has_session(o.sessions@, self.sessions@);
            assert(self.wf());
        }
        let expected_cash = session_copy.opening_amount + total_sales;
        let difference: i64 = (request.closing_amount as i64) - (expected_cash as i64);
        Ok(
            CashRegisterSummary {
                session: session_copy,
                total_sales,
                total_transactions,
                total_cash: request.closing_amount,
                expected_cash,
                difference,
            },
        )
    }

    /// Recomputes the reconciliation summary of a session, open or closed,
    /// without changing anything; an open session counts as zero cash.
    pub fn get_cash_register_summary(&self, session_id: u64) -> (r: Result<
        CashRegisterSummary,
        PosError,
    >)
        requires
            self.wf(),
        ensures
            !has_session(self.sessions@, session_id) ==> r == Err::<CashRegisterSummary, PosError>(
                PosError::NotFound,
            ),
            has_session(self.sessions@, session_id) ==> ({
                let s = session_at(self.sessions@, session_id);
                let closing = match s.closing_amount {
                    Some(c) => c,
                    None => 0,
                };
                let total = completed_total(self.sales@, session_id);
                let count = completed_count(self.sales@, session_id);
                r matches Ok(sum) && {
                    &&& sum.session == s
                    &&& sum.total_sales as int == total
                    &&& sum.total_transactions as int == count
                    &&& sum.total_cash == closing
                    &&& sum.expected_cash as int == s.opening_amount + total
                    &&& sum.difference as int == closing - (s.opening_amount + total)
                }
            }),
    {
        let sidx = match find_session_index(&self.sessions, session_id) {
            None => {
                return Err(PosError::NotFound);
            },
            Some(i) => i,
        };
        proof {
            lemma_session_index(self.sessions@, session_id, sidx as int);
        }
        let totals = session_sales_totals(&self.sales, session_id);
        let session_copy = self.sessions[sidx].duplicate();
        let closing = match session_copy.closing_amount {
            Some(c) => c,
            None => 0,
        };
        let expected_cash = session_copy.opening_amount + totals.0;
        let difference: i64 = (closing as i64) - (expected_cash as i64);
        Ok(
            CashRegisterSummary {
                session: session_copy,
                total_sales: totals.0,
                total_transactions: totals.1,
                total_cash: closing,
                expected_cash,
                difference,
            },
        )
    }

    /// Every session, newest first.
    pub fn get_cash_register_sessions(&self) -> (r: Vec<CashRegisterSession>)
        requires
            self.wf(),
        ensures
            r@.len() == self.sessions@.len(),
            forall|k: int|
                0 <= k < r@.len() ==> #[trigger] r@[k] == self.sessions@[self.sessions@.len() - 1
                    - k],
            forall|a: int, b: int|
                0 <= a < b < r@.len() ==> (#[trigger] r@[a]).id > (#[trigger] r@[b]).id,
    {
        let mut r: Vec<CashRegisterSession> = Vec::new();
        let mut i: usize = self.sessions.len();
        while i > 0
            invariant
                crate::store::sessions_ordered(self.sessions@),
                i <= self.sessions@.len(),
                r@.len() == self.sessions@.len() - i,
                forall|k: int|
                    0 <= k < r@.len() ==> #[trigger] r@[k] == self.sessions@[self.sessions@.len()
                        - 1 - k],
            decreases i,
        {
            i = i - 1;
            r.push(self.sessions[i].duplicate());
        }
        r
    }

    /// Loads one session by id.
    pub fn get_cash_register_session(&self, id: u64) -> (r: Result<CashRegisterSession, PosError>)
        requires
            self.wf(),
        ensures
            has_session(self.sessions@, id) ==> r == Ok::<CashRegisterSession, PosError>(
                session_at(self.sessions@, id),
            ),
            !has_session(self.sessions@, id) ==> r == Err::<CashRegisterSession, PosError>(
                PosError::NotFound,
            ),
    {
        let idx = match find_session_index(&self.sessions, id) {
            None => {
                return Err(PosError::NotFound);
            },
            Some(i) => i,
        };
        proof {
            lemma_session_index(self.sessions@, id, idx as int);
        }
        Ok(self.sessions[idx].duplicate())
    }

    /// The currently open session, if one exists anywhere in the store.
    pub fn get_open_cash_register(&self) -> (r: Option<CashRegisterSession>)
        ensures
            match r {
                Some(s) => s.status is Open && exists|i: int|
                    0 <= i < self.sessions@.len() && self.sessions@[i] == s,
                None => !has_open_session(self.sessions@),
            },
    {
        match find_open_index(&self.sessions) {
            Some(i) => {
                let s = self.sessions[i].duplicate();
                proof {
                    assert(self.sessions@[i as int] == s);
                }
                Some(s)
            },
            None => None,
        }
    }

    /// The open session of one user, if that user has one.
    pub fn get_open_cash_register_by_user(&self, user_id: u64) -> (r: Option<CashRegisterSession>)
        ensures
            match r {
                Some(s) => s.status is Open && s.user_id == user_id && exists|i: int|
                    0 <= i < self.sessions@.len() && self.sessions@[i] == s,
                None => !exists|i: int|
                    0 <= i < self.sessions@.len() && (#[trigger] self.sessions@[i]).status is Open
                        && self.sessions@[i].user_id == user_id,
            },
    {
        let mut i: usize = 0;
        while i < self.sessions.len()
            invariant
                i <= self.sessions@.len(),
                forall|j: int|
                    0 <= j < i ==> !((#[trigger] self.sessions@[j]).status is Open
                        && self.sessions@[j].user_id == user_id),
            decreases self.sessions@.len() - i,
        {
            if self.sessions[i].status == SessionStatus::Open && self.sessions[i].user_id
                == user_id {
                return Some(self.sessions[i].duplicate());
            }
            i = i + 1;
        }
        None
    }

    /// The sessions that ran within a date range, newest first.
    pub fn get_cash_register_sessions_by_date_range(&self, request: &DateRangeRequest) -> (r: Vec<
        CashRegisterSession,
    >)
        ensures
            ({
                let f = sessions_in_range(self.sessions@, request.start_date, request.end_date);
                r@.len() == f.len() && forall|k: int|
                    0 <= k < r@.len() ==> #[trigger] r@[k] == f[f.len() - 1 - k]
            }),
    {
        let mut r: Vec<CashRegisterSession> = Vec::new();
        let mut i: usize = 0;
        while i < self.sessions.len()
            invariant
                i <= self.sessions@.len(),
                r@ == sessions_in_range(
                    self.sessions@.take(i as int),
                    request.start_date,
                    request.end_date,
                ),
            decreases self.sessions@.len() - i,
        {
            proof {
                assert(self.sessions@.take(i + 1 as int).drop_last() =~= self.sessions@.take(
                    i as int,
                ));
                assert(self.sessions@.take(i + 1 as int).last() == self.sessions@[i as int]);
            }
            let s = &self.sessions[i];
            let in_r = s.opened_at >= request.start_date && (match s.closed_at {
                Some(c) => s.status == SessionStatus::Closed && c <= request.end_date,
                None => false,
            } || (s.status == SessionStatus::Open && s.opened_at <= request.end_date));
            if in_r {
                r.push(self.sessions[i].duplicate());
            }
            i = i + 1;
        }
        proof {
            assert(self.sessions@.take(self.sessions@.len() as int) =~= self.sessions@);
        }
        reversed_sessions(r)
    }
}

} // verus!
