//! The error taxonomy of the engine.
use vstd::prelude::*;

verus! {

/// Every way an engine operation can refuse to act. Each operation's
/// contract says exactly which inputs produce which variant.
///
/// The variants carry no payload by design: every error is returned with
/// the store untouched, so the caller still holds the request and can read
/// the store, which together identify the offending product, quantity or
/// session when a detailed message is wanted at the boundary.
#[derive(Clone, Copy, Debug, PartialEq, Eq, Structural)]
pub enum PosError {
    /// A referenced entity (product, sale, session, user, category) is absent.
    NotFound,
    /// A sale line asks for more units than the product has in stock,
    /// or a negative adjustment would drive stock below zero.
    InsufficientStock,
    /// The payment tendered is less than the sale total.
    InsufficientPayment,
    /// A sale line references a deactivated product.
    ProductInactive,
    /// An inventory adjustment names a type outside add/positive/negative.
    InvalidAdjustmentType,
    /// A user record names a role outside admin/cashier.
    InvalidRole,
    /// A cash-register session is already open somewhere in the store.
    SessionAlreadyOpen,
    /// The targeted cash-register session is already closed.
    SessionAlreadyClosed,
    /// The targeted sale was already cancelled.
    SaleAlreadyCancelled,
    /// A unique key (barcode, category name, username) is already taken.
    DuplicateKey,
    /// The entity is still referenced by sales, sessions or adjustments.
    ReferencedEntity,
    /// An amount, quantity or identifier would pass the machine limit.
    LimitExceeded,
}

} // verus!
