//! Records of the order subsystem and the requests that create them.
use crate::money::Money;
use vstd::prelude::*;

verus! {

/// Where an order stands. Every order starts `Pending`; the only move made
/// here is `Pending` to `Cancelled`, the others come from payment and
/// fulfilment.
#[derive(Clone, Copy, Debug, PartialEq, Eq, Structural)]
pub enum OrderStatus {
    Pending,
    Paid,
    Shipped,
    Delivered,
    Cancelled,
}

/// How the buyer pays; stored, not processed.
#[derive(Clone, Copy, Debug, PartialEq, Eq, Structural)]
pub enum PaymentMethod {
    Paystack,
    Stripe,
    Cod,
}

/// Why an order operation failed.
#[derive(Clone, Copy, Debug, PartialEq, Eq, Structural)]
pub enum OrderError {
    /// The request is malformed: no items, a quantity below one, or a
    /// total that a decimal cannot hold exactly.
    InvalidInput,
    /// A variant, its product, or the order does not exist.
    NotFound,
    /// The caller neither owns the order nor is staff.
    Forbidden,
    /// The order is not pending and so cannot be cancelled.
    InvalidState,
    /// The store could not take the new rows.
    PersistenceError,
}

/// The user on whose behalf an operation runs.
#[derive(Clone, Copy, Debug, PartialEq, Eq, Structural)]
pub struct Requester {
    pub id: i32,
    pub is_staff: bool,
}

/// One line of an order request.
#[derive(Clone, Copy, Debug, PartialEq, Eq, Structural)]
pub struct OrderItemCreateParams {
    pub product_variant_id: i32,
    pub quantity: i32,
}

/// An order request.
#[derive(Debug)]
pub struct OrderCreateParams {
    pub payment_method: PaymentMethod,
    pub shipping_address: String,
    pub items: Vec<OrderItemCreateParams>,
}

/// A stored order.
#[derive(Debug)]
pub struct OrderModel {
    pub id: i32,
    pub user_id: i32,
    pub status: OrderStatus,
    /// The total, fixed when the order was placed.
    pub amount: Money,
    pub payment_method: PaymentMethod,
    pub shipping_address: Option<String>,
    pub created_at: i64,
    pub updated_at: i64,
}

/// A stored line of an order.
#[derive(Clone, Copy, Debug, PartialEq, Eq, Structural)]
pub struct OrderItemModel {
    pub id: i32,
    pub order_id: i32,
    pub product_variant_id: i32,
    pub quantity: i32,
    /// The unit price when the order was placed.
    pub price: Money,
    pub created_at: i64,
    pub updated_at: i64,
}

/// A stored user account.
#[derive(Debug)]
pub struct UserModel {
    pub id: i32,
    /// The public id, in its text form.
    pub pid: String,
    pub name: String,
    pub email: String,
    /// When the email address was verified, if it was.
    pub email_verified_at: Option<i64>,
    pub is_staff: bool,
}

/// `requester` may see and act on an order of user `owner`.
pub open spec fn may_access(requester: Requester, owner: i32) -> bool {
    requester.is_staff || requester.id == owner
}

impl OrderModel {
    /// A copy of the order.
    pub fn duplicate(&self) -> (r: OrderModel)
        ensures
            r == *self,
    {
        let shipping_address = match &self.shipping_address {
            Some(a) => Some(a.clone()),
            None => None,
        };
        OrderModel {
            id: self.id,
            user_id: self.user_id,
            status: self.status,
            amount: self.amount,
            payment_method: self.payment_method,
            shipping_address,
            created_at: self.created_at,
            updated_at: self.updated_at,
        }
    }
}

/// Whether `requester` may see and act on an order of user `owner`.
pub fn can_access(requester: Requester, owner: i32) -> (r: bool)
    ensures
        r == may_access(requester, owner),
{
    requester.is_staff || requester.id == owner
}

} // verus!
