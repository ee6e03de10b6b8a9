//! What the order endpoints hand back: orders with their lines, each line
//! with the variant and product it refers to.
use crate::catalog::{Product, ProductVariant, VariantWithProduct};
use crate::model::{OrderItemModel, OrderModel, UserModel};
use std::collections::HashMap;
use vstd::prelude::*;

verus! {

broadcast use vstd::std_specs::hash::group_hash_axioms;

/// A line of an order with its variant and, where it still exists, its
/// product.
#[derive(Debug)]
pub struct OrderItem {
    pub order_item: OrderItemModel,
    pub product: Option<Product>,
    pub product_variant: ProductVariant,
}

/// An order with its lines.
#[derive(Debug)]
pub struct Order {
    pub order: OrderModel,
    pub items: Vec<OrderItem>,
}

/// The lines whose variant the lookup knows, in order, each with what the
/// lookup gives for it.
pub open spec fn enrich_with(items: Seq<OrderItemModel>, m: Map<i32, VariantWithProduct>) -> Seq<OrderItem>
    decreases items.len(),
{
    if items.len() == 0 {
        seq![]
    } else {
        let rest = enrich_with(items.drop_last(), m);
        let it = items.last();
        if m.contains_key(it.product_variant_id) {
            rest.push(
                OrderItem {
                    order_item: it,
                    product: m[it.product_variant_id].1,
                    product_variant: m[it.product_variant_id].0,
                },
            )
        } else {
            rest
        }
    }
}

/// Two lookups that agree on the variants of the lines enrich them alike.
pub proof fn lemma_enrich_agree(
    items: Seq<OrderItemModel>,
    m1: Map<i32, VariantWithProduct>,
    m2: Map<i32, VariantWithProduct>,
)
    requires
        forall|j: int| 0 <= j < items.len() ==> (m1.contains_key(#[trigger] items[j].product_variant_id)
            <==> m2.contains_key(items[j].product_variant_id)),
        forall|j: int| 0 <= j < items.len() && m1.contains_key(#[trigger] items[j].product_variant_id)
            ==> m1[items[j].product_variant_id] == m2[items[j].product_variant_id],
    ensures
        enrich_with(items, m1) == enrich_with(items, m2),
    decreases items.len(),
{
    if items.len() > 0 {
        let rest = items.drop_last();
        assert forall|j: int| 0 <= j < rest.len() implies (m1.contains_key(#[trigger] rest[j].product_variant_id)
            <==> m2.contains_key(rest[j].product_variant_id)) by {
            assert(rest[j] == items[j]);
        }
        assert forall|j: int| 0 <= j < rest.len() && m1.contains_key(#[trigger] rest[j].product_variant_id)
            implies m1[rest[j].product_variant_id] == m2[rest[j].product_variant_id] by {
            assert(rest[j] == items[j]);
        }
        lemma_enrich_agree(rest, m1, m2);
        assert(items.last() == items[items.len() - 1]);
    }
}

/// A copy of what a lookup gives for a product.
fn duplicate_product(p: &Option<Product>) -> (r: Option<Product>)
    ensures
        r == *p,
{
    match p {
        Some(p) => Some(p.duplicate()),
        None => None,
    }
}

impl Order {
    /// The order with those of its lines whose variant the lookup knows,
    /// in order, each with its variant and product.
    pub fn create(
        order: OrderModel,
        order_items: Vec<OrderItemModel>,
        product_variants: &HashMap<i32, VariantWithProduct>,
    ) -> (r: Order)
        ensures
            r.order == order,
            r.items@ == enrich_with(order_items@, product_variants@),
    {
        let mut items: Vec<OrderItem> = Vec::new();
        let mut i: usize = 0;
        while i < order_items.len()
            invariant
                i <= order_items@.len(),
                items@ == enrich_with(order_items@.take(i as int), product_variants@),
            decreases order_items@.len() - i,
        {
            let it = order_items[i];
            let ghost before = order_items@.take(i as int);
            assert(order_items@.take(i + 1).drop_last() =~= before);
            assert(order_items@.take(i + 1).last() == it);
            match product_variants.get(&it.product_variant_id) {
                Some(entry) => {
                    items.push(
                        OrderItem {
                            order_item: it,
                            product: duplicate_product(&entry.1),
                            product_variant: entry.0.duplicate(),
                        },
                    );
                },
                None => {},
            }
            i = i + 1;
        }
        assert(order_items@.take(order_items@.len() as int) =~= order_items@);
        Order { order, items }
    }
}

/// What a successful login hands back.
#[derive(Debug)]
pub struct LoginResponse {
    pub token: String,
    pub pid: String,
    pub name: String,
    pub is_verified: bool,
    pub is_staff: bool,
}

impl LoginResponse {
    /// The response for `user`, who logged in and got `token`.
    pub fn new(user: &UserModel, token: &String) -> (r: LoginResponse)
        ensures
            r.token == *token,
            r.pid == user.pid,
            r.name == user.name,
            r.is_verified == user.email_verified_at is Some,
            r.is_staff == user.is_staff,
    {
        LoginResponse {
            token: token.clone(),
            pid: user.pid.clone(),
            name: user.name.clone(),
            is_verified: user.email_verified_at.is_some(),
            is_staff: user.is_staff,
        }
    }
}

/// The signed-in user, as the current-user endpoint shows them.
#[derive(Debug)]
pub struct CurrentResponse {
    pub pid: String,
    pub name: String,
    pub email: String,
    pub is_staff: bool,
}

impl CurrentResponse {
    /// The response for `user`.
    pub fn new(user: &UserModel) -> (r: CurrentResponse)
        ensures
            r.pid == user.pid,
            r.name == user.name,
            r.email == user.email,
            r.is_staff == user.is_staff,
    {
        CurrentResponse {
            pid: user.pid.clone(),
            name: user.name.clone(),
            email: user.email.clone(),
            is_staff: user.is_staff,
        }
    }
}

/// A user as shown beside what they wrote.
#[derive(Debug)]
pub struct User {
    pub id: i32,
    pub name: String,
}

/// How many items a paged listing has, and over how many pages.
#[derive(Clone, Copy, Debug, PartialEq, Eq, Structural)]
pub struct ItemsAndPagesNumber {
    pub total_items: u64,
    pub total_pages: u64,
}

/// One page of a listing.
#[derive(Debug)]
pub struct PageResponse<T> {
    pub counts: ItemsAndPagesNumber,
    pub items: Vec<T>,
}

} // verus!
