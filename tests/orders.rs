use rust_decimal::Decimal;
use shoes_store_api::catalog::{Catalog, Product, ProductVariant};
use shoes_store_api::model::{
    OrderCreateParams, OrderError, OrderItemCreateParams, OrderStatus, PaymentMethod, Requester,
};
use shoes_store_api::money::Money;
use shoes_store_api::store::Store;

fn money(mantissa: i128, scale: u32) -> Money {
    Money { mantissa, scale }
}

fn as_decimal(m: Money) -> Decimal {
    Decimal::from_i128_with_scale(m.mantissa, m.scale)
}

fn product(id: i32, price: Money) -> Product {
    Product { id, name: format!("shoe {}", id), price }
}

fn variant(id: i32, product_id: i32) -> ProductVariant {
    ProductVariant { id, product_id, sku: format!("SKU-{}", id), stock: 10 }
}

fn shop() -> Store {
    let catalog = Catalog {
        products: vec![product(1, money(1999, 2)), product(2, money(5, 0)), product(3, money(125, 1))],
        variants: vec![variant(7, 1), variant(8, 2), variant(9, 3), variant(10, 42)],
    };
    Store::new(catalog)
}

fn request(items: Vec<(i32, i32)>) -> OrderCreateParams {
    OrderCreateParams {
        payment_method: PaymentMethod::Cod,
        shipping_address: "12 Market Road".to_string(),
        items: items
            .into_iter()
            .map(|(product_variant_id, quantity)| OrderItemCreateParams { product_variant_id, quantity })
            .collect(),
    }
}

const ALICE: Requester = Requester { id: 1, is_staff: false };
const BOB: Requester = Requester { id: 2, is_staff: false };
const STAFF: Requester = Requester { id: 3, is_staff: true };

#[test]
fn create_single_line_order() {
    let mut store = shop();
    let order = store.create_order(ALICE, &request(vec![(7, 2)]), 100).unwrap();
    assert_eq!(as_decimal(order.order.amount), Decimal::new(3998, 2));
    assert_eq!(order.order.status, OrderStatus::Pending);
    assert_eq!(order.order.user_id, 1);
    assert_eq!(order.order.shipping_address.as_deref(), Some("12 Market Road"));
    assert_eq!(order.items.len(), 1);
    assert_eq!(as_decimal(order.items[0].order_item.price), Decimal::new(1999, 2));
    assert_eq!(order.items[0].order_item.quantity, 2);
    assert_eq!(order.items[0].product_variant.id, 7);
    assert_eq!(order.items[0].product.as_ref().unwrap().id, 1);
    assert_eq!(store.orders.len(), 1);
    assert_eq!(store.order_items.len(), 1);
}

#[test]
fn create_with_missing_variant_is_not_found() {
    let mut store = shop();
    let r = store.create_order(ALICE, &request(vec![(999, 1)]), 100);
    assert_eq!(r.unwrap_err(), OrderError::NotFound);
    assert!(store.orders.is_empty());
    assert!(store.order_items.is_empty());
}

#[test]
fn create_with_zero_quantity_is_invalid() {
    let mut store = shop();
    let r = store.create_order(ALICE, &request(vec![(7, 0)]), 100);
    assert_eq!(r.unwrap_err(), OrderError::InvalidInput);
    assert!(store.orders.is_empty());
    assert!(store.order_items.is_empty());
}

#[test]
fn zero_quantity_is_rejected_before_lookup() {
    let mut store = shop();
    let r = store.create_order(ALICE, &request(vec![(999, 0)]), 100);
    assert_eq!(r.unwrap_err(), OrderError::InvalidInput);
}

#[test]
fn create_with_empty_request_is_invalid() {
    let mut store = shop();
    let r = store.create_order(ALICE, &request(vec![]), 100);
    assert_eq!(r.unwrap_err(), OrderError::InvalidInput);
    assert!(store.orders.is_empty());
}

#[test]
fn variant_without_product_is_not_found() {
    let mut store = shop();
    let r = store.create_order(ALICE, &request(vec![(7, 1), (10, 1)]), 100);
    assert_eq!(r.unwrap_err(), OrderError::NotFound);
    assert!(store.orders.is_empty());
    assert!(store.order_items.is_empty());
}

#[test]
fn failed_create_leaves_store_unchanged() {
    let mut store = shop();
    store.create_order(ALICE, &request(vec![(8, 3)]), 100).unwrap();
    let r = store.create_order(ALICE, &request(vec![(7, 1), (999, 1)]), 200);
    assert_eq!(r.unwrap_err(), OrderError::NotFound);
    assert_eq!(store.orders.len(), 1);
    assert_eq!(store.order_items.len(), 1);
    assert_eq!(store.next_order_id, 2);
    assert_eq!(store.next_item_id, 2);
}

#[test]
fn total_mixes_scales_exactly() {
    let mut store = shop();
    let order = store.create_order(BOB, &request(vec![(7, 3), (8, 2), (9, 1)]), 100).unwrap();
    // 19.99 * 3 + 5 * 2 + 12.5 = 82.47
    assert_eq!(as_decimal(order.order.amount), Decimal::new(8247, 2));
    let mut sum = Decimal::ZERO;
    for item in &order.items {
        sum += as_decimal(item.order_item.price) * Decimal::from(item.order_item.quantity);
    }
    assert_eq!(sum, as_decimal(order.order.amount));
}

#[test]
fn total_that_overflows_is_invalid() {
    let catalog = Catalog {
        products: vec![product(1, money(79_228_162_514_264_337_593_543_950_335, 0))],
        variants: vec![variant(7, 1)],
    };
    let mut store = Store::new(catalog);
    let r = store.create_order(ALICE, &request(vec![(7, 2)]), 100);
    assert_eq!(r.unwrap_err(), OrderError::InvalidInput);
    assert!(store.orders.is_empty());
}

#[test]
fn exhausted_ids_are_a_persistence_error() {
    let mut store = shop();
    store.next_order_id = i32::MAX;
    let r = store.create_order(ALICE, &request(vec![(7, 1)]), 100);
    assert_eq!(r.unwrap_err(), OrderError::PersistenceError);
    assert!(store.orders.is_empty());
    assert!(store.order_items.is_empty());
}

#[test]
fn price_change_keeps_placed_orders() {
    let mut store = shop();
    let order = store.create_order(ALICE, &request(vec![(7, 2)]), 100).unwrap();
    assert!(store.set_product_price(1, money(2500, 2)));
    let again = store.get_order(ALICE, order.order.id).unwrap();
    assert_eq!(as_decimal(again.order.amount), Decimal::new(3998, 2));
    assert_eq!(as_decimal(again.items[0].order_item.price), Decimal::new(1999, 2));
    assert_eq!(as_decimal(again.items[0].product.as_ref().unwrap().price), Decimal::new(25, 0));
    let next = store.create_order(ALICE, &request(vec![(7, 2)]), 200).unwrap();
    assert_eq!(as_decimal(next.order.amount), Decimal::new(50, 0));
}

#[test]
fn set_price_of_unknown_product() {
    let mut store = shop();
    assert!(!store.set_product_price(77, money(1, 0)));
}

#[test]
fn list_shows_own_orders_only() {
    let mut store = shop();
    store.create_order(ALICE, &request(vec![(7, 1)]), 100).unwrap();
    store.create_order(BOB, &request(vec![(8, 1)]), 101).unwrap();
    store.create_order(ALICE, &request(vec![(9, 2)]), 102).unwrap();
    let alice = store.list_orders(ALICE);
    assert_eq!(alice.len(), 2);
    assert!(alice.iter().all(|o| o.order.user_id == 1));
    assert_eq!(alice[1].items[0].order_item.product_variant_id, 9);
    let bob = store.list_orders(BOB);
    assert_eq!(bob.len(), 1);
    assert_eq!(bob[0].order.user_id, 2);
    let all = store.list_orders(STAFF);
    assert_eq!(all.len(), 3);
}

#[test]
fn get_order_checks_owner() {
    let mut store = shop();
    let order = store.create_order(ALICE, &request(vec![(7, 1)]), 100).unwrap();
    let id = order.order.id;
    assert_eq!(store.get_order(BOB, id).unwrap_err(), OrderError::Forbidden);
    assert_eq!(store.get_order(ALICE, id).unwrap().order.id, id);
    assert_eq!(store.get_order(STAFF, id).unwrap().order.user_id, 1);
    assert_eq!(store.get_order(ALICE, 12345).unwrap_err(), OrderError::NotFound);
}

#[test]
fn cancel_pending_order() {
    let mut store = shop();
    let order = store.create_order(ALICE, &request(vec![(7, 1)]), 100).unwrap();
    store.cancel_order(ALICE, order.order.id, 150).unwrap();
    assert_eq!(store.orders[0].status, OrderStatus::Cancelled);
    assert_eq!(store.orders[0].updated_at, 150);
    assert_eq!(store.orders[0].created_at, 100);
    assert_eq!(store.order_items.len(), 1);
}

#[test]
fn cancel_shipped_order_is_invalid_state() {
    let mut store = shop();
    let order = store.create_order(ALICE, &request(vec![(7, 1)]), 100).unwrap();
    store.orders[0].status = OrderStatus::Shipped;
    let r = store.cancel_order(ALICE, order.order.id, 150);
    assert_eq!(r.unwrap_err(), OrderError::InvalidState);
    assert_eq!(store.orders[0].status, OrderStatus::Shipped);
    assert_eq!(store.orders[0].updated_at, 100);
}

#[test]
fn second_cancel_is_invalid_state() {
    let mut store = shop();
    let order = store.create_order(ALICE, &request(vec![(7, 1)]), 100).unwrap();
    let first = store.cancel_order(ALICE, order.order.id, 150);
    let second = store.cancel_order(STAFF, order.order.id, 160);
    assert!(first.is_ok());
    assert_eq!(second.unwrap_err(), OrderError::InvalidState);
    assert_eq!(store.orders[0].status, OrderStatus::Cancelled);
    assert_eq!(store.orders[0].updated_at, 150);
}

#[test]
fn cancel_checks_owner_and_existence() {
    let mut store = shop();
    let order = store.create_order(ALICE, &request(vec![(7, 1)]), 100).unwrap();
    assert_eq!(store.cancel_order(BOB, order.order.id, 150).unwrap_err(), OrderError::Forbidden);
    assert_eq!(store.cancel_order(BOB, 999, 150).unwrap_err(), OrderError::NotFound);
    assert_eq!(store.orders[0].status, OrderStatus::Pending);
    store.cancel_order(STAFF, order.order.id, 150).unwrap();
    assert_eq!(store.orders[0].status, OrderStatus::Cancelled);
}

#[test]
fn repeated_variant_keeps_each_line() {
    let mut store = shop();
    let order = store.create_order(ALICE, &request(vec![(7, 1), (8, 4), (7, 2)]), 100).unwrap();
    assert_eq!(order.items.len(), 3);
    assert_eq!(order.items[2].order_item.quantity, 2);
    assert_eq!(order.items[2].order_item.id, 3);
    // 19.99 + 20 + 39.98
    assert_eq!(as_decimal(order.order.amount), Decimal::new(7997, 2));
}

#[test]
fn ids_follow_storage_order() {
    let mut store = shop();
    let a = store.create_order(ALICE, &request(vec![(7, 1), (8, 1)]), 100).unwrap();
    let b = store.create_order(BOB, &request(vec![(9, 1)]), 101).unwrap();
    assert_eq!(a.order.id, 1);
    assert_eq!(b.order.id, 2);
    assert_eq!(b.items[0].order_item.id, 3);
    assert_eq!(b.items[0].order_item.order_id, 2);
    assert_eq!(store.lines_of(1).len(), 2);
    assert_eq!(store.lines_of(2)[0].product_variant_id, 9);
}
