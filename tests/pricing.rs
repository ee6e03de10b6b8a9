use rust_decimal::Decimal;
use shoes_store_api::catalog::{Catalog, Product, ProductVariant, VariantWithProduct};
use shoes_store_api::model::{OrderError, OrderItemCreateParams};
use shoes_store_api::money::{pow10_i128, Money, MAX_MANTISSA};
use shoes_store_api::pricing::{order_total, price_order, resolve_prices, validate_items};
use std::collections::HashMap;

fn money(mantissa: i128, scale: u32) -> Money {
    Money { mantissa, scale }
}

fn as_decimal(m: Money) -> Decimal {
    Decimal::from_i128_with_scale(m.mantissa, m.scale)
}

fn line(product_variant_id: i32, quantity: i32) -> OrderItemCreateParams {
    OrderItemCreateParams { product_variant_id, quantity }
}

fn entry(variant_id: i32, product: Option<(i32, Money)>) -> (i32, VariantWithProduct) {
    let v = ProductVariant { id: variant_id, product_id: 1, sku: "S".to_string(), stock: 1 };
    let p = product.map(|(id, price)| Product { id, name: "P".to_string(), price });
    (variant_id, (v, p))
}

#[test]
fn validate_gives_ids_in_order() {
    let ids = validate_items(&vec![line(3, 1), line(1, 5), line(3, 2)]).unwrap();
    assert_eq!(ids, vec![3, 1, 3]);
}

#[test]
fn validate_rejects_negative_quantity() {
    assert_eq!(validate_items(&vec![line(3, 1), line(1, -4)]), Err(OrderError::InvalidInput));
}

#[test]
fn validate_rejects_empty() {
    assert_eq!(validate_items(&vec![]), Err(OrderError::InvalidInput));
}

#[test]
fn resolve_prices_in_line_order() {
    let m: HashMap<i32, VariantWithProduct> =
        vec![entry(7, Some((1, money(1999, 2)))), entry(8, Some((2, money(5, 0))))].into_iter().collect();
    let prices = resolve_prices(&vec![line(8, 1), line(7, 1)], &m).unwrap();
    assert_eq!(prices, vec![money(5, 0), money(1999, 2)]);
}

#[test]
fn resolve_prices_missing_product() {
    let m: HashMap<i32, VariantWithProduct> = vec![entry(7, None)].into_iter().collect();
    assert_eq!(resolve_prices(&vec![line(7, 1)], &m).unwrap_err(), OrderError::NotFound);
}

#[test]
fn order_total_of_one_line() {
    let total = order_total(&vec![money(1999, 2)], &vec![line(7, 2)]).unwrap();
    assert_eq!(as_decimal(total), Decimal::new(3998, 2));
}

#[test]
fn order_total_of_many_lines() {
    let prices = vec![money(1, 3), money(250, 2), money(7, 0)];
    let items = vec![line(1, 1000), line(2, 4), line(3, 3)];
    let total = order_total(&prices, &items).unwrap();
    // 1 + 10 + 21
    assert_eq!(as_decimal(total), Decimal::new(32, 0));
}

#[test]
fn order_total_at_the_limit() {
    let total = order_total(&vec![money(MAX_MANTISSA, 0)], &vec![line(1, 1)]).unwrap();
    assert_eq!(total.mantissa, MAX_MANTISSA);
}

#[test]
fn order_total_past_the_limit() {
    let r = order_total(&vec![money(MAX_MANTISSA, 0), money(1, 0)], &vec![line(1, 1), line(2, 1)]);
    assert_eq!(r.unwrap_err(), OrderError::InvalidInput);
}

#[test]
fn order_total_rescaling_past_the_limit() {
    // Written with 28 digits after the point the first price no longer fits.
    let r = order_total(&vec![money(MAX_MANTISSA, 0), money(1, 28)], &vec![line(1, 1), line(2, 1)]);
    assert_eq!(r.unwrap_err(), OrderError::InvalidInput);
}

#[test]
fn price_order_gives_prices_and_total() {
    let m: HashMap<i32, VariantWithProduct> =
        vec![entry(7, Some((1, money(1999, 2)))), entry(8, Some((2, money(5, 0))))].into_iter().collect();
    let priced = price_order(&vec![line(7, 2), line(8, 1)], &m).unwrap();
    assert_eq!(priced.unit_prices, vec![money(1999, 2), money(5, 0)]);
    assert_eq!(as_decimal(priced.amount), Decimal::new(4498, 2));
}

#[test]
fn price_order_not_found_before_overflow() {
    let m: HashMap<i32, VariantWithProduct> =
        vec![entry(7, Some((1, money(MAX_MANTISSA, 0))))].into_iter().collect();
    let r = price_order(&vec![line(7, 2), line(9, 1)], &m);
    assert_eq!(r.unwrap_err(), OrderError::NotFound);
}

#[test]
fn money_constructors() {
    assert_eq!(Money::from_parts(1999, 2), Some(money(1999, 2)));
    assert_eq!(Money::from_parts(1, 29), None);
    assert_eq!(Money::from_parts(MAX_MANTISSA + 1, 0), None);
    assert_eq!(Money::from_parts(-MAX_MANTISSA, 0), Some(money(-MAX_MANTISSA, 0)));
    assert_eq!(Money::from_integer(-7), money(-7, 0));
    assert_eq!(as_decimal(Money::zero()), Decimal::ZERO);
}

#[test]
fn powers_of_ten() {
    assert_eq!(pow10_i128(0), 1);
    assert_eq!(pow10_i128(3), 1000);
    assert_eq!(pow10_i128(28), 10_000_000_000_000_000_000_000_000_000);
}

#[test]
fn lookup_resolves_requested_variants() {
    let catalog = Catalog {
        products: vec![Product { id: 1, name: "Runner".to_string(), price: money(4999, 2) }],
        variants: vec![
            ProductVariant { id: 7, product_id: 1, sku: "R-42".to_string(), stock: 3 },
            ProductVariant { id: 8, product_id: 5, sku: "X-40".to_string(), stock: 0 },
            ProductVariant { id: 9, product_id: 1, sku: "R-43".to_string(), stock: 2 },
        ],
    };
    let m = catalog.find_many_with_product(&vec![7, 8, 999, 7]);
    assert_eq!(m.len(), 2);
    let (v, p) = &m[&7];
    assert_eq!(v.sku, "R-42");
    assert_eq!(p.as_ref().unwrap().name, "Runner");
    let (v8, p8) = &m[&8];
    assert_eq!(v8.product_id, 5);
    assert!(p8.is_none());
    assert!(!m.contains_key(&9));
}
