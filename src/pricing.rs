//! Checking an order request and pricing it against the catalog.
use crate::catalog::{lookup_wf, VariantWithProduct};
use crate::model::{OrderError, OrderItemCreateParams};
use crate::money::{
    common_scale, decimal_add, decimal_mul, in_range, lemma_at_scale_step, lemma_pow10_pos, pow10, pow10_i128,
    Money, MAX_MANTISSA, MAX_SCALE,
};
use std::collections::HashMap;
use vstd::prelude::*;

verus! {

broadcast use vstd::std_specs::hash::group_hash_axioms;

/// The request has at least one line and every quantity is at least one.
pub open spec fn quantities_valid(items: Seq<OrderItemCreateParams>) -> bool {
    items.len() > 0 && forall|i: int| 0 <= i < items.len() ==> #[trigger] items[i].quantity >= 1
}

/// The lookup gives a variant with a product for `id`.
pub open spec fn resolves(m: Map<i32, VariantWithProduct>, id: i32) -> bool {
    m.contains_key(id) && m[id].1 is Some
}

/// Every line of the request resolves.
pub open spec fn all_resolve(items: Seq<OrderItemCreateParams>, m: Map<i32, VariantWithProduct>) -> bool {
    forall|i: int| 0 <= i < items.len() ==> resolves(m, #[trigger] items[i].product_variant_id)
}

/// The current unit price of a variant that resolves.
pub open spec fn unit_price(m: Map<i32, VariantWithProduct>, id: i32) -> Money {
    m[id].1->0.price
}

/// The unit prices of the lines, in order.
pub open spec fn prices_of(items: Seq<OrderItemCreateParams>, m: Map<i32, VariantWithProduct>) -> Seq<Money> {
    items.map_values(|it: OrderItemCreateParams| unit_price(m, it.product_variant_id))
}

/// The exact total of the first `n` lines, in units of `10^-28`.
pub open spec fn sum_units(prices: Seq<Money>, items: Seq<OrderItemCreateParams>, n: nat) -> int
    decreases n,
{
    if n == 0 {
        0
    } else {
        sum_units(prices, items, (n - 1) as nat) + prices[n - 1].units() * items[n - 1].quantity
    }
}

/// The largest scale among the first `n` prices (zero for none).
pub open spec fn max_scale(prices: Seq<Money>, n: nat) -> nat
    decreases n,
{
    if n == 0 {
        0
    } else {
        let s = max_scale(prices, (n - 1) as nat);
        if prices[n - 1].scale > s {
            prices[n - 1].scale as nat
        } else {
            s
        }
    }
}

/// The mantissa of line `i` written at scale `s`.
pub open spec fn line_at(prices: Seq<Money>, items: Seq<OrderItemCreateParams>, i: int, s: nat) -> int {
    prices[i].at_scale(s) * items[i].quantity
}

/// The mantissa of the total of the first `n` lines written at scale `s`.
pub open spec fn sum_at(prices: Seq<Money>, items: Seq<OrderItemCreateParams>, n: nat, s: nat) -> int
    decreases n,
{
    if n == 0 {
        0
    } else {
        sum_at(prices, items, (n - 1) as nat, s) + line_at(prices, items, n - 1, s)
    }
}

/// Written at the largest scale of the prices, every line and every running
/// total fits in 96 bits: then the decimal total is exact.
pub open spec fn amount_fits(prices: Seq<Money>, items: Seq<OrderItemCreateParams>) -> bool {
    let s = max_scale(prices, prices.len());
    &&& forall|i: int| 0 <= i < items.len() ==> in_range(#[trigger] line_at(prices, items, i, s))
    &&& forall|n: nat| n <= items.len() ==> in_range(#[trigger] sum_at(prices, items, n, s))
}

/// Every price is a valid decimal.
pub open spec fn prices_wf(prices: Seq<Money>) -> bool {
    forall|i: int| 0 <= i < prices.len() ==> #[trigger] prices[i].wf()
}

/// The largest scale bounds every scale of the first `n` prices and is
/// itself a valid scale.
pub proof fn lemma_max_scale(prices: Seq<Money>, n: nat)
    requires
        n <= prices.len(),
        prices_wf(prices),
    ensures
        max_scale(prices, n) <= MAX_SCALE,
        forall|j: int| 0 <= j < n ==> #[trigger] prices[j].scale <= max_scale(prices, n),
    decreases n,
{
    if n > 0 {
        lemma_max_scale(prices, (n - 1) as nat);
        assert(prices[n - 1].wf());
    }
}

/// With every scale at most `s`, the exact total is the total written at
/// scale `s`, brought to units.
pub proof fn lemma_sum_units_at(prices: Seq<Money>, items: Seq<OrderItemCreateParams>, n: nat, s: nat)
    requires
        n <= prices.len(),
        n <= items.len(),
        s <= MAX_SCALE,
        forall|j: int| 0 <= j < n ==> #[trigger] prices[j].scale <= s,
    ensures
        sum_units(prices, items, n) == sum_at(prices, items, n, s) * pow10((MAX_SCALE - s) as nat),
    decreases n,
{
    if n > 0 {
        lemma_sum_units_at(prices, items, (n - 1) as nat, s);
        let p = prices[n - 1];
        assert(p.scale <= s);
        lemma_at_scale_step(p, s, MAX_SCALE as nat);
        let a = sum_at(prices, items, (n - 1) as nat, s);
        let b = p.at_scale(s);
        let q = items[n - 1].quantity as int;
        let k = pow10((MAX_SCALE - s) as nat);
        assert((a + b * q) * k == a * k + (b * k) * q) by (nonlinear_arith);
    }
}

/// A whole number whose multiple by a power of ten fits also fits, and is
/// no larger in magnitude.
pub proof fn lemma_fits_down(a: int, k: nat)
    requires
        in_range(a * pow10(k)),
    ensures
        in_range(a),
{
    lemma_pow10_pos(k);
    let p = pow10(k);
    assert(-(a * p) <= a <= a * p || a * p <= a <= -(a * p)) by (nonlinear_arith)
        requires
            p >= 1,
    ;
}

/// Checks the quantities of a request before anything is looked up, and
/// gives the variant ids to look up, in the order of the lines.
pub fn validate_items(items: &Vec<OrderItemCreateParams>) -> (r: Result<Vec<i32>, OrderError>)
    ensures
        r is Ok <==> quantities_valid(items@),
        r matches Err(e) ==> e == OrderError::InvalidInput,
        r matches Ok(ids) ==> ids@ == items@.map_values(|it: OrderItemCreateParams| it.product_variant_id),
{
    if items.len() == 0 {
        return Err(OrderError::InvalidInput);
    }
    let mut ids: Vec<i32> = Vec::new();
    let mut i: usize = 0;
    while i < items.len()
        invariant
            i <= items@.len(),
            forall|j: int| 0 <= j < i ==> #[trigger] items@[j].quantity >= 1,
            ids@ == items@.take(i as int).map_values(|it: OrderItemCreateParams| it.product_variant_id),
        decreases items@.len() - i,
    {
        if items[i].quantity <= 0 {
            return Err(OrderError::InvalidInput);
        }
        ids.push(items[i].product_variant_id);
        assert(items@.take(i + 1) =~= items@.take(i as int).push(items@[i as int]));
        i = i + 1;
    }
    assert(items@.take(items@.len() as int) =~= items@);
    Ok(ids)
}

/// The unit price of every line, in order; `NotFound` when a line's variant
/// or its product is missing.
pub fn resolve_prices(
    items: &Vec<OrderItemCreateParams>,
    variants: &HashMap<i32, VariantWithProduct>,
) -> (r: Result<Vec<Money>, OrderError>)
    requires
        lookup_wf(variants@),
    ensures
        r is Ok <==> all_resolve(items@, variants@),
        r matches Err(e) ==> e == OrderError::NotFound,
        r matches Ok(prices) ==> prices@ == prices_of(items@, variants@),
        r matches Ok(prices) ==> prices_wf(prices@),
{
    let mut prices: Vec<Money> = Vec::new();
    let mut i: usize = 0;
    while i < items.len()
        invariant
            i <= items@.len(),
            lookup_wf(variants@),
            forall|j: int| 0 <= j < i ==> resolves(variants@, #[trigger] items@[j].product_variant_id),
            prices@ == prices_of(items@.take(i as int), variants@),
            prices_wf(prices@),
        decreases items@.len() - i,
    {
        let id = items[i].product_variant_id;
        match variants.get(&id) {
            Some(entry) => match &entry.1 {
                Some(product) => {
                    prices.push(product.price);
                    assert(items@.take(i + 1) =~= items@.take(i as int).push(items@[i as int]));
                },
                None => {
                    return Err(OrderError::NotFound);
                },
            },
            None => {
                return Err(OrderError::NotFound);
            },
        }
        i = i + 1;
    }
    assert(items@.take(items@.len() as int) =~= items@);
    Ok(prices)
}

/// Two whole numbers with equal multiples by a power of ten are equal.
pub proof fn lemma_cancel_pow10(a: int, b: int, k: nat)
    requires
        a * pow10(k) == b * pow10(k),
    ensures
        a == b,
{
    lemma_pow10_pos(k);
    let p = pow10(k);
    assert(a == b) by (nonlinear_arith)
        requires
            a * p == b * p,
            p >= 1,
    ;
}

/// The largest scale among the prices.
fn largest_scale(prices: &Vec<Money>) -> (r: u32)
    requires
        prices_wf(prices@),
    ensures
        r == max_scale(prices@, prices@.len()),
        r <= MAX_SCALE,
{
    let mut s: u32 = 0;
    let mut i: usize = 0;
    while i < prices.len()
        invariant
            i <= prices@.len(),
            prices_wf(prices@),
            s == max_scale(prices@, i as nat),
            s <= MAX_SCALE,
        decreases prices@.len() - i,
    {
        assert(prices@[i as int].wf());
        if prices[i].scale > s {
            s = prices[i].scale;
        }
        i = i + 1;
    }
    s
}

/// The exact total of the lines, each its unit price times its quantity,
/// summed by `rust_decimal`. It fails with `InvalidInput` exactly when some
/// line or running total, written at the largest scale of the prices, would
/// not fit in 96 bits, so that a decimal could not hold it exactly.
pub fn order_total(prices: &Vec<Money>, items: &Vec<OrderItemCreateParams>) -> (r: Result<Money, OrderError>)
    requires
        prices@.len() == items@.len(),
        prices_wf(prices@),
        quantities_valid(items@),
    ensures
        r is Ok <==> amount_fits(prices@, items@),
        r matches Err(e) ==> e == OrderError::InvalidInput,
        r matches Ok(m) ==> m.wf() && m.units() == sum_units(prices@, items@, items@.len()),
{
    let s = largest_scale(prices);
    proof {
        lemma_max_scale(prices@, prices@.len());
    }
    let ghost sn = s as nat;
    let ghost k = (MAX_SCALE - s) as nat;
    let mut acc = Money::zero();
    let mut g: i128 = 0;
    let mut i: usize = 0;
    while i < items.len()
        invariant
            i <= items@.len(),
            prices@.len() == items@.len(),
            prices_wf(prices@),
            quantities_valid(items@),
            s == max_scale(prices@, prices@.len()),
            s <= MAX_SCALE,
            sn == s,
            k == MAX_SCALE - s,
            forall|j: int| 0 <= j < prices@.len() ==> #[trigger] prices@[j].scale <= s,
            g == sum_at(prices@, items@, i as nat, sn),
            in_range(g as int),
            forall|j: int| 0 <= j < i ==> in_range(#[trigger] line_at(prices@, items@, j, sn)),
            forall|n: nat| n <= i ==> in_range(#[trigger] sum_at(prices@, items@, n, sn)),
            acc.wf(),
            acc.scale <= s,
            acc.units() == sum_units(prices@, items@, i as nat),
        decreases items@.len() - i,
    {
        let p = prices[i];
        let q = items[i].quantity;
        assert(p.wf());
        assert(q >= 1);
        let f = pow10_i128(s - p.scale);
        let pm = match p.mantissa.checked_mul(f) {
            Some(v) => v,
            None => {
                proof {
                    let x = p.mantissa * f;
                    assert(x * q > MAX_MANTISSA || x * q < -MAX_MANTISSA) by (nonlinear_arith)
                        requires
                            x > i128::MAX || x < i128::MIN,
                            q >= 1,
                    ;
                    assert(!in_range(line_at(prices@, items@, i as int, sn)));
                }
                return Err(OrderError::InvalidInput);
            },
        };
        let l = match pm.checked_mul(q as i128) {
            Some(v) => v,
            None => {
                assert(!in_range(line_at(prices@, items@, i as int, sn)));
                return Err(OrderError::InvalidInput);
            },
        };
        assert(l == line_at(prices@, items@, i as int, sn));
        if l < -MAX_MANTISSA || l > MAX_MANTISSA {
            return Err(OrderError::InvalidInput);
        }
        let g2 = g + l;
        assert(g2 == sum_at(prices@, items@, (i + 1) as nat, sn));
        if g2 < -MAX_MANTISSA || g2 > MAX_MANTISSA {
            return Err(OrderError::InvalidInput);
        }
        let qm = Money::from_integer(q);
        proof {
            let d = (s - p.scale) as nat;
            assert(l == (p.mantissa * q) * pow10(d)) by (nonlinear_arith)
                requires
                    l == (p.mantissa * pow10(d)) * q,
            ;
            lemma_fits_down(p.mantissa * q, d);
        }
        let line = match decimal_mul(p, qm) {
            Some(v) => v,
            None => {
                return Err(OrderError::InvalidInput);
            },
        };
        proof {
            let big = pow10(MAX_SCALE as nat);
            lemma_pow10_pos(MAX_SCALE as nat);
            let u = p.units() * q;
            assert(p.units() * (q * big) == big * u) by (nonlinear_arith)
                requires
                    u == p.units() * q,
            ;
            vstd::arithmetic::div_mod::lemma_div_multiples_vanish(u, big);
            assert(line.units() == u);
            lemma_at_scale_step(line, sn, MAX_SCALE as nat);
            lemma_at_scale_step(p, sn, MAX_SCALE as nat);
            let kk = pow10(k);
            assert(u == l * kk) by (nonlinear_arith)
                requires
                    u == p.units() * q,
                    p.units() == p.at_scale(sn) * kk,
                    l == p.at_scale(sn) * q,
            ;
            lemma_cancel_pow10(line.at_scale(sn), l as int, k);
            lemma_at_scale_step(acc, sn, MAX_SCALE as nat);
            lemma_sum_units_at(prices@, items@, i as nat, sn);
            lemma_cancel_pow10(acc.at_scale(sn), g as int, k);
            let c = common_scale(acc, line);
            lemma_at_scale_step(acc, c, sn);
            lemma_at_scale_step(line, c, sn);
            let e = (sn - c) as nat;
            lemma_fits_down(acc.at_scale(c), e);
            lemma_fits_down(line.at_scale(c), e);
            assert((acc.at_scale(c) + line.at_scale(c)) * pow10(e) == acc.at_scale(c) * pow10(e)
                + line.at_scale(c) * pow10(e)) by (nonlinear_arith);
            lemma_fits_down(acc.at_scale(c) + line.at_scale(c), e);
        }
        let next = match decimal_add(acc, line) {
            Some(v) => v,
            None => {
                return Err(OrderError::InvalidInput);
            },
        };
        acc = next;
        g = g2;
        i = i + 1;
    }
    Ok(acc)
}

/// An order request priced against a lookup result.
#[derive(Debug)]
pub struct PricedOrder {
    /// The exact total.
    pub amount: Money,
    /// The unit price of each line, in the order of the lines.
    pub unit_prices: Vec<Money>,
}

/// Prices a request whose quantities were checked, against the variants
/// that the lookup resolved: `NotFound` when a line's variant or its
/// product is missing, else `InvalidInput` when the total cannot be held
/// exactly, else the unit prices and their exact total.
pub fn price_order(
    items: &Vec<OrderItemCreateParams>,
    variants: &HashMap<i32, VariantWithProduct>,
) -> (r: Result<PricedOrder, OrderError>)
    requires
        lookup_wf(variants@),
        quantities_valid(items@),
    ensures
        r matches Err(e) ==> (e == OrderError::NotFound <==> !all_resolve(items@, variants@)),
        r matches Err(e) ==> (e == OrderError::InvalidInput <==> (all_resolve(items@, variants@)
            && !amount_fits(prices_of(items@, variants@), items@))),
        r matches Err(e) ==> (e == OrderError::NotFound || e == OrderError::InvalidInput),
        r is Ok <==> (all_resolve(items@, variants@) && amount_fits(prices_of(items@, variants@), items@)),
        r matches Ok(p) ==> p.unit_prices@ == prices_of(items@, variants@) && prices_wf(p.unit_prices@),
        r matches Ok(p) ==> p.amount.wf() && p.amount.units() == sum_units(p.unit_prices@, items@, items@.len()),
{
    let unit_prices = resolve_prices(items, variants)?;
    let amount = order_total(&unit_prices, items)?;
    Ok(PricedOrder { amount, unit_prices })
}

} // verus!
