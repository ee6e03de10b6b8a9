//! An order store kept in memory beside its catalog: orders and their lines
//! are created together or not at all, read under the ownership rule, and
//! cancelled only while pending.
use crate::catalog::{Catalog, Product, VariantWithProduct};
use crate::model::{
    can_access, may_access, OrderCreateParams, OrderError, OrderItemCreateParams, OrderItemModel,
    OrderModel, OrderStatus, Requester,
};
use crate::money::Money;
use crate::pricing::{
    all_resolve, amount_fits, price_order, prices_of, quantities_valid, resolves, sum_units,
    validate_items,
};
use crate::views::{enrich_with, lemma_enrich_agree, Order};
use vstd::prelude::*;

verus! {

/// The exact total of the stored lines of order `order_id`, in units of
/// `10^-28`: each line's unit price times its quantity.
pub open spec fn items_total(items: Seq<OrderItemModel>, order_id: i32) -> int
    decreases items.len(),
{
    if items.len() == 0 {
        0
    } else {
        let it = items.last();
        items_total(items.drop_last(), order_id) + if it.order_id == order_id {
            it.price.units() * it.quantity
        } else {
            0
        }
    }
}

/// The stored lines of order `order_id`, in the order they were stored.
pub open spec fn items_of(items: Seq<OrderItemModel>, order_id: i32) -> Seq<OrderItemModel>
    decreases items.len(),
{
    if items.len() == 0 {
        seq![]
    } else {
        let rest = items_of(items.drop_last(), order_id);
        if items.last().order_id == order_id {
            rest.push(items.last())
        } else {
            rest
        }
    }
}

/// The orders that `requester` may see, in the order they were stored.
pub open spec fn visible_orders(orders: Seq<OrderModel>, requester: Requester) -> Seq<OrderModel>
    decreases orders.len(),
{
    if orders.len() == 0 {
        seq![]
    } else {
        let rest = visible_orders(orders.drop_last(), requester);
        if may_access(requester, orders.last().user_id) {
            rest.push(orders.last())
        } else {
            rest
        }
    }
}

/// The unit prices that the catalog gives for the lines of a request.
pub open spec fn catalog_prices(c: Catalog, items: Seq<OrderItemCreateParams>) -> Seq<Money> {
    items.map_values(|it: OrderItemCreateParams| c.price_of(it.product_variant_id))
}

/// The stored lines that a priced request becomes.
pub open spec fn line_records(
    items: Seq<OrderItemCreateParams>,
    prices: Seq<Money>,
    first_id: int,
    order_id: i32,
    now: i64,
) -> Seq<OrderItemModel> {
    Seq::new(
        items.len(),
        |j: int|
            OrderItemModel {
                id: (first_id + j) as i32,
                order_id,
                product_variant_id: items[j].product_variant_id,
                quantity: items[j].quantity,
                price: prices[j],
                created_at: now,
                updated_at: now,
            },
    )
}

/// The same orders with order `id` cancelled at time `now`.
pub open spec fn cancelled(orders: Seq<OrderModel>, id: i32, now: i64) -> Seq<OrderModel> {
    orders.map_values(
        |o: OrderModel|
            if o.id == id {
                OrderModel { status: OrderStatus::Cancelled, updated_at: now, ..o }
            } else {
                o
            },
    )
}

/// Some stored order has id `id`.
pub open spec fn has_order(orders: Seq<OrderModel>, id: i32) -> bool {
    exists|i: int| 0 <= i < orders.len() && orders[i].id == id
}

/// The stored order with id `id` (meaningful when there is one).
pub open spec fn order_with_id(orders: Seq<OrderModel>, id: i32) -> OrderModel {
    orders[choose|i: int| 0 <= i < orders.len() && orders[i].id == id]
}

/// How a read of order `id` by `requester` ends.
pub open spec fn access_outcome(orders: Seq<OrderModel>, requester: Requester, id: i32) -> Result<(), OrderError> {
    if !has_order(orders, id) {
        Err(OrderError::NotFound)
    } else if !may_access(requester, order_with_id(orders, id).user_id) {
        Err(OrderError::Forbidden)
    } else {
        Ok(())
    }
}

/// How a cancellation of order `id` by `requester` ends.
pub open spec fn cancel_outcome(orders: Seq<OrderModel>, requester: Requester, id: i32) -> Result<(), OrderError> {
    if access_outcome(orders, requester, id) is Err {
        access_outcome(orders, requester, id)
    } else if order_with_id(orders, id).status != OrderStatus::Pending {
        Err(OrderError::InvalidState)
    } else {
        Ok(())
    }
}

/// Order ids increase in storage order, so no two orders share one.
pub open spec fn ids_increasing(orders: Seq<OrderModel>) -> bool {
    forall|i: int, j: int| 0 <= i < j < orders.len() ==> #[trigger] orders[i].id < #[trigger] orders[j].id
}

/// With distinct ids, the order with a given id is the one found at its
/// position.
pub proof fn lemma_order_with_id(orders: Seq<OrderModel>, i: int)
    requires
        ids_increasing(orders),
        0 <= i < orders.len(),
    ensures
        has_order(orders, orders[i].id),
        order_with_id(orders, orders[i].id) == orders[i],
{
    let id = orders[i].id;
    assert(0 <= i < orders.len() && orders[i].id == id);
    let k = choose|k: int| 0 <= k < orders.len() && orders[k].id == id;
    if k < i {
        assert(orders[k].id < orders[i].id);
    } else if k > i {
        assert(orders[i].id < orders[k].id);
    }
}

/// A non-staff requester sees only orders of their own, and staff see
/// every order.
pub proof fn lemma_visible_orders(orders: Seq<OrderModel>, requester: Requester)
    ensures
        !requester.is_staff ==> forall|k: int| 0 <= k < visible_orders(orders, requester).len()
            ==> #[trigger] visible_orders(orders, requester)[k].user_id == requester.id,
        requester.is_staff ==> visible_orders(orders, requester) == orders,
        forall|i: int| 0 <= i < orders.len() && may_access(requester, #[trigger] orders[i].user_id)
            ==> visible_orders(orders, requester).contains(orders[i]),
    decreases orders.len(),
{
    if orders.len() > 0 {
        let rest = orders.drop_last();
        lemma_visible_orders(rest, requester);
        let v = visible_orders(orders, requester);
        let vr = visible_orders(rest, requester);
        if requester.is_staff {
            assert(rest.push(orders.last()) =~= orders);
        }
        assert forall|i: int| 0 <= i < orders.len() && may_access(requester, #[trigger] orders[i].user_id)
            implies v.contains(orders[i]) by {
            if i < orders.len() - 1 {
                assert(rest[i] == orders[i]);
                assert(may_access(requester, rest[i].user_id));
                assert(vr.contains(rest[i]));
                let k = choose|k: int| 0 <= k < vr.len() && vr[k] == rest[i];
                if may_access(requester, orders.last().user_id) {
                    assert(v[k] == vr[k]);
                }
            } else {
                assert(v[v.len() - 1] == orders[i]);
            }
        }
    }
}

/// Cancelling an order that may be cancelled leaves it cancelled, so a
/// second cancellation of it fails with `InvalidState`: of two
/// cancellations of one pending order exactly one succeeds.
pub proof fn lemma_cancel_twice(orders: Seq<OrderModel>, requester: Requester, id: i32, now: i64)
    requires
        ids_increasing(orders),
        cancel_outcome(orders, requester, id) is Ok,
    ensures
        order_with_id(cancelled(orders, id, now), id).status == OrderStatus::Cancelled,
        cancel_outcome(cancelled(orders, id, now), requester, id) == Err::<(), OrderError>(OrderError::InvalidState),
{
    let c = cancelled(orders, id, now);
    let i = choose|i: int| 0 <= i < orders.len() && orders[i].id == id;
    lemma_order_with_id(orders, i);
    assert(c[i].id == id);
    assert(ids_increasing(c)) by {
        assert forall|a: int, b: int| 0 <= a < b < c.len() implies #[trigger] c[a].id < #[trigger] c[b].id by {
            assert(orders[a].id < orders[b].id);
        }
    }
    lemma_order_with_id(c, i);
}

/// The total of every stored order is the exact sum, over its stored
/// lines, of unit price times quantity.
pub proof fn lemma_order_total_is_sum_of_lines(store: &Store, i: int)
    requires
        store.wf(),
        0 <= i < store.orders@.len(),
    ensures
        store.orders@[i].amount.units() == items_total(store.order_items@, store.orders@[i].id),
{
}

/// The catalog together with the orders placed against it.
#[derive(Debug)]
pub struct Store {
    pub catalog: Catalog,
    pub orders: Vec<OrderModel>,
    pub order_items: Vec<OrderItemModel>,
    /// The id that the next order gets.
    pub next_order_id: i32,
    /// The id that the next stored line gets.
    pub next_item_id: i32,
}

/// Totals over stored lines add up over concatenation.
pub proof fn lemma_items_total_append(a: Seq<OrderItemModel>, b: Seq<OrderItemModel>, id: i32)
    ensures
        items_total(a + b, id) == items_total(a, id) + items_total(b, id),
    decreases b.len(),
{
    if b.len() > 0 {
        lemma_items_total_append(a, b.drop_last(), id);
        assert((a + b).drop_last() =~= a + b.drop_last());
        assert((a + b).last() == b.last());
    }
}

/// An order with no stored line totals zero.
pub proof fn lemma_items_total_absent(s: Seq<OrderItemModel>, id: i32)
    requires
        forall|i: int| 0 <= i < s.len() ==> #[trigger] s[i].order_id != id,
    ensures
        items_total(s, id) == 0,
    decreases s.len(),
{
    if s.len() > 0 {
        assert forall|i: int| 0 <= i < s.drop_last().len() implies #[trigger] s.drop_last()[i].order_id != id by {
            assert(s.drop_last()[i] == s[i]);
        }
        lemma_items_total_absent(s.drop_last(), id);
        assert(s.last() == s[s.len() - 1]);
    }
}

/// The lines stored for a priced request total what was priced.
pub proof fn lemma_line_records_total(
    items: Seq<OrderItemCreateParams>,
    prices: Seq<Money>,
    first_id: int,
    order_id: i32,
    now: i64,
    n: nat,
)
    requires
        n <= items.len(),
        items.len() == prices.len(),
    ensures
        items_total(line_records(items, prices, first_id, order_id, now).take(n as int), order_id)
            == sum_units(prices, items, n),
    decreases n,
{
    if n > 0 {
        let lr = line_records(items, prices, first_id, order_id, now);
        lemma_line_records_total(items, prices, first_id, order_id, now, (n - 1) as nat);
        assert(lr.take(n as int).drop_last() =~= lr.take(n - 1));
        assert(lr.take(n as int).last() == lr[n - 1]);
    }
}

/// A lookup made for the variant ids of a request agrees with the catalog
/// on every line of it.
pub proof fn lemma_lookup_agrees(
    c: Catalog,
    items: Seq<OrderItemCreateParams>,
    ids: Seq<i32>,
    m: Map<i32, VariantWithProduct>,
)
    requires
        ids == items.map_values(|it: OrderItemCreateParams| it.product_variant_id),
        forall|id: i32| #[trigger] m.contains_key(id) <==> (ids.contains(id) && c.entry(id) is Some),
        forall|id: i32| #[trigger] m.contains_key(id) ==> Some(m[id]) == c.entry(id),
    ensures
        forall|j: int| 0 <= j < items.len() ==> (m.contains_key(#[trigger] items[j].product_variant_id)
            <==> c.lookup().contains_key(items[j].product_variant_id)),
        forall|j: int| 0 <= j < items.len() && m.contains_key(#[trigger] items[j].product_variant_id)
            ==> m[items[j].product_variant_id] == c.lookup()[items[j].product_variant_id],
        all_resolve(items, m) <==> (forall|i: int| 0 <= i < items.len() ==> c.resolves(#[trigger] items[i].product_variant_id)),
        all_resolve(items, m) ==> prices_of(items, m) == catalog_prices(c, items),
{
    assert forall|j: int| 0 <= j < items.len() implies ids.contains(#[trigger] items[j].product_variant_id) by {
        assert(ids[j] == items[j].product_variant_id);
    }
    assert forall|j: int| 0 <= j < items.len() implies (resolves(m, #[trigger] items[j].product_variant_id)
        <==> c.resolves(items[j].product_variant_id)) by {
        let id = items[j].product_variant_id;
        assert(ids.contains(id));
        assert(m.contains_key(id) == (ids.contains(id) && c.entry(id) is Some));
        if m.contains_key(id) {
            assert(Some(m[id]) == c.entry(id));
        }
    }
    if all_resolve(items, m) {
        assert(prices_of(items, m) =~= catalog_prices(c, items));
    }
}

impl Store {
    /// Ids are positive, increase in storage order and stay below the next
    /// id; lines belong to orders already numbered; and each order's total
    /// is the exact sum of its lines.
    pub open spec fn wf(&self) -> bool {
        &&& self.catalog.wf()
        &&& 1 <= self.next_order_id
        &&& 1 <= self.next_item_id
        &&& forall|i: int| 0 <= i < self.orders@.len() ==> 1 <= #[trigger] self.orders@[i].id < self.next_order_id
        &&& ids_increasing(self.orders@)
        &&& forall|i: int| 0 <= i < self.order_items@.len() ==> #[trigger] self.order_items@[i].order_id < self.next_order_id
        &&& forall|i: int| 0 <= i < self.orders@.len() ==> #[trigger] self.orders@[i].amount.wf()
        &&& forall|i: int| 0 <= i < self.orders@.len() ==> #[trigger] self.orders@[i].amount.units()
            == items_total(self.order_items@, self.orders@[i].id)
    }

    /// The store can number one more order and `n` more lines.
    pub open spec fn has_room(&self, n: nat) -> bool {
        self.next_order_id < i32::MAX && self.next_item_id + n <= i32::MAX
    }

    /// How placing an order with these lines ends.
    pub open spec fn create_outcome(&self, items: Seq<OrderItemCreateParams>) -> Result<(), OrderError> {
        if !quantities_valid(items) {
            Err(OrderError::InvalidInput)
        } else if !(forall|i: int| 0 <= i < items.len() ==> self.catalog.resolves(#[trigger] items[i].product_variant_id)) {
            Err(OrderError::NotFound)
        } else if !amount_fits(catalog_prices(self.catalog, items), items) {
            Err(OrderError::InvalidInput)
        } else if !self.has_room(items.len()) {
            Err(OrderError::PersistenceError)
        } else {
            Ok(())
        }
    }

    /// A store with the given catalog and no orders.
    pub fn new(catalog: Catalog) -> (r: Store)
        requires
            catalog.wf(),
        ensures
            r.wf(),
            r.catalog == catalog,
            r.orders@.len() == 0,
            r.order_items@.len() == 0,
    {
        Store { catalog, orders: Vec::new(), order_items: Vec::new(), next_order_id: 1, next_item_id: 1 }
    }

    /// Places an order for `requester`: checks the quantities before any
    /// lookup, resolves every variant with its product in one lookup, prices
    /// the lines exactly at the current prices, and stores the order
    /// (pending) with its lines, all or nothing. Hands back the order with
    /// its lines, variants and products.
    pub fn create_order(
        &mut self,
        requester: Requester,
        params: &OrderCreateParams,
        now: i64,
    ) -> (r: Result<Order, OrderError>)
        requires
            old(self).wf(),
        ensures
            final(self).wf(),
            r is Ok <==> old(self).create_outcome(params.items@) is Ok,
            r matches Err(e) ==> old(self).create_outcome(params.items@) == Err::<(), OrderError>(e),
            r is Err ==> *final(self) == *old(self),
            r matches Ok(view) ==> {
                let items = params.items@;
                let prices = catalog_prices(old(self).catalog, items);
                let o = final(self).orders@.last();
                let lines = line_records(items, prices, old(self).next_item_id as int, o.id, now);
                &&& final(self).catalog == old(self).catalog
                &&& final(self).orders@ == old(self).orders@.push(o)
                &&& o.id == old(self).next_order_id
                &&& o.user_id == requester.id
                &&& o.status == OrderStatus::Pending
                &&& o.payment_method == params.payment_method
                &&& o.shipping_address == Some(params.shipping_address)
                &&& o.created_at == now && o.updated_at == now
                &&& o.amount.wf()
                &&& o.amount.units() == sum_units(prices, items, items.len())
                &&& o.amount.units() == items_total(final(self).order_items@, o.id)
                &&& final(self).order_items@ == old(self).order_items@ + lines
                &&& final(self).next_order_id == old(self).next_order_id + 1
                &&& final(self).next_item_id == old(self).next_item_id + items.len()
                &&& view.order == o
                &&& view.items@ == enrich_with(lines, old(self).catalog.lookup())
            },
    {
        let ids = match validate_items(&params.items) {
            Ok(ids) => ids,
            Err(e) => {
                return Err(e);
            },
        };
        let variants = self.catalog.find_many_with_product(&ids);
        proof {
            lemma_lookup_agrees(self.catalog, params.items@, ids@, variants@);
        }
        let priced = match price_order(&params.items, &variants) {
            Ok(p) => p,
            Err(e) => {
                return Err(e);
            },
        };
        let n = params.items.len();
        if self.next_order_id == i32::MAX || n > (i32::MAX - self.next_item_id) as usize {
            return Err(OrderError::PersistenceError);
        }
        let order_id = self.next_order_id;
        let first_id = self.next_item_id;
        let order = OrderModel {
            id: order_id,
            user_id: requester.id,
            status: OrderStatus::Pending,
            amount: priced.amount,
            payment_method: params.payment_method,
            shipping_address: Some(params.shipping_address.clone()),
            created_at: now,
            updated_at: now,
        };
        let view_order = order.duplicate();
        self.orders.push(order);
        let ghost lines = line_records(params.items@, priced.unit_prices@, first_id as int, order_id, now);
        let mut new_items: Vec<OrderItemModel> = Vec::new();
        let mut j: usize = 0;
        while j < n
            invariant
                j <= n,
                n == params.items@.len(),
                n == priced.unit_prices@.len(),
                first_id == old(self).next_item_id,
                1 <= first_id,
                first_id + n <= i32::MAX,
                self.catalog == old(self).catalog,
                self.orders@ == old(self).orders@.push(view_order),
                self.next_order_id == old(self).next_order_id,
                self.next_item_id == old(self).next_item_id,
                lines == line_records(params.items@, priced.unit_prices@, first_id as int, order_id, now),
                new_items@ == lines.take(j as int),
                self.order_items@ == old(self).order_items@ + new_items@,
            decreases n - j,
        {
            let it = params.items[j];
            let rec = OrderItemModel {
                id: first_id + j as i32,
                order_id,
                product_variant_id: it.product_variant_id,
                quantity: it.quantity,
                price: priced.unit_prices[j],
                created_at: now,
                updated_at: now,
            };
            assert(rec == lines[j as int]);
            assert(lines.take(j + 1) =~= lines.take(j as int).push(rec));
            self.order_items.push(rec);
            new_items.push(rec);
            j = j + 1;
        }
        self.next_order_id = order_id + 1;
        self.next_item_id = first_id + n as i32;
        proof {
            assert(lines.take(n as int) =~= lines);
            let old_items = old(self).order_items@;
            assert forall|i: int| 0 <= i < old_items.len() implies #[trigger] old_items[i].order_id != order_id by {
                assert(old(self).order_items@[i].order_id < old(self).next_order_id);
            }
            lemma_items_total_absent(old_items, order_id);
            lemma_items_total_append(old_items, lines, order_id);
            lemma_line_records_total(params.items@, priced.unit_prices@, first_id as int, order_id, now, n as nat);
            assert forall|k: int| 0 <= k < self.orders@.len() implies #[trigger] self.orders@[k].amount.units()
                == items_total(self.order_items@, self.orders@[k].id) by {
                if k < old(self).orders@.len() {
                    let id = self.orders@[k].id;
                    assert(old(self).orders@[k].id < old(self).next_order_id);
                    assert forall|i: int| 0 <= i < lines.len() implies #[trigger] lines[i].order_id != id by {}
                    lemma_items_total_absent(lines, id);
                    lemma_items_total_append(old_items, lines, id);
                }
            }
            assert forall|i: int| 0 <= i < self.order_items@.len() implies #[trigger] self.order_items@[i].order_id
                < self.next_order_id by {
                if i >= old_items.len() {
                    assert(self.order_items@[i] == lines[i - old_items.len()]);
                }
            }
        }
        let view = Order::create(view_order, new_items, &variants);
        proof {
            assert forall|j: int| 0 <= j < lines.len() implies (variants@.contains_key(#[trigger] lines[j].product_variant_id)
                <==> self.catalog.lookup().contains_key(lines[j].product_variant_id)) by {
                assert(lines[j].product_variant_id == params.items@[j].product_variant_id);
            }
            assert forall|j: int| 0 <= j < lines.len() && variants@.contains_key(#[trigger] lines[j].product_variant_id)
                implies variants@[lines[j].product_variant_id] == self.catalog.lookup()[lines[j].product_variant_id] by {
                assert(lines[j].product_variant_id == params.items@[j].product_variant_id);
            }
            lemma_enrich_agree(lines, variants@, self.catalog.lookup());
        }
        Ok(view)
    }

    /// The position of order `id`, if it is stored.
    fn find_order(&self, id: i32) -> (r: Option<usize>)
        requires
            self.wf(),
        ensures
            r is None <==> !has_order(self.orders@, id),
            r matches Some(i) ==> i < self.orders@.len() && self.orders@[i as int].id == id
                && order_with_id(self.orders@, id) == self.orders@[i as int],
    {
        let mut i: usize = 0;
        while i < self.orders.len()
            invariant
                self.wf(),
                i <= self.orders@.len(),
                forall|k: int| 0 <= k < i ==> #[trigger] self.orders@[k].id != id,
            decreases self.orders@.len() - i,
        {
            if self.orders[i].id == id {
                proof {
                    lemma_order_with_id(self.orders@, i as int);
                }
                return Some(i);
            }
            i = i + 1;
        }
        None
    }

    /// The stored lines of order `order_id`, in storage order.
    pub fn lines_of(&self, order_id: i32) -> (r: Vec<OrderItemModel>)
        ensures
            r@ == items_of(self.order_items@, order_id),
    {
        let mut r: Vec<OrderItemModel> = Vec::new();
        let mut i: usize = 0;
        while i < self.order_items.len()
            invariant
                i <= self.order_items@.len(),
                r@ == items_of(self.order_items@.take(i as int), order_id),
            decreases self.order_items@.len() - i,
        {
            let it = self.order_items[i];
            assert(self.order_items@.take(i + 1).drop_last() =~= self.order_items@.take(i as int));
            assert(self.order_items@.take(i + 1).last() == it);
            if it.order_id == order_id {
                r.push(it);
            }
            i = i + 1;
        }
        assert(self.order_items@.take(self.order_items@.len() as int) =~= self.order_items@);
        r
    }

    /// The stored order at position `i` with its lines, variants and
    /// products.
    fn order_view(&self, i: usize) -> (r: Order)
        requires
            self.wf(),
            i < self.orders@.len(),
        ensures
            r.order == self.orders@[i as int],
            r.items@ == enrich_with(items_of(self.order_items@, self.orders@[i as int].id), self.catalog.lookup()),
    {
        let order = self.orders[i].duplicate();
        let lines = self.lines_of(order.id);
        let mut ids: Vec<i32> = Vec::new();
        let mut j: usize = 0;
        while j < lines.len()
            invariant
                j <= lines@.len(),
                ids@ == lines@.take(j as int).map_values(|it: OrderItemModel| it.product_variant_id),
            decreases lines@.len() - j,
        {
            ids.push(lines[j].product_variant_id);
            assert(lines@.take(j + 1) =~= lines@.take(j as int).push(lines@[j as int]));
            j = j + 1;
        }
        assert(lines@.take(lines@.len() as int) =~= lines@);
        let variants = self.catalog.find_many_with_product(&ids);
        proof {
            let c = self.catalog;
            let m = variants@;
            assert forall|k: int| 0 <= k < lines@.len() implies ids@.contains(#[trigger] lines@[k].product_variant_id) by {
                assert(ids@[k] == lines@[k].product_variant_id);
            }
            assert forall|k: int| 0 <= k < lines@.len() implies (m.contains_key(#[trigger] lines@[k].product_variant_id)
                <==> c.lookup().contains_key(lines@[k].product_variant_id)) by {
                assert(ids@.contains(lines@[k].product_variant_id));
            }
            lemma_enrich_agree(lines@, m, c.lookup());
        }
        Order::create(order, lines, &variants)
    }

    /// Order `order_id` with its lines, variants and products: `NotFound`
    /// when no order has that id, `Forbidden` when the requester neither
    /// owns it nor is staff.
    pub fn get_order(&self, requester: Requester, order_id: i32) -> (r: Result<Order, OrderError>)
        requires
            self.wf(),
        ensures
            r is Ok <==> access_outcome(self.orders@, requester, order_id) is Ok,
            r matches Err(e) ==> access_outcome(self.orders@, requester, order_id) == Err::<(), OrderError>(e),
            r matches Ok(v) ==> v.order == order_with_id(self.orders@, order_id),
            r matches Ok(v) ==> v.items@ == enrich_with(items_of(self.order_items@, order_id), self.catalog.lookup()),
    {
        let i = match self.find_order(order_id) {
            Some(i) => i,
            None => {
                return Err(OrderError::NotFound);
            },
        };
        if !can_access(requester, self.orders[i].user_id) {
            return Err(OrderError::Forbidden);
        }
        Ok(self.order_view(i))
    }

    /// Every order that the requester may see (their own; all of them for
    /// staff), in storage order, each with its lines, variants and
    /// products.
    pub fn list_orders(&self, requester: Requester) -> (r: Vec<Order>)
        requires
            self.wf(),
        ensures
            r@.len() == visible_orders(self.orders@, requester).len(),
            forall|k: int| 0 <= k < r@.len() ==> (#[trigger] r@[k]).order == visible_orders(self.orders@, requester)[k],
            forall|k: int| 0 <= k < r@.len() ==> (#[trigger] r@[k]).items@ == enrich_with(
                items_of(self.order_items@, r@[k].order.id), self.catalog.lookup()),
    {
        let mut r: Vec<Order> = Vec::new();
        let mut i: usize = 0;
        while i < self.orders.len()
            invariant
                self.wf(),
                i <= self.orders@.len(),
                r@.len() == visible_orders(self.orders@.take(i as int), requester).len(),
                forall|k: int| 0 <= k < r@.len() ==> (#[trigger] r@[k]).order == visible_orders(
                    self.orders@.take(i as int), requester)[k],
                forall|k: int| 0 <= k < r@.len() ==> (#[trigger] r@[k]).items@ == enrich_with(
                    items_of(self.order_items@, r@[k].order.id), self.catalog.lookup()),
            decreases self.orders@.len() - i,
        {
            let ghost before = self.orders@.take(i as int);
            assert(self.orders@.take(i + 1).drop_last() =~= before);
            assert(self.orders@.take(i + 1).last() == self.orders@[i as int]);
            if can_access(requester, self.orders[i].user_id) {
                let v = self.order_view(i);
                r.push(v);
            }
            i = i + 1;
        }
        assert(self.orders@.take(self.orders@.len() as int) =~= self.orders@);
        r
    }

    /// Cancels order `order_id`: `NotFound` when no order has that id,
    /// `Forbidden` when the requester neither owns it nor is staff,
    /// `InvalidState` when it is not pending. Otherwise its status becomes
    /// `Cancelled` and `updated_at` becomes `now`, in one step, so that of
    /// two cancellations of a pending order only the first succeeds.
    pub fn cancel_order(&mut self, requester: Requester, order_id: i32, now: i64) -> (r: Result<(), OrderError>)
        requires
            old(self).wf(),
        ensures
            final(self).wf(),
            r == cancel_outcome(old(self).orders@, requester, order_id),
            access_outcome(old(self).orders@, requester, order_id) is Ok ==> (r is Ok <==> order_with_id(
                old(self).orders@, order_id).status == OrderStatus::Pending),
            r is Err ==> *final(self) == *old(self),
            r is Ok ==> final(self).orders@ == cancelled(old(self).orders@, order_id, now),
            r is Ok ==> order_with_id(final(self).orders@, order_id).status == OrderStatus::Cancelled,
            r is Ok ==> final(self).catalog == old(self).catalog && final(self).order_items == old(self).order_items,
            r is Ok ==> final(self).next_order_id == old(self).next_order_id && final(self).next_item_id
                == old(self).next_item_id,
    {
        let i = match self.find_order(order_id) {
            Some(i) => i,
            None => {
                return Err(OrderError::NotFound);
            },
        };
        if !can_access(requester, self.orders[i].user_id) {
            return Err(OrderError::Forbidden);
        }
        if self.orders[i].status != OrderStatus::Pending {
            return Err(OrderError::InvalidState);
        }
        let mut order = self.orders[i].duplicate();
        order.status = OrderStatus::Cancelled;
        order.updated_at = now;
        self.orders.set(i, order);
        proof {
            let o = old(self).orders@;
            assert(self.orders@ =~= cancelled(o, order_id, now)) by {
                assert forall|k: int| 0 <= k < o.len() implies #[trigger] self.orders@[k] == cancelled(o, order_id, now)[k] by {
                    if k < i {
                        assert(o[k].id < o[i as int].id);
                    } else if k > i {
                        assert(o[i as int].id < o[k].id);
                    }
                }
            }
            lemma_cancel_twice(o, requester, order_id, now);
            assert forall|k: int| 0 <= k < self.orders@.len() implies #[trigger] self.orders@[k].amount.units()
                == items_total(self.order_items@, self.orders@[k].id) by {
                assert(self.orders@[k].id == o[k].id);
            }
            assert(ids_increasing(self.orders@)) by {
                assert forall|a: int, b: int| 0 <= a < b < self.orders@.len() implies #[trigger] self.orders@[a].id
                    < #[trigger] self.orders@[b].id by {
                    assert(o[a].id < o[b].id);
                }
            }
        }
        Ok(())
    }

    /// Changes the current price of product `product_id`; says whether there
    /// is such a product. Stored orders and their lines keep the prices
    /// they were placed at.
    pub fn set_product_price(&mut self, product_id: i32, price: Money) -> (r: bool)
        requires
            old(self).wf(),
            price.wf(),
        ensures
            final(self).wf(),
            r == exists|i: int| 0 <= i < old(self).catalog.products@.len() && old(self).catalog.products@[i].id == product_id,
            final(self).catalog.products@ == old(self).catalog.products@.map_values(
                |p: Product| if p.id == product_id { Product { price, ..p } } else { p },
            ),
            final(self).catalog.variants == old(self).catalog.variants,
            final(self).orders == old(self).orders,
            final(self).order_items == old(self).order_items,
            final(self).next_order_id == old(self).next_order_id,
            final(self).next_item_id == old(self).next_item_id,
    {
        self.catalog.set_price(product_id, price)
    }
}

} // verus!
