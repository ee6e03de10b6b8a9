//! The part of the catalog that order placement reads: products with their
//! prices and the variants that are bought.
use crate::money::Money;
use std::collections::HashMap;
use vstd::prelude::*;

verus! {

broadcast use vstd::std_specs::hash::group_hash_axioms;

/// A product of the catalog.
#[derive(Debug)]
pub struct Product {
    pub id: i32,
    pub name: String,
    /// The current unit price.
    pub price: Money,
}

impl Product {
    pub open spec fn wf(&self) -> bool {
        self.price.wf()
    }

    /// A copy of the product.
    pub fn duplicate(&self) -> (r: Product)
        ensures
            r == *self,
    {
        Product { id: self.id, name: self.name.clone(), price: self.price }
    }
}

/// A purchasable variant (size, colour) of a product.
#[derive(Debug)]
pub struct ProductVariant {
    pub id: i32,
    pub product_id: i32,
    pub sku: String,
    pub stock: i32,
}

impl ProductVariant {
    /// A copy of the variant.
    pub fn duplicate(&self) -> (r: ProductVariant)
        ensures
            r == *self,
    {
        ProductVariant {
            id: self.id,
            product_id: self.product_id,
            sku: self.sku.clone(),
            stock: self.stock,
        }
    }
}

/// A variant together with its product, where that product still exists.
pub type VariantWithProduct = (ProductVariant, Option<Product>);

/// Every product that a lookup result holds has a valid price.
pub open spec fn lookup_wf(m: Map<i32, VariantWithProduct>) -> bool {
    forall|k: i32| #[trigger] m.contains_key(k) ==> (m[k].1 matches Some(p) ==> p.wf())
}

/// The first product with the given id.
pub open spec fn find_product(ps: Seq<Product>, id: i32) -> Option<Product>
    decreases ps.len(),
{
    if ps.len() == 0 {
        None
    } else if ps[0].id == id {
        Some(ps[0])
    } else {
        find_product(ps.drop_first(), id)
    }
}

/// The first variant with the given id.
pub open spec fn find_variant(vs: Seq<ProductVariant>, id: i32) -> Option<ProductVariant>
    decreases vs.len(),
{
    if vs.len() == 0 {
        None
    } else if vs[0].id == id {
        Some(vs[0])
    } else {
        find_variant(vs.drop_first(), id)
    }
}

/// Products and variants, as the order subsystem sees them.
#[derive(Debug)]
pub struct Catalog {
    pub products: Vec<Product>,
    pub variants: Vec<ProductVariant>,
}

impl Catalog {
    /// Every product has a valid price.
    pub open spec fn wf(&self) -> bool {
        forall|i: int| 0 <= i < self.products@.len() ==> #[trigger] self.products@[i].wf()
    }

    /// What a lookup of variant `id` gives: nothing when no variant has that
    /// id, else the variant and its product, if any.
    pub open spec fn entry(&self, id: i32) -> Option<VariantWithProduct> {
        match find_variant(self.variants@, id) {
            Some(v) => Some((v, find_product(self.products@, v.product_id))),
            None => None,
        }
    }

    /// Variant `id` exists and so does its product.
    pub open spec fn resolves(&self, id: i32) -> bool {
        self.entry(id) matches Some(e) && e.1 is Some
    }

    /// The current unit price of a variant that resolves.
    pub open spec fn price_of(&self, id: i32) -> Money {
        let e = self.entry(id)->0;
        e.1->0.price
    }

    /// Every variant of the catalog by id, with its product, if any.
    pub open spec fn lookup(&self) -> Map<i32, VariantWithProduct> {
        Map::new(|id: i32| self.entry(id) is Some, |id: i32| self.entry(id)->0)
    }

    /// An empty catalog.
    pub fn new() -> (r: Catalog)
        ensures
            r.wf(),
            r.products@.len() == 0,
            r.variants@.len() == 0,
    {
        Catalog { products: Vec::new(), variants: Vec::new() }
    }

    /// A copy of the first product with id `id`.
    pub fn product(&self, id: i32) -> (r: Option<Product>)
        ensures
            r == find_product(self.products@, id),
    {
        let ghost ps = self.products@;
        assert(ps.subrange(0, ps.len() as int) =~= ps);
        let mut i: usize = 0;
        while i < self.products.len()
            invariant
                i <= ps.len(),
                ps == self.products@,
                find_product(ps, id) == find_product(ps.subrange(i as int, ps.len() as int), id),
            decreases ps.len() - i,
        {
            let ghost rest = ps.subrange(i as int, ps.len() as int);
            assert(rest.drop_first() =~= ps.subrange(i + 1, ps.len() as int));
            if self.products[i].id == id {
                return Some(self.products[i].duplicate());
            }
            i = i + 1;
        }
        None
    }

    /// A copy of the first variant with id `id`.
    pub fn variant(&self, id: i32) -> (r: Option<ProductVariant>)
        ensures
            r == find_variant(self.variants@, id),
    {
        let ghost vs = self.variants@;
        assert(vs.subrange(0, vs.len() as int) =~= vs);
        let mut i: usize = 0;
        while i < self.variants.len()
            invariant
                i <= vs.len(),
                vs == self.variants@,
                find_variant(vs, id) == find_variant(vs.subrange(i as int, vs.len() as int), id),
            decreases vs.len() - i,
        {
            let ghost rest = vs.subrange(i as int, vs.len() as int);
            assert(rest.drop_first() =~= vs.subrange(i + 1, vs.len() as int));
            if self.variants[i].id == id {
                return Some(self.variants[i].duplicate());
            }
            i = i + 1;
        }
        None
    }

    /// Resolves each requested variant id, with its product, in one pass:
    /// ids that no variant has are left out.
    pub fn find_many_with_product(&self, ids: &Vec<i32>) -> (r: HashMap<i32, VariantWithProduct>)
        requires
            self.wf(),
        ensures
            forall|id: i32| #[trigger]
                r@.contains_key(id) <==> (ids@.contains(id) && self.entry(id) is Some),
            forall|id: i32| #[trigger] r@.contains_key(id) ==> Some(r@[id]) == self.entry(id),
            lookup_wf(r@),
    {
        let mut r: HashMap<i32, VariantWithProduct> = HashMap::new();
        let mut i: usize = 0;
        while i < ids.len()
            invariant
                i <= ids@.len(),
                self.wf(),
                forall|id: i32| #[trigger]
                    r@.contains_key(id) <==> (ids@.take(i as int).contains(id) && self.entry(id) is Some),
                forall|id: i32| #[trigger] r@.contains_key(id) ==> Some(r@[id]) == self.entry(id),
                lookup_wf(r@),
            decreases ids@.len() - i,
        {
            let id = ids[i];
            let ghost before = ids@.take(i as int);
            assert(ids@.take(i + 1) =~= before.push(id));
            assert forall|x: i32| #[trigger] before.push(id).contains(x) <==> (before.contains(x) || x == id) by {
                if before.push(id).contains(x) && x != id {
                    let j = choose|j: int| 0 <= j < before.push(id).len() && before.push(id)[j] == x;
                    assert(before[j] == x);
                }
                if before.contains(x) {
                    let j = choose|j: int| 0 <= j < before.len() && before[j] == x;
                    assert(before.push(id)[j] == x);
                }
                if x == id {
                    assert(before.push(id)[before.len() as int] == x);
                }
            }
            match self.variant(id) {
                Some(v) => {
                    let p = self.product(v.product_id);
                    proof {
                        lemma_find_product_in(self.products@, v.product_id);
                    }
                    r.insert(id, (v, p));
                },
                None => {},
            }
            i = i + 1;
        }
        assert(ids@.take(ids@.len() as int) =~= ids@);
        r
    }

    /// Sets the price of product `product_id`; says whether there is such
    /// a product. Nothing else changes.
    pub fn set_price(&mut self, product_id: i32, price: Money) -> (r: bool)
        requires
            old(self).wf(),
            price.wf(),
        ensures
            final(self).wf(),
            r == exists|i: int| 0 <= i < old(self).products@.len() && old(self).products@[i].id == product_id,
            final(self).products@ == old(self).products@.map_values(
                |p: Product| if p.id == product_id { Product { price, ..p } } else { p },
            ),
            final(self).variants == old(self).variants,
    {
        let ghost target = old(self).products@.map_values(
            |p: Product| if p.id == product_id { Product { price, ..p } } else { p },
        );
        let mut found = false;
        let mut i: usize = 0;
        while i < self.products.len()
            invariant
                i <= self.products@.len(),
                self.products@.len() == old(self).products@.len(),
                target == old(self).products@.map_values(
                    |p: Product| if p.id == product_id { Product { price, ..p } } else { p },
                ),
                price.wf(),
                old(self).wf(),
                self.variants == old(self).variants,
                forall|k: int| 0 <= k < i ==> #[trigger] self.products@[k] == target[k],
                forall|k: int| i <= k < self.products@.len() ==> #[trigger] self.products@[k] == old(self).products@[k],
                found == exists|k: int| 0 <= k < i && old(self).products@[k].id == product_id,
            decreases self.products@.len() - i,
        {
            if self.products[i].id == product_id {
                let mut p = self.products[i].duplicate();
                p.price = price;
                self.products.set(i, p);
                found = true;
            }
            proof {
                assert(self.products@[i as int] == target[i as int]);
                assert(old(self).products@[i as int].id == product_id ==> exists|k: int| 0 <= k < i + 1 && old(self).products@[k].id == product_id);
            }
            i = i + 1;
        }
        assert(self.products@ =~= target);
        assert forall|k: int| 0 <= k < self.products@.len() implies #[trigger] self.products@[k].wf() by {
            assert(old(self).products@[k].wf());
        }
        found
    }
}

/// The product that the lookup finds is one of the sequence.
pub proof fn lemma_find_product_in(ps: Seq<Product>, id: i32)
    ensures
        find_product(ps, id) matches Some(p) ==> exists|i: int| 0 <= i < ps.len() && ps[i] == p,
    decreases ps.len(),
{
    if ps.len() > 0 && ps[0].id != id {
        lemma_find_product_in(ps.drop_first(), id);
        if let Some(p) = find_product(ps, id) {
            let i = choose|i: int| 0 <= i < ps.drop_first().len() && ps.drop_first()[i] == p;
            assert(ps[i + 1] == p);
        }
    }
}

} // verus!
