//! The product catalogue: creating, finding, listing, updating and
//! deleting products.

use vstd::prelude::*;

use crate::records::{find_by_id, index_of, position_of, remove_by_id, with_id, without_id, Keyed};
use crate::seq_util::{
    lemma_filter_all, lemma_filter_take_step, lemma_first_match, lemma_first_match_push, lemma_first_match_update,
};
use crate::text::{blank, is_blank};

verus! {

/// Where a product stands in the sales cycle.
#[derive(Debug, Clone, Copy, PartialEq, Eq, Structural)]
pub enum ProductStatus {
    Draft,
    OnSale,
    SoldOut,
}

/// The status of a product created without one.
pub fn default_status() -> (r: ProductStatus)
    ensures
        r == ProductStatus::Draft,
{
    ProductStatus::Draft
}

/// A product of the catalogue.
#[derive(Debug, Clone)]
pub struct Product {
    pub id: u64,
    pub name: String,
    pub description: String,
    pub price_cents: u64,
    pub stock: u64,
    pub status: ProductStatus,
    /// Ids of the categories the product belongs to (not checked against
    /// the category store).
    pub categories: Vec<u64>,
    pub created_at: u64,
    pub updated_at: u64,
}

impl Keyed for Product {
    open spec fn key(&self) -> u64 {
        self.id
    }

    fn id_of(&self) -> (r: u64) {
        self.id
    }
}

/// All products, and the id the next one will get.
#[derive(Debug)]
pub struct ProductStore {
    pub next_id: u64,
    pub products: Vec<Product>,
}

impl Default for ProductStore {
    /// An empty catalogue whose first product gets id 0.
    fn default() -> (r: Self)
        ensures
            r.next_id == 0,
            r.products@.len() == 0,
    {
        ProductStore { next_id: 0, products: Vec::new() }
    }
}

/// What a new product is made of.
#[derive(Debug)]
pub struct NewProduct {
    pub name: String,
    pub description: String,
    pub price_cents: u64,
    pub stock: u64,
    pub status: ProductStatus,
    pub categories: Vec<u64>,
}

/// The fields to change on a product; `None` keeps the field.
#[derive(Debug)]
pub struct ProductUpdate {
    pub name: Option<String>,
    pub description: Option<String>,
    pub price_cents: Option<u64>,
    pub stock: Option<u64>,
    pub status: Option<ProductStatus>,
    pub categories: Option<Vec<u64>>,
}

/// Why a catalogue request was refused.
#[derive(Debug, Clone, Copy, PartialEq, Eq, Structural)]
pub enum ProductError {
    /// The name is empty once trimmed (answered with 400).
    EmptyName,
    /// No product has the id (answered with 404).
    NotFound,
}

/// The product that `create` makes with id `id` at time `now`.
pub open spec fn created_product(id: u64, new: NewProduct, now: u64) -> Product {
    Product {
        id,
        name: new.name,
        description: new.description,
        price_cents: new.price_cents,
        stock: new.stock,
        status: new.status,
        categories: new.categories,
        created_at: now,
        updated_at: now,
    }
}

/// `p` after `update` at time `now`.
pub open spec fn updated_product(p: Product, update: ProductUpdate, now: u64) -> Product {
    Product {
        id: p.id,
        name: match update.name {
            Some(v) => v,
            None => p.name,
        },
        description: match update.description {
            Some(v) => v,
            None => p.description,
        },
        price_cents: match update.price_cents {
            Some(v) => v,
            None => p.price_cents,
        },
        stock: match update.stock {
            Some(v) => v,
            None => p.stock,
        },
        status: match update.status {
            Some(v) => v,
            None => p.status,
        },
        categories: match update.categories {
            Some(v) => v,
            None => p.categories,
        },
        created_at: p.created_at,
        updated_at: now,
    }
}

/// The product belongs to category `category`.
pub open spec fn in_category(category: u64) -> spec_fn(Product) -> bool {
    |p: Product| p.categories@.contains(category)
}

/// The position of the first product with id `id`, or -1.
pub open spec fn product_index(products: Seq<Product>, id: u64) -> int {
    index_of(products, id)
}

/// Every product's id is below the id the next product gets.
pub open spec fn ids_below_next(store: ProductStore) -> bool {
    forall|i: int| 0 <= i < store.products@.len() ==> #[trigger] store.products@[i].id < store.next_id
}

/// Whether `v` contains `x`.
pub fn contains_id(v: &Vec<u64>, x: u64) -> (r: bool)
    ensures
        r == v@.contains(x),
{
    let mut i: usize = 0;
    while i < v.len()
        invariant
            i <= v@.len(),
            forall|j: int| 0 <= j < i ==> #[trigger] v@[j] != x,
        decreases v@.len() - i,
    {
        if v[i] == x {
            proof {
                assert(v@[i as int] == x);
            }
            return true;
        }
        i = i + 1;
    }
    false
}

/// Whether some product has id `id`.
pub fn product_exists(products: &Vec<Product>, id: u64) -> (r: bool)
    ensures
        r == (product_index(products@, id) >= 0),
{
    position_of(products, id).is_some()
}

/// The first product with id `id`, if any.
pub fn find_product(products: &Vec<Product>, id: u64) -> (r: Option<&Product>)
    ensures
        match r {
            Some(p) => product_index(products@, id) >= 0 && *p == products@[product_index(products@, id)],
            None => product_index(products@, id) == -1,
        },
{
    find_by_id(products, id)
}

/// The products to list: all of them, or with a category filter those
/// that belong to the category, in catalogue order.
pub fn filter_by_category(products: &Vec<Product>, category: Option<u64>) -> (r: Vec<&Product>)
    ensures
        match category {
            Some(c) => {
                &&& r@.len() == products@.filter(in_category(c)).len()
                &&& forall|i: int| 0 <= i < r@.len() ==> *r@[i] == products@.filter(in_category(c))[i]
            },
            None => {
                &&& r@.len() == products@.len()
                &&& forall|i: int| 0 <= i < r@.len() ==> *r@[i] == products@[i]
            },
        },
{
    let mut r: Vec<&Product> = Vec::new();
    let mut i: usize = 0;
    match category {
        Some(c) => {
            let ghost keep = in_category(c);
            while i < products.len()
                invariant
                    i <= products@.len(),
                    keep == in_category(c),
                    r@.len() == products@.take(i as int).filter(keep).len(),
                    forall|j: int| 0 <= j < r@.len() ==> *r@[j] == products@.take(i as int).filter(keep)[j],
                decreases products@.len() - i,
            {
                proof {
                    lemma_filter_take_step(products@, keep, i as int);
                }
                if contains_id(&products[i].categories, c) {
                    r.push(&products[i]);
                }
                i = i + 1;
            }
            proof {
                assert(products@.take(products@.len() as int) =~= products@);
            }
        },
        None => {
            while i < products.len()
                invariant
                    i <= products@.len(),
                    r@.len() == i,
                    forall|j: int| 0 <= j < i ==> *r@[j] == products@[j],
                decreases products@.len() - i,
            {
                r.push(&products[i]);
                i = i + 1;
            }
        },
    }
    r
}

impl ProductStore {
    /// Adds a product made of `new` at time `now`, with the next id, and
    /// returns that id. A name that is empty once trimmed is refused.
    pub fn create(&mut self, new: NewProduct, now: u64) -> (r: Result<u64, ProductError>)
        requires
            blank(new.name@) || old(self).next_id < u64::MAX,
        ensures
            blank(new.name@) ==> r == Err::<u64, ProductError>(ProductError::EmptyName) && final(self).next_id
                == old(self).next_id && final(self).products@ == old(self).products@,
            !blank(new.name@) ==> r == Ok::<u64, ProductError>(old(self).next_id) && final(self).next_id
                == old(self).next_id + 1 && final(self).products@ == old(self).products@.push(
                created_product(old(self).next_id, new, now),
            ),
    {
        if is_blank(new.name.as_str()) {
            return Err(ProductError::EmptyName);
        }
        let id = self.next_id;
        self.next_id = self.next_id + 1;
        let product = Product {
            id,
            name: new.name,
            description: new.description,
            price_cents: new.price_cents,
            stock: new.stock,
            status: new.status,
            categories: new.categories,
            created_at: now,
            updated_at: now,
        };
        self.products.push(product);
        Ok(id)
    }

    /// Applies `update` at time `now` to the first product with id `id`;
    /// the other products are untouched.
    pub fn update(&mut self, id: u64, update: ProductUpdate, now: u64) -> (r: Result<(), ProductError>)
        ensures
            final(self).next_id == old(self).next_id,
            product_index(old(self).products@, id) >= 0 ==> r is Ok && final(self).products@ == old(
                self,
            ).products@.update(
                product_index(old(self).products@, id),
                updated_product(old(self).products@[product_index(old(self).products@, id)], update, now),
            ),
            product_index(old(self).products@, id) < 0 ==> r == Err::<(), ProductError>(
                ProductError::NotFound,
            ) && final(self).products@ == old(self).products@,
    {
        let i = match position_of(&self.products, id) {
            Some(i) => i,
            None => return Err(ProductError::NotFound),
        };
        let ghost before = self.products@;
        let p = self.products.remove(i);
        let q = Product {
            id: p.id,
            name: match update.name {
                Some(v) => v,
                None => p.name,
            },
            description: match update.description {
                Some(v) => v,
                None => p.description,
            },
            price_cents: match update.price_cents {
                Some(v) => v,
                None => p.price_cents,
            },
            stock: match update.stock {
                Some(v) => v,
                None => p.stock,
            },
            status: match update.status {
                Some(v) => v,
                None => p.status,
            },
            categories: match update.categories {
                Some(v) => v,
                None => p.categories,
            },
            created_at: p.created_at,
            updated_at: now,
        };
        self.products.insert(i, q);
        proof {
            assert(self.products@ =~= before.update(i as int, updated_product(before[i as int], update, now)));
        }
        Ok(())
    }

    /// Deletes the products with id `id`; refused when there is none.
    pub fn delete(&mut self, id: u64) -> (r: Result<(), ProductError>)
        ensures
            final(self).next_id == old(self).next_id,
            final(self).products@ == old(self).products@.filter(without_id::<Product>(id)),
            r is Ok <==> product_index(old(self).products@, id) >= 0,
            r is Err ==> r == Err::<(), ProductError>(ProductError::NotFound),
    {
        if remove_by_id(&mut self.products, id) {
            Ok(())
        } else {
            Err(ProductError::NotFound)
        }
    }
}

/// Deleting finds nothing to delete exactly when no product has the id,
/// and then the catalogue is unchanged.
pub proof fn law_delete_missing_changes_nothing(products: Seq<Product>, id: u64)
    requires
        product_index(products, id) < 0,
    ensures
        products.filter(without_id::<Product>(id)) == products,
{
    lemma_first_match(products, with_id::<Product>(id));
    lemma_filter_all(products, without_id::<Product>(id));
}

/// After a product is deleted, no product with its id is left.
pub proof fn law_deleted_product_is_gone(products: Seq<Product>, id: u64)
    ensures
        product_index(products.filter(without_id::<Product>(id)), id) == -1,
{
    let f = products.filter(without_id::<Product>(id));
    broadcast use Seq::lemma_filter_pred;
    lemma_first_match(f, with_id::<Product>(id));
    if product_index(f, id) >= 0 {
        assert(without_id::<Product>(id)(f[product_index(f, id)]));
    }
}

/// In a catalogue whose ids are all below `next_id`, the product that
/// `create` adds is the one found under the id it returned, and the ids
/// stay below the new `next_id`.
pub proof fn law_created_product_is_found(store: ProductStore, new: NewProduct, now: u64)
    requires
        ids_below_next(store),
        store.next_id < u64::MAX,
    ensures
        ({
            let products = store.products@.push(created_product(store.next_id, new, now));
            &&& product_index(products, store.next_id) == store.products@.len()
            &&& products[product_index(products, store.next_id)] == created_product(store.next_id, new, now)
            &&& forall|i: int| 0 <= i < products.len() ==> #[trigger] products[i].id < store.next_id + 1
        }),
{
    let s = store.products@;
    let p = created_product(store.next_id, new, now);
    lemma_first_match(s, with_id::<Product>(store.next_id));
    if product_index(s, store.next_id) >= 0 {
        assert(s[product_index(s, store.next_id)].id < store.next_id);
    }
    lemma_first_match_push(s, with_id::<Product>(store.next_id), p);
    assert forall|i: int| 0 <= i < s.len() + 1 implies #[trigger] s.push(p)[i].id < store.next_id + 1 by {
        if i < s.len() {
            assert(s.push(p)[i] == s[i]);
        }
    }
}

/// After an update, looking the product up by its id finds the updated
/// product, in the same place.
pub proof fn law_update_then_find(products: Seq<Product>, id: u64, update: ProductUpdate, now: u64)
    requires
        product_index(products, id) >= 0,
    ensures
        ({
            let i = product_index(products, id);
            let after = products.update(i, updated_product(products[i], update, now));
            &&& product_index(after, id) == i
            &&& after[i] == updated_product(products[i], update, now)
        }),
{
    let i = product_index(products, id);
    lemma_first_match(products, with_id::<Product>(id));
    lemma_first_match_update(products, with_id::<Product>(id), i, updated_product(products[i], update, now));
}

/// Listing with a category filter keeps exactly the products whose
/// category list contains the category, in catalogue order: a product
/// in several categories is listed under each of them.
pub proof fn law_category_listing_keeps_its_members(products: Seq<Product>, category: u64)
    ensures
        products.filter(in_category(category)) == products.filter(|p: Product| p.categories@.contains(category)),
        forall|i: int|
            0 <= i < products.filter(in_category(category)).len() ==> (#[trigger] products.filter(
                in_category(category),
            )[i]).categories@.contains(category),
        forall|j: int|
            0 <= j < products.len() && (#[trigger] products[j]).categories@.contains(category) ==> products.filter(
                in_category(category),
            ).contains(products[j]),
{
    let keep = in_category(category);
    let direct = |p: Product| p.categories@.contains(category);
    assert(keep =~= direct);
    broadcast use Seq::lemma_filter_pred;

    assert forall|j: int| 0 <= j < products.len() && (#[trigger] products[j]).categories@.contains(category)
        implies products.filter(keep).contains(products[j]) by {
        products.lemma_filter_contains(keep, j);
    }
}

/// Every field given in an update becomes the product's new value, every
/// field left out keeps its old value; the id and the creation time stay,
/// and the update time becomes `now`.
pub proof fn law_update_sets_exactly_the_given_fields(p: Product, update: ProductUpdate, now: u64)
    ensures
        ({
            let q = updated_product(p, update, now);
            &&& q.id == p.id
            &&& q.created_at == p.created_at
            &&& q.updated_at == now
            &&& (update.name matches Some(v) ==> q.name == v)
            &&& (update.name is None ==> q.name == p.name)
            &&& (update.description matches Some(v) ==> q.description == v)
            &&& (update.description is None ==> q.description == p.description)
            &&& (update.price_cents matches Some(v) ==> q.price_cents == v)
            &&& (update.price_cents is None ==> q.price_cents == p.price_cents)
            &&& (update.stock matches Some(v) ==> q.stock == v)
            &&& (update.stock is None ==> q.stock == p.stock)
            &&& (update.status matches Some(v) ==> q.status == v)
            &&& (update.status is None ==> q.status == p.status)
            &&& (update.categories matches Some(v) ==> q.categories == v)
            &&& (update.categories is None ==> q.categories == p.categories)
        }),
{
}

/// A created product carries the id it was given, every field of the
/// request as given, and `now` as both its creation and update time.
pub proof fn law_created_product_has_the_given_fields(id: u64, new: NewProduct, now: u64)
    ensures
        ({
            let q = created_product(id, new, now);
            &&& q.id == id
            &&& q.name == new.name
            &&& q.description == new.description
            &&& q.price_cents == new.price_cents
            &&& q.stock == new.stock
            &&& q.status == new.status
            &&& q.categories == new.categories
            &&& q.created_at == now
            &&& q.updated_at == now
        }),
{
}

} // verus!
