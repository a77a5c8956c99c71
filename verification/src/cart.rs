//! Shopping carts: for each logged-in account, a list of
//! `(product id, quantity)` lines. A cart only records a choice; prices,
//! totals and orders are computed at checkout.

use vstd::prelude::*;

use crate::email_map::EmailMap;
use crate::products::{product_exists, product_index, Product};
use crate::seq_util::{
    first_match, lemma_filter_all, lemma_filter_push, lemma_filter_take_step, lemma_filter_update_rejected,
    lemma_first_match, lemma_first_match_at, lemma_first_match_none, lemma_first_match_push, lemma_first_match_update,
};

verus! {

/// One line of a cart.
#[derive(Debug, Clone, Copy, PartialEq, Eq, Structural)]
pub struct CartItem {
    pub product_id: u64,
    pub quantity: u64,
}

/// All carts, keyed by the account's e-mail.
#[derive(Debug)]
pub struct CartStore {
    pub by_email: EmailMap<Vec<CartItem>>,
}

impl Default for CartStore {
    /// No carts at all.
    fn default() -> (r: Self)
        ensures
            r.by_email@ == Map::<Seq<char>, Vec<CartItem>>::empty(),
    {
        CartStore { by_email: EmailMap::new() }
    }
}

/// The line is for product `product_id`.
pub open spec fn for_product(product_id: u64) -> spec_fn(CartItem) -> bool {
    |item: CartItem| item.product_id == product_id
}

/// The line is for some product other than `product_id`.
pub open spec fn not_for_product(product_id: u64) -> spec_fn(CartItem) -> bool {
    |item: CartItem| item.product_id != product_id
}

/// The position of the first line for `product_id`, or -1.
pub open spec fn line_of(items: Seq<CartItem>, product_id: u64) -> int {
    first_match(items, for_product(product_id))
}

/// The quantity that the cart records for `product_id` (its first line
/// for that product), 0 when there is none.
pub open spec fn quantity_of(items: Seq<CartItem>, product_id: u64) -> int {
    let i = line_of(items, product_id);
    if i >= 0 {
        items[i].quantity as int
    } else {
        0
    }
}

/// Adding `quantity` of `product_id` fits in a `u64` quantity.
pub open spec fn upsert_fits(items: Seq<CartItem>, product_id: u64, quantity: u64) -> bool {
    line_of(items, product_id) >= 0 ==> items[line_of(items, product_id)].quantity + quantity <= u64::MAX
}

/// The cart after adding `quantity` of `product_id`: a quantity of 0
/// removes the product's line; otherwise the first line for the product
/// grows by `quantity`, or a new line is appended when there is none.
pub open spec fn upserted(items: Seq<CartItem>, product_id: u64, quantity: u64) -> Seq<CartItem> {
    let i = line_of(items, product_id);
    if quantity == 0 {
        items.filter(not_for_product(product_id))
    } else if i >= 0 {
        items.update(i, CartItem { product_id, quantity: (items[i].quantity + quantity) as u64 })
    } else {
        items.push(CartItem { product_id, quantity })
    }
}

/// No two lines of the cart are for the same product.
pub open spec fn distinct_products(items: Seq<CartItem>) -> bool {
    forall|i: int, j: int|
        0 <= i < items.len() && 0 <= j < items.len() && i != j ==> #[trigger] items[i].product_id
            != #[trigger] items[j].product_id
}

/// The position of the first line for `product_id`, if any.
fn find_line(items: &Vec<CartItem>, product_id: u64) -> (r: Option<usize>)
    ensures
        match r {
            Some(i) => line_of(items@, product_id) == i,
            None => line_of(items@, product_id) == -1,
        },
{
    let mut i: usize = 0;
    while i < items.len()
        invariant
            i <= items@.len(),
            forall|j: int| 0 <= j < i ==> !for_product(product_id)(#[trigger] items@[j]),
        decreases items@.len() - i,
    {
        if items[i].product_id == product_id {
            proof {
                lemma_first_match_at(items@, for_product(product_id), i as int);
            }
            return Some(i);
        }
        i = i + 1;
    }
    proof {
        lemma_first_match_none(items@, for_product(product_id));
    }
    None
}

/// Whether adding `quantity` of `product_id` to `items` keeps the
/// quantity within a `u64`; `upsert_item` may be called exactly then.
pub fn upsert_fits_in(items: &Vec<CartItem>, product_id: u64, quantity: u64) -> (r: bool)
    ensures
        r == upsert_fits(items@, product_id, quantity),
{
    proof {
        lemma_first_match(items@, for_product(product_id));
    }
    match find_line(items, product_id) {
        Some(i) => items[i].quantity <= u64::MAX - quantity,
        None => true,
    }
}

/// Adds `quantity` of `product_id` to the cart: an existing line for the
/// product grows by `quantity`, otherwise a new line is appended; a
/// quantity of 0 removes the product's line instead.
pub fn upsert_item(items: &mut Vec<CartItem>, product_id: u64, quantity: u64)
    requires
        upsert_fits(old(items)@, product_id, quantity),
    ensures
        final(items)@ == upserted(old(items)@, product_id, quantity),
{
    if quantity == 0 {
        remove_item(items, product_id);
        return;
    }
    proof {
        lemma_first_match(items@, for_product(product_id));
    }
    match find_line(items, product_id) {
        Some(i) => {
            let mut item = items[i];
            item.quantity = item.quantity + quantity;
            items.set(i, item);
        },
        None => {
            items.push(CartItem { product_id, quantity });
        },
    }
}

/// Removes every line for `product_id`, keeping the others in order.
pub fn remove_item(items: &mut Vec<CartItem>, product_id: u64)
    ensures
        final(items)@ == old(items)@.filter(not_for_product(product_id)),
{
    let ghost initial = items@;
    let mut kept: Vec<CartItem> = Vec::new();
    let mut i: usize = 0;
    while i < items.len()
        invariant
            items@ == initial,
            i <= initial.len(),
            kept@ == initial.take(i as int).filter(not_for_product(product_id)),
        decreases initial.len() - i,
    {
        proof {
            lemma_filter_take_step(initial, not_for_product(product_id), i as int);
        }
        let item = items[i];
        if item.product_id != product_id {
            kept.push(item);
        }
        i = i + 1;
    }
    proof {
        assert(initial.take(initial.len() as int) =~= initial);
    }
    *items = kept;
}

/// Adding to a cart raises the quantity recorded for that product by the
/// amount added and leaves every other product's quantity as it was.
pub proof fn law_upsert_accumulates(items: Seq<CartItem>, product_id: u64, quantity: u64, other: u64)
    requires
        upsert_fits(items, product_id, quantity),
        quantity > 0,
        other != product_id,
    ensures
        quantity_of(upserted(items, product_id, quantity), product_id) == quantity_of(items, product_id)
            + quantity,
        quantity_of(upserted(items, product_id, quantity), other) == quantity_of(items, other),
{
    let p = for_product(product_id);
    let q = for_product(other);
    let u = upserted(items, product_id, quantity);
    lemma_first_match(items, p);
    lemma_first_match(items, q);
    let i = line_of(items, product_id);
    if i >= 0 {
        let x = CartItem { product_id, quantity: (items[i].quantity + quantity) as u64 };
        lemma_first_match_update(items, p, i, x);
        assert(q(items[i]) == q(x));
        lemma_first_match_update(items, q, i, x);
    } else {
        let x = CartItem { product_id, quantity };
        lemma_first_match_push(items, p, x);
        lemma_first_match_push(items, q, x);
    }
}

/// Adding a quantity of 0 takes the product out of the cart and leaves
/// every other product's quantity as it was.
pub proof fn law_upsert_zero_removes(items: Seq<CartItem>, product_id: u64, other: u64)
    requires
        other != product_id,
    ensures
        upserted(items, product_id, 0) == items.filter(not_for_product(product_id)),
        quantity_of(upserted(items, product_id, 0), product_id) == 0,
        quantity_of(upserted(items, product_id, 0), other) == quantity_of(items, other),
{
    law_remove_clears_only_that_product(items, product_id, other);
}

/// Filtering keeps lines for distinct products distinct.
proof fn lemma_filter_keeps_distinct(items: Seq<CartItem>, keep: spec_fn(CartItem) -> bool)
    requires
        distinct_products(items),
    ensures
        distinct_products(items.filter(keep)),
    decreases items.len(),
{
    if items.len() == 0 {
        reveal(Seq::filter);
        return;
    }
    let d = items.drop_last();
    let x = items.last();
    assert(items =~= d.push(x));
    assert forall|a: int, b: int|
        0 <= a < d.len() && 0 <= b < d.len() && a != b implies #[trigger] d[a].product_id
        != #[trigger] d[b].product_id by {
        assert(d[a] == items[a] && d[b] == items[b]);
    }
    lemma_filter_keeps_distinct(d, keep);
    lemma_filter_push(d, keep, x);
    let fd = d.filter(keep);
    if keep(x) {
        let f = fd.push(x);
        assert forall|a: int, b: int|
            0 <= a < f.len() && 0 <= b < f.len() && a != b implies #[trigger] f[a].product_id
            != #[trigger] f[b].product_id by {
            if a < fd.len() && b < fd.len() {
                assert(f[a] == fd[a] && f[b] == fd[b]);
            } else {
                let c = if a < fd.len() { a } else { b };
                assert(fd.contains(f[c]));
                d.lemma_filter_contains_rev(keep, f[c]);
                let k = choose|k: int| 0 <= k < d.len() && d[k] == f[c];
                assert(items[k].product_id != items[items.len() - 1].product_id);
            }
        }
    }
}

/// Adding to a cart whose lines are for distinct products keeps them
/// distinct.
pub proof fn law_upsert_keeps_products_distinct(items: Seq<CartItem>, product_id: u64, quantity: u64)
    requires
        distinct_products(items),
    ensures
        distinct_products(upserted(items, product_id, quantity)),
{
    let p = for_product(product_id);
    lemma_first_match(items, p);
    let i = line_of(items, product_id);
    let u = upserted(items, product_id, quantity);
    if quantity == 0 {
        lemma_filter_keeps_distinct(items, not_for_product(product_id));
    } else if i < 0 {
        assert forall|a: int, b: int|
            0 <= a < u.len() && 0 <= b < u.len() && a != b implies #[trigger] u[a].product_id
            != #[trigger] u[b].product_id by {
            if a < items.len() && b < items.len() {
                assert(items[a].product_id != items[b].product_id);
            } else if a == items.len() {
                assert(!p(items[b]));
            } else {
                assert(!p(items[a]));
            }
        }
    } else if i >= 0 {
        assert forall|a: int, b: int|
            0 <= a < u.len() && 0 <= b < u.len() && a != b implies #[trigger] u[a].product_id
            != #[trigger] u[b].product_id by {
            assert(items[a].product_id != items[b].product_id);
        }
    }
}

/// Filtering out the lines of `product_id` keeps the first line of every
/// other product.
proof fn lemma_filter_keeps_other_line(items: Seq<CartItem>, product_id: u64, other: u64)
    requires
        other != product_id,
    ensures
        (line_of(items.filter(not_for_product(product_id)), other) >= 0) == (line_of(items, other) >= 0),
        line_of(items, other) >= 0 ==> items.filter(not_for_product(product_id))[line_of(
            items.filter(not_for_product(product_id)),
            other,
        )] == items[line_of(items, other)],
    decreases items.len(),
{
    let keep = not_for_product(product_id);
    let q = for_product(other);
    if items.len() > 0 {
        let d = items.drop_last();
        let x = items.last();
        let fd = d.filter(keep);
        lemma_filter_keeps_other_line(d, product_id, other);
        assert(items =~= d.push(x));
        lemma_filter_push(d, keep, x);
        lemma_first_match_push(d, q, x);
        lemma_first_match(d, q);
        lemma_first_match(fd, q);
        if keep(x) {
            lemma_first_match_push(fd, q, x);
            if first_match(fd, q) >= 0 {
                assert(fd.push(x)[first_match(fd, q)] == fd[first_match(fd, q)]);
            }
        }
        if first_match(d, q) >= 0 {
            assert(items[first_match(d, q)] == d[first_match(d, q)]);
        }
    } else {
        reveal(Seq::filter);
    }
}

/// Removing a product from a cart leaves no line for it, and every other
/// product keeps its quantity.
pub proof fn law_remove_clears_only_that_product(items: Seq<CartItem>, product_id: u64, other: u64)
    requires
        other != product_id,
    ensures
        quantity_of(items.filter(not_for_product(product_id)), product_id) == 0,
        quantity_of(items.filter(not_for_product(product_id)), other) == quantity_of(items, other),
{
    let keep = not_for_product(product_id);
    let f = items.filter(keep);
    broadcast use Seq::lemma_filter_pred;
    lemma_first_match(f, for_product(product_id));
    if line_of(f, product_id) >= 0 {
        let j = line_of(f, product_id);
        assert(keep(f[j]));
    }
    lemma_filter_keeps_other_line(items, product_id, other);
}

/// Removing a product right after adding it gives the same cart as
/// removing it straight away.
pub proof fn law_remove_undoes_upsert(items: Seq<CartItem>, product_id: u64, quantity: u64)
    ensures
        upserted(items, product_id, quantity).filter(not_for_product(product_id)) == items.filter(
            not_for_product(product_id),
        ),
{
    let p = for_product(product_id);
    let keep = not_for_product(product_id);
    lemma_first_match(items, p);
    let i = line_of(items, product_id);
    if quantity == 0 {
        let f = items.filter(keep);
        assert forall|j: int| 0 <= j < f.len() implies keep(#[trigger] f[j]) by {
            items.lemma_filter_pred(keep, j);
        }
        lemma_filter_all(f, keep);
    } else if i >= 0 {
        let x = CartItem { product_id, quantity: (items[i].quantity + quantity) as u64 };
        lemma_filter_update_rejected(items, keep, i, x);
    } else {
        lemma_filter_push(items, keep, CartItem { product_id, quantity });
    }
}

/// The quantity added to a cart when none is given.
pub fn default_cart_quantity() -> (r: u64)
    ensures
        r == 1,
{
    1
}

/// The lines of the cart of `email`, empty when it has none.
pub open spec fn cart_of(store: CartStore, email: Seq<char>) -> Seq<CartItem> {
    if store.by_email@.contains_key(email) {
        store.by_email@[email]@
    } else {
        Seq::empty()
    }
}

/// What the store says of every account, carts as sequences of lines.
pub open spec fn carts_view(store: CartStore) -> Map<Seq<char>, Seq<CartItem>> {
    store.by_email@.map_values(|v: Vec<CartItem>| v@)
}

/// Why a cart request was refused.
#[derive(Debug, Clone, Copy, PartialEq, Eq, Structural)]
pub enum CartError {
    /// Nobody is logged in (answered with 401).
    LoginRequired,
    /// The quantity is 0 (answered with 400).
    InvalidQuantity,
    /// No product has the id (answered with 404).
    ProductNotFound,
    /// The cart has no line for the product (answered with 404).
    ItemNotFound,
}

/// `add` leaves out only the accepted requests whose grown line would
/// not fit in a `u64`.
pub open spec fn add_allowed(
    store: CartStore,
    session_email: Option<&String>,
    product_id: u64,
    quantity: u64,
    products: Seq<Product>,
) -> bool {
    session_email is Some && quantity > 0 && product_index(products, product_id) >= 0 ==> upsert_fits(
        cart_of(store, session_email.unwrap()@),
        product_id,
        quantity,
    )
}

impl CartStore {
    /// Whether `add` may be called with these arguments: false only when
    /// the request would be accepted (a login, a positive quantity, an
    /// existing product) and the grown line would not fit in a `u64`.
    pub fn add_fits(&self, session_email: Option<&String>, product_id: u64, quantity: u64, products: &Vec<
        Product,
    >) -> (r: bool)
        ensures
            r == add_allowed(*self, session_email, product_id, quantity, products@),
    {
        if quantity == 0 || !product_exists(products, product_id) {
            return true;
        }
        match session_email {
            Some(email) => match self.by_email.get(email) {
                Some(items) => upsert_fits_in(items, product_id, quantity),
                None => {
                    proof {
                        lemma_first_match_none(Seq::<CartItem>::empty(), for_product(product_id));
                    }
                    true
                },
            },
            None => true,
        }
    }

    /// Adds `quantity` of `product_id` to the cart of the logged-in
    /// account (growing an existing line). Refused without a login, for a
    /// zero quantity, or for a product that does not exist, in that order.
    /// The stock is not checked here.
    pub fn add(&mut self, session_email: Option<&String>, product_id: u64, quantity: u64, products: &Vec<
        Product,
    >) -> (r: Result<(), CartError>)
        requires
            add_allowed(*old(self), session_email, product_id, quantity, products@),
        ensures
            session_email is None ==> r == Err::<(), CartError>(CartError::LoginRequired),
            session_email is Some && quantity == 0 ==> r == Err::<(), CartError>(CartError::InvalidQuantity),
            session_email is Some && quantity > 0 && product_index(products@, product_id) < 0 ==> r == Err::<
                (),
                CartError,
            >(CartError::ProductNotFound),
            r is Ok <==> (session_email is Some && quantity > 0 && product_index(products@, product_id) >= 0),
            r is Err ==> carts_view(*final(self)) == carts_view(*old(self)),
            r is Ok ==> carts_view(*final(self)) == carts_view(*old(self)).insert(
                session_email.unwrap()@,
                upserted(cart_of(*old(self), session_email.unwrap()@), product_id, quantity),
            ),
    {
        let email = match session_email {
            Some(e) => e,
            None => return Err(CartError::LoginRequired),
        };
        if quantity == 0 {
            return Err(CartError::InvalidQuantity);
        }
        if !product_exists(products, product_id) {
            return Err(CartError::ProductNotFound);
        }
        let ghost before = *self;
        let mut items = match self.by_email.remove(email) {
            Some(items) => items,
            None => Vec::new(),
        };
        upsert_item(&mut items, product_id, quantity);
        self.by_email.insert(email.clone(), items);
        proof {
            assert(carts_view(*self) =~= carts_view(before).insert(
                email@,
                upserted(cart_of(before, email@), product_id, quantity),
            ));
        }
        Ok(())
    }

    /// Removes the lines for `product_id` from the cart of the logged-in
    /// account. Refused without a login, or when the cart has no line for
    /// the product.
    pub fn remove(&mut self, session_email: Option<&String>, product_id: u64) -> (r: Result<(), CartError>)
        ensures
            session_email is None ==> r == Err::<(), CartError>(CartError::LoginRequired),
            session_email is Some && line_of(cart_of(*old(self), session_email.unwrap()@), product_id) < 0 ==> r
                == Err::<(), CartError>(CartError::ItemNotFound),
            r is Ok <==> (session_email is Some && line_of(cart_of(*old(self), session_email.unwrap()@), product_id)
                >= 0),
            r is Err ==> carts_view(*final(self)) == carts_view(*old(self)),
            r is Ok ==> carts_view(*final(self)) == carts_view(*old(self)).insert(
                session_email.unwrap()@,
                cart_of(*old(self), session_email.unwrap()@).filter(not_for_product(product_id)),
            ),
    {
        let email = match session_email {
            Some(e) => e,
            None => return Err(CartError::LoginRequired),
        };
        let found = match self.by_email.get(email) {
            Some(items) => find_line(items, product_id).is_some(),
            None => {
                proof {
                    lemma_first_match_none(Seq::<CartItem>::empty(), for_product(product_id));
                }
                false
            },
        };
        if !found {
            return Err(CartError::ItemNotFound);
        }
        let ghost before = *self;
        let mut items = match self.by_email.remove(email) {
            Some(items) => items,
            None => Vec::new(),
        };
        remove_item(&mut items, product_id);
        self.by_email.insert(email.clone(), items);
        proof {
            assert(carts_view(*self) =~= carts_view(before).insert(
                email@,
                cart_of(before, email@).filter(not_for_product(product_id)),
            ));
        }
        Ok(())
    }
}

/// Carts are per account: changing one account's cart leaves every other
/// account's cart as it was.
pub proof fn law_carts_are_per_account(
    before: CartStore,
    after: CartStore,
    email: Seq<char>,
    items: Seq<CartItem>,
    other: Seq<char>,
)
    requires
        carts_view(after) == carts_view(before).insert(email, items),
        other != email,
    ensures
        cart_of(after, email) == items,
        cart_of(after, other) == cart_of(before, other),
{
    assert(carts_view(after).dom() == after.by_email@.dom());
    assert(carts_view(before).dom() == before.by_email@.dom());
    assert(after.by_email@.contains_key(email));
    assert(carts_view(after)[email] == after.by_email@[email]@);
    if before.by_email@.contains_key(other) {
        assert(carts_view(before)[other] == before.by_email@[other]@);
        assert(carts_view(after)[other] == after.by_email@[other]@);
    }
}

/// Every cart has its lines for distinct products.
pub open spec fn carts_distinct(store: CartStore) -> bool {
    forall|e: Seq<char>| #[trigger] store.by_email@.contains_key(e) ==> distinct_products(store.by_email@[e]@)
}

/// Adding to and removing from carts keeps every cart's lines for distinct
/// products.
pub proof fn law_cart_changes_keep_lines_distinct(
    before: CartStore,
    after: CartStore,
    email: Seq<char>,
    product_id: u64,
    quantity: u64,
    added: bool,
)
    requires
        carts_distinct(before),
        carts_view(after) == carts_view(before).insert(
            email,
            if added {
                upserted(cart_of(before, email), product_id, quantity)
            } else {
                cart_of(before, email).filter(not_for_product(product_id))
            },
        ),
    ensures
        carts_distinct(after),
{
    let old_cart = cart_of(before, email);
    assert(distinct_products(old_cart));
    let new_cart = if added {
        upserted(old_cart, product_id, quantity)
    } else {
        old_cart.filter(not_for_product(product_id))
    };
    if added {
        law_upsert_keeps_products_distinct(old_cart, product_id, quantity);
    } else {
        lemma_filter_keeps_distinct(old_cart, not_for_product(product_id));
    }
    assert forall|e: Seq<char>| #[trigger] after.by_email@.contains_key(e) implies distinct_products(
        after.by_email@[e]@,
    ) by {
        assert(carts_view(after).contains_key(e));
        assert(carts_view(after)[e] == after.by_email@[e]@);
        if e != email {
            assert(carts_view(before)[e] == before.by_email@[e]@);
        }
    }
}

} // verus!
