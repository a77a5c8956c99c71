//! What a cart is worth and how it becomes an order: the cart view with
//! subtotals and total, and checkout, which checks the cart against the
//! catalogue, pays through the mock gateway, and on success takes the
//! quantities off the stock and empties the cart.

use vstd::prelude::*;

use crate::access::string_opt_view;
use crate::cart::{cart_of, distinct_products, for_product, line_of, quantity_of, CartItem, CartStore};
use crate::order::{
    mock_reference, process_mock_payment, zero_amount_reference, Order, OrderItem, OrderStatus, OrderStore,
};
use crate::products::{product_index, Product, ProductStatus, ProductStore};
use crate::records::{position_of, with_id};
use crate::seq_util::{lemma_first_match, lemma_first_match_at, lemma_first_match_none, lemma_first_match_push};

verus! {

/// `a * b`, or `u64::MAX` when the product does not fit.
pub open spec fn sat_mul(a: u64, b: u64) -> u64 {
    if a * b <= u64::MAX {
        (a * b) as u64
    } else {
        u64::MAX
    }
}

/// `a.saturating_mul(b)`.
pub fn saturating_mul(a: u64, b: u64) -> (r: u64)
    ensures
        r == sat_mul(a, b),
{
    match a.checked_mul(b) {
        Some(v) => v,
        None => u64::MAX,
    }
}

/// A cart line as shown to its owner, priced from the catalogue.
#[derive(Debug, Clone)]
pub struct CartLine {
    pub product_id: u64,
    pub name: String,
    pub unit_price_cents: u64,
    pub quantity: u64,
    pub subtotal_cents: u64,
}

/// A cart as shown to its owner.
#[derive(Debug)]
pub struct CartView {
    pub items: Vec<CartLine>,
    pub total_cents: u64,
}

/// The line shown for cart line `item` of product `p`.
pub open spec fn cart_line(p: Product, item: CartItem) -> CartLine {
    CartLine {
        product_id: p.id,
        name: p.name,
        unit_price_cents: p.price_cents,
        quantity: item.quantity,
        subtotal_cents: sat_mul(p.price_cents, item.quantity),
    }
}

/// The lines shown for a cart: one per cart line whose product (the first
/// with its id) exists; lines of deleted products are left out.
pub open spec fn cart_lines(items: Seq<CartItem>, products: Seq<Product>) -> Seq<CartLine>
    decreases items.len(),
{
    if items.len() == 0 {
        Seq::empty()
    } else {
        let before = cart_lines(items.drop_last(), products);
        let i = product_index(products, items.last().product_id);
        if i >= 0 {
            before.push(cart_line(products[i], items.last()))
        } else {
            before
        }
    }
}

/// The sum of the subtotals of the shown lines.
pub open spec fn cart_total(items: Seq<CartItem>, products: Seq<Product>) -> nat
    decreases items.len(),
{
    if items.len() == 0 {
        0
    } else {
        let i = product_index(products, items.last().product_id);
        cart_total(items.drop_last(), products) + if i >= 0 {
            sat_mul(products[i].price_cents, items.last().quantity) as nat
        } else {
            0nat
        }
    }
}

/// The total of a prefix of the cart is at most the total of the cart.
proof fn lemma_cart_total_prefix(items: Seq<CartItem>, products: Seq<Product>, k: int)
    requires
        0 <= k <= items.len(),
    ensures
        cart_total(items.take(k), products) <= cart_total(items, products),
    decreases items.len() - k,
{
    if k < items.len() {
        lemma_cart_total_prefix(items, products, k + 1);
        assert(items.take(k + 1).drop_last() =~= items.take(k));
    } else {
        assert(items.take(k) =~= items);
    }
}

/// Whether the total of the cart fits in a `u64`; `build_cart_view` may
/// be called exactly then.
pub fn cart_total_fits(items: &[CartItem], products: &Vec<Product>) -> (r: bool)
    ensures
        r == (cart_total(items@, products@) <= u64::MAX),
{
    let mut total: u64 = 0;
    let mut k: usize = 0;
    while k < items.len()
        invariant
            k <= items@.len(),
            total == cart_total(items@.take(k as int), products@),
        decreases items@.len() - k,
    {
        let item = items[k];
        proof {
            assert(items@.take(k + 1).drop_last() =~= items@.take(k as int));
            assert(items@.take(k + 1).last() == item);
        }
        if let Some(i) = position_of(products, item.product_id) {
            let subtotal = saturating_mul(products[i].price_cents, item.quantity);
            match total.checked_add(subtotal) {
                Some(t) => {
                    total = t;
                },
                None => {
                    proof {
                        lemma_cart_total_prefix(items@, products@, k + 1);
                    }
                    return false;
                },
            }
        }
        k = k + 1;
    }
    proof {
        assert(items@.take(items@.len() as int) =~= items@);
    }
    true
}

/// The cart view: a line with its subtotal (price times quantity,
/// saturating) for every cart line whose product exists, and the total.
pub fn build_cart_view(items: &[CartItem], products: &Vec<Product>) -> (r: CartView)
    requires
        cart_total(items@, products@) <= u64::MAX,
    ensures
        r.items@ == cart_lines(items@, products@),
        r.total_cents == cart_total(items@, products@),
{
    let mut lines: Vec<CartLine> = Vec::new();
    let mut total: u64 = 0;
    let mut k: usize = 0;
    while k < items.len()
        invariant
            k <= items@.len(),
            cart_total(items@, products@) <= u64::MAX,
            lines@ == cart_lines(items@.take(k as int), products@),
            total == cart_total(items@.take(k as int), products@),
        decreases items@.len() - k,
    {
        let item = items[k];
        proof {
            assert(items@.take(k + 1).drop_last() =~= items@.take(k as int));
            assert(items@.take(k + 1).last() == item);
            lemma_cart_total_prefix(items@, products@, k + 1);
        }
        if let Some(i) = position_of(products, item.product_id) {
            let product = &products[i];
            let subtotal = saturating_mul(product.price_cents, item.quantity);
            total = total + subtotal;
            lines.push(
                CartLine {
                    product_id: product.id,
                    name: product.name.clone(),
                    unit_price_cents: product.price_cents,
                    quantity: item.quantity,
                    subtotal_cents: subtotal,
                },
            );
        }
        k = k + 1;
    }
    proof {
        assert(items@.take(items@.len() as int) =~= items@);
    }
    CartView { items: lines, total_cents: total }
}

impl CartStore {
    /// The lines of the cart of `email` (none when it has no cart).
    pub fn items_of<'a>(&'a self, email: &String) -> (r: &'a [CartItem])
        ensures
            r@ == cart_of(*self, email@),
    {
        match self.by_email.get(email) {
            Some(v) => v.as_slice(),
            None => &[],
        }
    }
}


/// Why a checkout was refused.
#[derive(Debug, Clone, Copy, PartialEq, Eq, Structural)]
pub enum CheckoutError {
    /// Nobody is logged in (answered with 401).
    LoginRequired,
    /// The cart is empty (answered with 400).
    EmptyCart,
    /// A cart line names a product that no longer exists (answered with 400).
    ProductMissing { product_id: u64 },
    /// A cart line asks for more than the product's stock (answered with 400).
    InsufficientStock { product_id: u64, available: u64, requested: u64 },
}

/// What a checkout that went through produced: the new order's id, and
/// whether the (mock) payment succeeded.
#[derive(Debug, Clone, Copy, PartialEq, Eq, Structural)]
pub struct CheckoutOutcome {
    pub order_id: u64,
    pub paid: bool,
}

/// What is wrong with cart line `item`, checked against the first product
/// with its id.
pub open spec fn line_error(products: Seq<Product>, item: CartItem) -> Option<CheckoutError> {
    let i = product_index(products, item.product_id);
    if i < 0 {
        Some(CheckoutError::ProductMissing { product_id: item.product_id })
    } else if products[i].stock < item.quantity {
        Some(
            CheckoutError::InsufficientStock {
                product_id: products[i].id,
                available: products[i].stock,
                requested: item.quantity,
            },
        )
    } else {
        None
    }
}

/// The error of the first cart line that has one.
pub open spec fn scan_error(items: Seq<CartItem>, products: Seq<Product>) -> Option<CheckoutError>
    decreases items.len(),
{
    if items.len() == 0 {
        None
    } else {
        match scan_error(items.drop_last(), products) {
            Some(e) => Some(e),
            None => line_error(products, items.last()),
        }
    }
}

/// The order line that cart line `item` of product `p` becomes.
pub open spec fn order_item(p: Product, item: CartItem) -> OrderItem {
    OrderItem { product_id: p.id, name: p.name, unit_price_cents: p.price_cents, quantity: item.quantity }
}

/// The order lines of a cart whose lines all check out.
pub open spec fn order_lines(items: Seq<CartItem>, products: Seq<Product>) -> Seq<OrderItem>
    decreases items.len(),
{
    if items.len() == 0 {
        Seq::empty()
    } else {
        order_lines(items.drop_last(), products).push(
            order_item(products[product_index(products, items.last().product_id)], items.last()),
        )
    }
}

/// Adding up the order total overflows a `u64` before a failing line (if
/// any) is reached.
pub open spec fn scan_overflows(items: Seq<CartItem>, products: Seq<Product>) -> bool
    decreases items.len(),
{
    if items.len() == 0 {
        false
    } else {
        ||| scan_overflows(items.drop_last(), products)
        ||| (scan_error(items, products) is None && cart_total(items, products) > u64::MAX)
    }
}

/// Product `p` after `quantity` of it was sold at time `now`; it is sold
/// out when no stock is left.
pub open spec fn decremented(p: Product, quantity: u64, now: u64) -> Product {
    Product {
        stock: (p.stock - quantity) as u64,
        updated_at: now,
        status: if p.stock - quantity == 0 {
            ProductStatus::SoldOut
        } else {
            p.status
        },
        ..p
    }
}

/// The catalogue after the cart lines were taken off the stock, one after
/// the other, each from the first product with its id.
pub open spec fn purchased(products: Seq<Product>, items: Seq<CartItem>, now: u64) -> Seq<Product>
    decreases items.len(),
{
    if items.len() == 0 {
        products
    } else {
        let before = purchased(products, items.drop_last(), now);
        let i = product_index(before, items.last().product_id);
        if i < 0 {
            before
        } else {
            before.update(i, decremented(before[i], items.last().quantity, now))
        }
    }
}

/// Taking the cart lines off the stock one after the other drives some
/// stock below zero.
pub open spec fn purchase_underflows(products: Seq<Product>, items: Seq<CartItem>, now: u64) -> bool
    decreases items.len(),
{
    if items.len() == 0 {
        false
    } else {
        let before = purchased(products, items.drop_last(), now);
        let i = product_index(before, items.last().product_id);
        ||| purchase_underflows(products, items.drop_last(), now)
        ||| (i >= 0 && before[i].stock < items.last().quantity)
    }
}

/// The inputs on which checkout would overflow an integer: adding up the
/// total, numbering the order, or taking a paid cart off the stock.
pub open spec fn checkout_overflows(
    session_email: Option<Seq<char>>,
    carts: CartStore,
    products: Seq<Product>,
    next_order_id: u64,
    now: u64,
) -> bool {
    match session_email {
        None => false,
        Some(email) => {
            let items = cart_of(carts, email);
            &&& items.len() > 0
            &&& {
                ||| scan_overflows(items, products)
                ||| (scan_error(items, products) is None && next_order_id == u64::MAX)
                ||| (scan_error(items, products) is None && cart_total(items, products) != 0
                    && purchase_underflows(products, items, now))
            }
        },
    }
}

/// How a scan of the cart came out.
pub enum ScanOutcome {
    /// Every line checks out: the order lines and the total.
    Lines(Vec<OrderItem>, u64),
    /// The first failing line's error.
    Failed(CheckoutError),
    /// The total overflowed a `u64` before any failing line.
    Overflow,
}

/// Once a prefix of the cart has an error, longer prefixes keep it and add
/// no overflow.
proof fn lemma_scan_error_persists(items: Seq<CartItem>, products: Seq<Product>, k: int, m: int)
    requires
        0 <= k <= m <= items.len(),
        scan_error(items.take(k), products) is Some,
    ensures
        scan_error(items.take(m), products) == scan_error(items.take(k), products),
        scan_overflows(items.take(m), products) == scan_overflows(items.take(k), products),
    decreases m - k,
{
    if k < m {
        lemma_scan_error_persists(items, products, k, m - 1);
        assert(items.take(m).drop_last() =~= items.take(m - 1));
    }
}

/// Once a prefix of the cart overflows, longer prefixes do too.
proof fn lemma_scan_overflow_persists(items: Seq<CartItem>, products: Seq<Product>, k: int, m: int)
    requires
        0 <= k <= m <= items.len(),
        scan_overflows(items.take(k), products),
    ensures
        scan_overflows(items.take(m), products),
    decreases m - k,
{
    if k < m {
        lemma_scan_overflow_persists(items, products, k, m - 1);
        assert(items.take(m).drop_last() =~= items.take(m - 1));
    }
}

/// Checks the cart lines against the catalogue in order, building the
/// order lines and adding up the total.
pub fn scan_cart(items: &[CartItem], products: &Vec<Product>) -> (r: ScanOutcome)
    ensures
        r is Overflow <==> scan_overflows(items@, products@),
        r matches ScanOutcome::Failed(e) ==> scan_error(items@, products@) == Some(e),
        !scan_overflows(items@, products@) && scan_error(items@, products@) is Some ==> r is Failed,
        r matches ScanOutcome::Lines(v, t) ==> scan_error(items@, products@) is None && v@ == order_lines(
            items@,
            products@,
        ) && t == cart_total(items@, products@),
{
    let mut lines: Vec<OrderItem> = Vec::new();
    let mut total: u64 = 0;
    let mut k: usize = 0;
    while k < items.len()
        invariant
            k <= items@.len(),
            !scan_overflows(items@.take(k as int), products@),
            scan_error(items@.take(k as int), products@) is None,
            lines@ == order_lines(items@.take(k as int), products@),
            total == cart_total(items@.take(k as int), products@),
        decreases items@.len() - k,
    {
        let item = items[k];
        let ghost next = items@.take(k + 1);
        proof {
            assert(next.drop_last() =~= items@.take(k as int));
            assert(next.last() == item);
        }
        let i = match position_of(products, item.product_id) {
            Some(i) => i,
            None => {
                let e = CheckoutError::ProductMissing { product_id: item.product_id };
                proof {
                    assert(scan_error(next, products@) == Some(e));
                    lemma_scan_error_persists(items@, products@, k + 1, items@.len() as int);
                    assert(items@.take(items@.len() as int) =~= items@);
                }
                return ScanOutcome::Failed(e);
            },
        };
        let product = &products[i];
        if product.stock < item.quantity {
            let e = CheckoutError::InsufficientStock {
                product_id: product.id,
                available: product.stock,
                requested: item.quantity,
            };
            proof {
                assert(scan_error(next, products@) == Some(e));
                lemma_scan_error_persists(items@, products@, k + 1, items@.len() as int);
                assert(items@.take(items@.len() as int) =~= items@);
            }
            return ScanOutcome::Failed(e);
        }
        let subtotal = saturating_mul(product.price_cents, item.quantity);
        match total.checked_add(subtotal) {
            Some(t) => {
                total = t;
            },
            None => {
                proof {
                    assert(scan_overflows(next, products@));
                    lemma_scan_overflow_persists(items@, products@, k + 1, items@.len() as int);
                    assert(items@.take(items@.len() as int) =~= items@);
                }
                return ScanOutcome::Overflow;
            },
        }
        lines.push(
            OrderItem {
                product_id: product.id,
                name: product.name.clone(),
                unit_price_cents: product.price_cents,
                quantity: item.quantity,
            },
        );
        k = k + 1;
    }
    proof {
        assert(items@.take(items@.len() as int) =~= items@);
    }
    ScanOutcome::Lines(lines, total)
}

/// Taking the lines off the stock changes neither the number of products
/// nor their ids.
proof fn lemma_purchased_keeps_ids(products: Seq<Product>, items: Seq<CartItem>, now: u64)
    ensures
        purchased(products, items, now).len() == products.len(),
        forall|j: int| 0 <= j < products.len() ==> #[trigger] purchased(products, items, now)[j].id == products[j].id,
    decreases items.len(),
{
    if items.len() > 0 {
        lemma_purchased_keeps_ids(products, items.drop_last(), now);
        let before = purchased(products, items.drop_last(), now);
        lemma_first_match(before, with_id::<Product>(items.last().product_id));
    }
}

/// Sequences of products with the same ids find the same first product
/// for an id.
proof fn lemma_same_ids_same_index(a: Seq<Product>, b: Seq<Product>, id: u64)
    requires
        a.len() == b.len(),
        forall|j: int| 0 <= j < a.len() ==> #[trigger] a[j].id == b[j].id,
    ensures
        product_index(a, id) == product_index(b, id),
{
    let p = with_id::<Product>(id);
    lemma_first_match(a, p);
    lemma_first_match(b, p);
    let i = product_index(a, id);
    if i >= 0 {
        assert(p(b[i]));
        assert forall|j: int| 0 <= j < i implies !p(#[trigger] b[j]) by {
            assert(!p(a[j]));
        }
        lemma_first_match_at(b, p, i);
    } else {
        assert forall|j: int| 0 <= j < b.len() implies !p(#[trigger] b[j]) by {
            assert(!p(a[j]));
        }
        lemma_first_match_none(b, p);
    }
}

/// Once taking the lines off the stock underflowed, it stays so.
proof fn lemma_underflow_persists(products: Seq<Product>, items: Seq<CartItem>, now: u64, k: int, m: int)
    requires
        0 <= k <= m <= items.len(),
        purchase_underflows(products, items.take(k), now),
    ensures
        purchase_underflows(products, items.take(m), now),
    decreases m - k,
{
    if k < m {
        lemma_underflow_persists(products, items, now, k, m - 1);
        assert(items.take(m).drop_last() =~= items.take(m - 1));
    }
}

/// Whether taking `items` off the stock of `products` one after the
/// other stays at or above zero.
pub fn purchase_fits(products: &Vec<Product>, items: &[CartItem], now: u64) -> (r: bool)
    ensures
        r == !purchase_underflows(products@, items@, now),
{
    let mut stocks: Vec<u64> = Vec::new();
    let mut j: usize = 0;
    while j < products.len()
        invariant
            j <= products@.len(),
            stocks@.len() == j,
            forall|t: int| 0 <= t < j ==> #[trigger] stocks@[t] == products@[t].stock,
        decreases products@.len() - j,
    {
        stocks.push(products[j].stock);
        j = j + 1;
    }
    proof {
        assert(items@.take(0) =~= Seq::<CartItem>::empty());
    }
    let mut k: usize = 0;
    while k < items.len()
        invariant
            k <= items@.len(),
            stocks@.len() == products@.len(),
            forall|t: int| 0 <= t < stocks@.len() ==> #[trigger] stocks@[t] == purchased(
                products@,
                items@.take(k as int),
                now,
            )[t].stock,
            !purchase_underflows(products@, items@.take(k as int), now),
        decreases items@.len() - k,
    {
        let item = items[k];
        let ghost before = purchased(products@, items@.take(k as int), now);
        proof {
            assert(items@.take(k + 1).drop_last() =~= items@.take(k as int));
            assert(items@.take(k + 1).last() == item);
            lemma_purchased_keeps_ids(products@, items@.take(k as int), now);
            lemma_same_ids_same_index(products@, before, item.product_id);
        }
        if let Some(i) = position_of(products, item.product_id) {
            if stocks[i] < item.quantity {
                proof {
                    lemma_underflow_persists(products@, items@, now, k + 1, items@.len() as int);
                    assert(items@.take(items@.len() as int) =~= items@);
                }
                return false;
            }
            let left = stocks[i] - item.quantity;
            stocks.set(i, left);
        }
        k = k + 1;
    }
    proof {
        assert(items@.take(items@.len() as int) =~= items@);
    }
    true
}

/// Whether `checkout` would overflow an integer on these inputs (the
/// arithmetic the API does there is unchecked); `checkout` may be called
/// exactly when it would not.
pub fn checkout_would_overflow(
    session_email: Option<&String>,
    carts: &CartStore,
    products: &Vec<Product>,
    orders: &OrderStore,
    now: u64,
) -> (r: bool)
    ensures
        r == checkout_overflows(
            string_opt_view(session_email),
            *carts,
            products@,
            orders.next_id,
            now,
        ),
{
    let email = match session_email {
        Some(e) => e,
        None => return false,
    };
    let items = carts.items_of(email);
    if items.len() == 0 {
        return false;
    }
    match scan_cart(items, products) {
        ScanOutcome::Overflow => true,
        ScanOutcome::Failed(_) => false,
        ScanOutcome::Lines(_, total) => orders.next_id == u64::MAX || (total != 0 && !purchase_fits(
            products,
            items,
            now,
        )),
    }
}

/// Takes each cart line off the stock of the first product with its id,
/// one after the other, at time `now`.
fn take_off_stock(products: &mut Vec<Product>, items: &[CartItem], now: u64)
    requires
        !purchase_underflows(old(products)@, items@, now),
    ensures
        final(products)@ == purchased(old(products)@, items@, now),
{
    let ghost initial = products@;
    proof {
        assert(items@.take(0) =~= Seq::<CartItem>::empty());
    }
    let mut k: usize = 0;
    while k < items.len()
        invariant
            k <= items@.len(),
            !purchase_underflows(initial, items@, now),
            products@ == purchased(initial, items@.take(k as int), now),
        decreases items@.len() - k,
    {
        let item = items[k];
        let ghost before = products@;
        proof {
            assert(items@.take(k + 1).drop_last() =~= items@.take(k as int));
            assert(items@.take(k + 1).last() == item);
            assert(items@.take(items@.len() as int) =~= items@);
            if purchase_underflows(initial, items@.take(k + 1), now) {
                lemma_underflow_persists(initial, items@, now, k + 1, items@.len() as int);
            }
        }
        if let Some(i) = position_of(products, item.product_id) {
            let mut p = products.remove(i);
            let left = p.stock - item.quantity;
            p.stock = left;
            p.updated_at = now;
            if left == 0 {
                p.status = ProductStatus::SoldOut;
            }
            products.insert(i, p);
            proof {
                assert(products@ =~= before.update(i as int, decremented(before[i as int], item.quantity, now)));
            }
        }
        k = k + 1;
    }
    proof {
        assert(items@.take(items@.len() as int) =~= items@);
    }
}

/// Order `o` is the one checkout places for `email` with `lines` and
/// `total` at time `now`, under id `id`: paid with a mock reference when
/// the total is not zero, refused by the gateway otherwise.
pub open spec fn placed_order(o: Order, id: u64, email: Seq<char>, lines: Seq<OrderItem>, total: nat, now: u64) -> bool {
    &&& o.id == id
    &&& o.email@ == email
    &&& o.items@ == lines
    &&& o.total_cents == total
    &&& o.status == if total != 0 {
        OrderStatus::Paid
    } else {
        OrderStatus::PaymentFailed
    }
    &&& total != 0 ==> exists|draw: u64| o.payment_reference@ == #[trigger] mock_reference(draw)
    &&& total == 0 ==> o.payment_reference@ == zero_amount_reference()
    &&& o.created_at == now
    &&& o.updated_at == now
}

/// Turns the cart of the logged-in account into an order at time `now`.
/// Refused without a login, for an empty cart, and at the first cart line
/// whose product no longer exists or has too little stock; nothing
/// changes then. Otherwise the order (a snapshot of names, prices and
/// quantities) is paid through the mock gateway and recorded with the
/// next order id; when the payment succeeds the quantities are taken off
/// the stock (a product left with none is sold out) and the cart is
/// emptied, and when it fails stock and cart stay as they were.
pub fn checkout(
    session_email: Option<&String>,
    carts: &mut CartStore,
    products: &mut ProductStore,
    orders: &mut OrderStore,
    now: u64,
) -> (r: Result<CheckoutOutcome, CheckoutError>)
    requires
        !checkout_overflows(
            string_opt_view(session_email),
            *old(carts),
            old(products).products@,
            old(orders).next_id,
            now,
        ),
    ensures
        final(products).next_id == old(products).next_id,
        session_email is None ==> r == Err::<CheckoutOutcome, CheckoutError>(CheckoutError::LoginRequired),
        session_email is Some && cart_of(*old(carts), session_email.unwrap()@).len() == 0 ==> r == Err::<
            CheckoutOutcome,
            CheckoutError,
        >(CheckoutError::EmptyCart),
        session_email is Some && cart_of(*old(carts), session_email.unwrap()@).len() > 0 && scan_error(
            cart_of(*old(carts), session_email.unwrap()@),
            old(products).products@,
        ) is Some ==> r == Err::<CheckoutOutcome, CheckoutError>(
            scan_error(cart_of(*old(carts), session_email.unwrap()@), old(products).products@).unwrap(),
        ),
        r is Ok <==> (session_email is Some && cart_of(*old(carts), session_email.unwrap()@).len() > 0
            && scan_error(cart_of(*old(carts), session_email.unwrap()@), old(products).products@) is None),
        r is Err ==> final(carts).by_email@ == old(carts).by_email@ && final(products).products@ == old(
            products,
        ).products@ && final(orders).next_id == old(orders).next_id && final(orders).orders@ == old(
            orders,
        ).orders@,
        r matches Ok(out) ==> {
            let email = session_email.unwrap()@;
            let items = cart_of(*old(carts), email);
            let total = cart_total(items, old(products).products@);
            &&& out.order_id == old(orders).next_id
            &&& out.paid == (total != 0)
            &&& final(orders).next_id == old(orders).next_id + 1
            &&& final(orders).orders@.len() == old(orders).orders@.len() + 1
            &&& final(orders).orders@.drop_last() == old(orders).orders@
            &&& placed_order(
                final(orders).orders@.last(),
                out.order_id,
                email,
                order_lines(items, old(products).products@),
                total,
                now,
            )
            &&& out.paid ==> final(products).products@ == purchased(old(products).products@, items, now)
                && final(carts).by_email@ == old(carts).by_email@.remove(email)
            &&& !out.paid ==> final(products).products@ == old(products).products@ && final(carts).by_email@
                == old(carts).by_email@
        },
{
    let email = match session_email {
        Some(e) => e,
        None => return Err(CheckoutError::LoginRequired),
    };
    let items = carts.items_of(email);
    if items.len() == 0 {
        return Err(CheckoutError::EmptyCart);
    }
    let (lines, total) = match scan_cart(items, &products.products) {
        ScanOutcome::Lines(v, t) => (v, t),
        ScanOutcome::Failed(e) => return Err(e),
        ScanOutcome::Overflow => {
            proof {
                assert(false);
            }
            return Err(CheckoutError::EmptyCart);
        },
    };
    let (paid, reference) = process_mock_payment(total);
    let id = orders.next_id;
    orders.next_id = id + 1;
    let status = if paid {
        OrderStatus::Paid
    } else {
        OrderStatus::PaymentFailed
    };
    if paid {
        take_off_stock(&mut products.products, items, now);
        let _ = carts.by_email.remove(email);
    }
    let ghost before_orders = orders.orders@;
    orders.orders.push(
        Order {
            id,
            email: email.clone(),
            items: lines,
            total_cents: total,
            status,
            payment_reference: reference,
            created_at: now,
            updated_at: now,
        },
    );
    proof {
        assert(orders.orders@.drop_last() =~= before_orders);
    }
    Ok(CheckoutOutcome { order_id: id, paid })
}

/// The sum of the subtotals of cart lines.
pub open spec fn subtotal_sum(lines: Seq<CartLine>) -> nat
    decreases lines.len(),
{
    if lines.len() == 0 {
        0
    } else {
        subtotal_sum(lines.drop_last()) + lines.last().subtotal_cents as nat
    }
}

/// The total of a cart is the sum of the subtotals of the lines shown.
pub proof fn law_total_is_sum_of_subtotals(items: Seq<CartItem>, products: Seq<Product>)
    ensures
        cart_total(items, products) == subtotal_sum(cart_lines(items, products)),
    decreases items.len(),
{
    if items.len() > 0 {
        law_total_is_sum_of_subtotals(items.drop_last(), products);
        let before = cart_lines(items.drop_last(), products);
        let i = product_index(products, items.last().product_id);
        if i >= 0 {
            assert(before.push(cart_line(products[i], items.last())).drop_last() =~= before);
        }
    }
}

/// When the cart has one line per product and the stock suffices, paying
/// for it lowers the stock of each product (the first with its id) by
/// exactly the quantity the cart holds for it.
pub proof fn law_purchase_takes_cart_quantities(
    products: Seq<Product>,
    items: Seq<CartItem>,
    now: u64,
    product_id: u64,
)
    requires
        distinct_products(items),
        !purchase_underflows(products, items, now),
        product_index(products, product_id) >= 0,
    ensures
        purchased(products, items, now)[product_index(products, product_id)].stock == products[product_index(
            products,
            product_id,
        )].stock - quantity_of(items, product_id),
    decreases items.len(),
{
    let i = product_index(products, product_id);
    lemma_first_match(products, with_id::<Product>(product_id));
    lemma_first_match(items, for_product(product_id));
    if items.len() == 0 {
        return;
    }
    let d = items.drop_last();
    let x = items.last();
    assert(items =~= d.push(x));
    assert(distinct_products(d)) by {
        assert forall|a: int, b: int|
            0 <= a < d.len() && 0 <= b < d.len() && a != b implies #[trigger] d[a].product_id
            != #[trigger] d[b].product_id by {
            assert(d[a] == items[a] && d[b] == items[b]);
        }
    }
    law_purchase_takes_cart_quantities(products, d, now, product_id);
    let before = purchased(products, d, now);
    lemma_purchased_keeps_ids(products, d, now);
    lemma_same_ids_same_index(products, before, product_id);
    lemma_first_match_push(d, for_product(product_id), x);
    lemma_first_match(d, for_product(product_id));
    let j = product_index(before, x.product_id);
    lemma_first_match(before, with_id::<Product>(x.product_id));
    if x.product_id == product_id {
        if line_of(d, product_id) >= 0 {
            let k = line_of(d, product_id);
            assert(items[k].product_id == items[items.len() - 1].product_id);
        }
    } else if j >= 0 {
        assert(before[j].id == x.product_id);
        assert(before[i].id == product_id);
        assert(j != i);
    }
}

/// Products for which the cart has no line keep their stock, price and
/// everything else through checkout.
pub proof fn law_purchase_leaves_other_products(products: Seq<Product>, items: Seq<CartItem>, now: u64, j: int)
    requires
        0 <= j < products.len(),
        forall|k: int| 0 <= k < items.len() ==> #[trigger] items[k].product_id != products[j].id,
    ensures
        purchased(products, items, now)[j] == products[j],
    decreases items.len(),
{
    if items.len() > 0 {
        let d = items.drop_last();
        assert forall|k: int| 0 <= k < d.len() implies #[trigger] d[k].product_id != products[j].id by {
            assert(d[k] == items[k]);
        }
        law_purchase_leaves_other_products(products, d, now, j);
        let before = purchased(products, d, now);
        lemma_purchased_keeps_ids(products, d, now);
        let i = product_index(before, items.last().product_id);
        lemma_first_match(before, with_id::<Product>(items.last().product_id));
        if i >= 0 {
            assert(before[i].id == items.last().product_id);
            assert(items[items.len() - 1].product_id != products[j].id);
            assert(i != j);
        }
    }
}

/// After a paid checkout the buyer's cart is empty.
pub proof fn law_paid_checkout_empties_cart(before: CartStore, after: CartStore, email: Seq<char>)
    requires
        after.by_email@ == before.by_email@.remove(email),
    ensures
        cart_of(after, email).len() == 0,
        forall|other: Seq<char>| other != email ==> cart_of(after, other) == cart_of(before, other),
{
}

/// When checkout accepts a cart, the order it places lists exactly the
/// lines the cart view showed (same products, names, prices and
/// quantities, in the same order), and its total is the cart view's total.
pub proof fn law_order_is_snapshot_of_cart_view(items: Seq<CartItem>, products: Seq<Product>)
    requires
        scan_error(items, products) is None,
    ensures
        order_lines(items, products).len() == cart_lines(items, products).len(),
        forall|j: int|
            0 <= j < order_lines(items, products).len() ==> {
                let o = #[trigger] order_lines(items, products)[j];
                let c = cart_lines(items, products)[j];
                &&& o.product_id == c.product_id
                &&& o.name == c.name
                &&& o.unit_price_cents == c.unit_price_cents
                &&& o.quantity == c.quantity
            },
    decreases items.len(),
{
    if items.len() > 0 {
        let d = items.drop_last();
        law_order_is_snapshot_of_cart_view(d, products);
        let i = product_index(products, items.last().product_id);
        assert(i >= 0);
        let o = order_lines(d, products);
        let c = cart_lines(d, products);
        assert forall|j: int| 0 <= j < o.len() implies #[trigger] order_lines(items, products)[j] == o[j]
            && cart_lines(items, products)[j] == c[j] by {}
    }
}

/// Each order line is priced from the catalogue: when every product of
/// the cart exists, the order has one line per cart line, in cart order,
/// carrying the product's id, its name and its catalogue price as the
/// unit price, and the quantity the cart holds.
pub proof fn law_order_lines_priced_from_catalogue(items: Seq<CartItem>, products: Seq<Product>)
    requires
        forall|j: int| 0 <= j < items.len() ==> product_index(products, #[trigger] items[j].product_id) >= 0,
    ensures
        order_lines(items, products).len() == items.len(),
        forall|j: int|
            0 <= j < items.len() ==> {
                let o = #[trigger] order_lines(items, products)[j];
                let p = products[product_index(products, items[j].product_id)];
                &&& o.product_id == items[j].product_id
                &&& o.name == p.name
                &&& o.unit_price_cents == p.price_cents
                &&& o.quantity == items[j].quantity
            },
    decreases items.len(),
{
    if items.len() > 0 {
        let d = items.drop_last();
        assert forall|j: int| 0 <= j < d.len() implies product_index(products, #[trigger] d[j].product_id) >= 0 by {
            assert(d[j] == items[j]);
        }
        law_order_lines_priced_from_catalogue(d, products);
        let x = items.last();
        assert(product_index(products, items[items.len() - 1].product_id) >= 0);
        lemma_first_match(products, with_id::<Product>(x.product_id));
        let o = order_lines(d, products);
        assert forall|j: int| 0 <= j < d.len() implies #[trigger] order_lines(items, products)[j] == o[j] && items[j]
            == d[j] by {}
    }
}

/// Each line of a cart view is priced from the catalogue: it names an
/// existing product (the first with its id), shows that product's name and
/// catalogue price as its unit price, and its subtotal is the unit price
/// times the quantity, or `u64::MAX` when that product does not fit.
pub proof fn law_cart_lines_priced_from_catalogue(items: Seq<CartItem>, products: Seq<Product>)
    ensures
        forall|j: int|
            0 <= j < cart_lines(items, products).len() ==> {
                let c = #[trigger] cart_lines(items, products)[j];
                let k = product_index(products, c.product_id);
                &&& 0 <= k < products.len()
                &&& products[k].id == c.product_id
                &&& c.name == products[k].name
                &&& c.unit_price_cents == products[k].price_cents
                &&& (c.subtotal_cents == c.unit_price_cents * c.quantity || (c.unit_price_cents * c.quantity
                    > u64::MAX && c.subtotal_cents == u64::MAX))
            },
    decreases items.len(),
{
    if items.len() > 0 {
        let d = items.drop_last();
        law_cart_lines_priced_from_catalogue(d, products);
        let x = items.last();
        let i = product_index(products, x.product_id);
        lemma_first_match(products, with_id::<Product>(x.product_id));
        let before = cart_lines(d, products);
        if i >= 0 {
            assert forall|j: int| 0 <= j < before.len() implies #[trigger] cart_lines(items, products)[j]
                == before[j] by {}
        }
    }
}

/// When every product of the cart exists, the cart view shows one line
/// per cart line, in cart order, with the cart line's product and
/// quantity.
pub proof fn law_cart_view_shows_every_line(items: Seq<CartItem>, products: Seq<Product>)
    requires
        forall|j: int| 0 <= j < items.len() ==> product_index(products, #[trigger] items[j].product_id) >= 0,
    ensures
        cart_lines(items, products).len() == items.len(),
        forall|j: int|
            0 <= j < items.len() ==> (#[trigger] cart_lines(items, products)[j]).product_id == items[j].product_id
                && cart_lines(items, products)[j].quantity == items[j].quantity,
    decreases items.len(),
{
    if items.len() > 0 {
        let d = items.drop_last();
        assert forall|j: int| 0 <= j < d.len() implies product_index(products, #[trigger] d[j].product_id) >= 0 by {
            assert(d[j] == items[j]);
        }
        law_cart_view_shows_every_line(d, products);
        let x = items.last();
        assert(product_index(products, items[items.len() - 1].product_id) >= 0);
        lemma_first_match(products, with_id::<Product>(x.product_id));
        let before = cart_lines(d, products);
        assert forall|j: int| 0 <= j < d.len() implies #[trigger] cart_lines(items, products)[j] == before[j]
            && items[j] == d[j] by {}
    }
}

/// Selling `quantity` of a product with enough stock lowers its stock by
/// exactly that quantity, marks it sold out when none is left (and keeps
/// its status otherwise), stamps `now`, and changes nothing else.
pub proof fn law_sale_lowers_stock(p: Product, quantity: u64, now: u64)
    requires
        quantity <= p.stock,
    ensures
        ({
            let q = decremented(p, quantity, now);
            &&& q.stock == p.stock - quantity
            &&& (p.stock == quantity ==> q.status == ProductStatus::SoldOut)
            &&& (p.stock > quantity ==> q.status == p.status)
            &&& q.updated_at == now
            &&& q.id == p.id
            &&& q.name == p.name
            &&& q.description == p.description
            &&& q.price_cents == p.price_cents
            &&& q.categories == p.categories
            &&& q.created_at == p.created_at
        }),
{
}

/// A cart checks out exactly when every line names an existing product
/// (the first with its id) whose stock covers the line's quantity.
pub proof fn law_cart_checks_out_iff_lines_are_in_stock(items: Seq<CartItem>, products: Seq<Product>)
    ensures
        scan_error(items, products) is None <==> forall|j: int|
            0 <= j < items.len() ==> {
                let k = product_index(products, #[trigger] items[j].product_id);
                k >= 0 && products[k].stock >= items[j].quantity
            },
    decreases items.len(),
{
    if items.len() > 0 {
        let d = items.drop_last();
        law_cart_checks_out_iff_lines_are_in_stock(d, products);
        let x = items.last();
        let n = items.len() - 1;
        assert(items[n] == x);
        let all_ok = forall|j: int|
            0 <= j < items.len() ==> {
                let k = product_index(products, #[trigger] items[j].product_id);
                k >= 0 && products[k].stock >= items[j].quantity
            };
        if all_ok {
            assert forall|j: int| 0 <= j < d.len() implies {
                let k = product_index(products, #[trigger] d[j].product_id);
                k >= 0 && products[k].stock >= d[j].quantity
            } by {
                assert(d[j] == items[j]);
            }
            assert(line_error(products, x) is None);
        }
        if scan_error(items, products) is None {
            assert forall|j: int| 0 <= j < items.len() implies {
                let k = product_index(products, #[trigger] items[j].product_id);
                k >= 0 && products[k].stock >= items[j].quantity
            } by {
                if j < n {
                    assert(d[j] == items[j]);
                }
            }
        }
    }
}

} // verus!
