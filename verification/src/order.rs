//! Orders and the mock payment gateway. No real payment takes place: the
//! gateway refuses a zero amount and otherwise succeeds with a made-up
//! reference `MOCK-` followed by sixteen hex digits.

use vstd::prelude::*;

use crate::access::{is_admin, string_opt_view};
use crate::records::{find_by_id, index_of, Keyed};
use crate::seq_util::lemma_filter_take_step;

verus! {

/// The state of an order.
#[derive(Debug, Clone, Copy, PartialEq, Eq, Structural)]
pub enum OrderStatus {
    /// Payment under way (not produced by the mock gateway, which answers
    /// at once).
    Pending,
    Paid,
    PaymentFailed,
    Cancelled,
}

/// A line of an order: the product as it was when the order was placed.
#[derive(Debug, Clone)]
pub struct OrderItem {
    pub product_id: u64,
    pub name: String,
    pub unit_price_cents: u64,
    pub quantity: u64,
}

/// An order.
#[derive(Debug, Clone)]
pub struct Order {
    pub id: u64,
    pub email: String,
    pub items: Vec<OrderItem>,
    pub total_cents: u64,
    pub status: OrderStatus,
    /// The reference the mock gateway returned (not a real payment).
    pub payment_reference: String,
    pub created_at: u64,
    pub updated_at: u64,
}

impl Keyed for Order {
    open spec fn key(&self) -> u64 {
        self.id
    }

    fn id_of(&self) -> (r: u64) {
        self.id
    }
}

/// All orders, and the id the next one will get.
#[derive(Debug)]
pub struct OrderStore {
    pub next_id: u64,
    pub orders: Vec<Order>,
}

impl Default for OrderStore {
    /// No orders; the first one gets id 0.
    fn default() -> (r: Self)
        ensures
            r.next_id == 0,
            r.orders@.len() == 0,
    {
        OrderStore { next_id: 0, orders: Vec::new() }
    }
}

/// Why an order request was refused.
#[derive(Debug, Clone, Copy, PartialEq, Eq, Structural)]
pub enum OrderError {
    /// Nobody is logged in (answered with 401).
    LoginRequired,
    /// No order has the id (answered with 404).
    NotFound,
    /// The order belongs to somebody else (answered with 403).
    InsufficientPermission,
}

/// The lower-case hex digit for `d` (0 to 15).
pub open spec fn hex_char(d: nat) -> char {
    if d < 10 {
        (48 + d) as char
    } else {
        (87 + d) as char
    }
}

/// The last `k` hex digits of `n`, most significant first, zero-padded.
pub open spec fn hex_digits(n: nat, k: nat) -> Seq<char>
    decreases k,
{
    if k == 0 {
        Seq::empty()
    } else {
        hex_digits(n / 16, (k - 1) as nat).push(hex_char(n % 16))
    }
}

/// The reference of a successful mock payment drawn with `n`:
/// `MOCK-` and `n` as sixteen lower-case hex digits.
pub open spec fn mock_reference(n: u64) -> Seq<char> {
    "MOCK-"@ + hex_digits(n as nat, 16)
}

/// The reference of a payment refused for a zero amount.
pub open spec fn zero_amount_reference() -> Seq<char> {
    "mock-payment-rejected-zero-amount"@
}

/// The one-character text of hex digit `d`.
fn hex_str(d: u64) -> (r: &'static str)
    requires
        d < 16,
    ensures
        r@ == seq![hex_char(d as nat)],
{
    match d {
        0 => {
            proof { reveal_strlit("0"); }
            "0"
        },
        1 => {
            proof { reveal_strlit("1"); }
            "1"
        },
        2 => {
            proof { reveal_strlit("2"); }
            "2"
        },
        3 => {
            proof { reveal_strlit("3"); }
            "3"
        },
        4 => {
            proof { reveal_strlit("4"); }
            "4"
        },
        5 => {
            proof { reveal_strlit("5"); }
            "5"
        },
        6 => {
            proof { reveal_strlit("6"); }
            "6"
        },
        7 => {
            proof { reveal_strlit("7"); }
            "7"
        },
        8 => {
            proof { reveal_strlit("8"); }
            "8"
        },
        9 => {
            proof { reveal_strlit("9"); }
            "9"
        },
        10 => {
            proof { reveal_strlit("a"); }
            "a"
        },
        11 => {
            proof { reveal_strlit("b"); }
            "b"
        },
        12 => {
            proof { reveal_strlit("c"); }
            "c"
        },
        13 => {
            proof { reveal_strlit("d"); }
            "d"
        },
        14 => {
            proof { reveal_strlit("e"); }
            "e"
        },
        _ => {
            proof { reveal_strlit("f"); }
            "f"
        },
    }
}

/// The last `k` hex digits of `n`.
fn hex_text(n: u64, k: u64) -> (r: String)
    ensures
        r@ == hex_digits(n as nat, k as nat),
    decreases k,
{
    if k == 0 {
        return String::new();
    }
    let mut s = hex_text(n / 16, k - 1);
    s.append(hex_str(n % 16));
    s
}

/// The outcome of the mock gateway for an order of `total_cents`, when
/// the random draw is `draw`: a zero amount is refused, anything else
/// succeeds with the reference `MOCK-` followed by `draw` in hex.
pub fn payment_outcome(total_cents: u64, draw: u64) -> (r: (bool, String))
    ensures
        r.0 == (total_cents != 0),
        total_cents == 0 ==> r.1@ == zero_amount_reference(),
        total_cents != 0 ==> r.1@ == mock_reference(draw),
{
    if total_cents == 0 {
        return (false, "mock-payment-rejected-zero-amount".to_string());
    }
    let mut reference = "MOCK-".to_string();
    let digits = hex_text(draw, 16);
    reference.append(digits.as_str());
    (true, reference)
}

/// Calls `rand::random::<u64>()`, a `u64` drawn by the thread-local
/// generator. Nothing is claimed of the value: any `u64` may come back.
/// (The call panics only when the operating system cannot seed the
/// generator, which no argument can rule out.)
#[verifier::external_body]
fn random_u64() -> (r: u64) {
    rand::random::<u64>()
}

/// The mock payment gateway. No money moves and no card data is taken:
/// a zero amount is refused, any other amount succeeds with a random
/// reference `MOCK-` followed by sixteen hex digits.
pub fn process_mock_payment(total_cents: u64) -> (r: (bool, String))
    ensures
        r.0 == (total_cents != 0),
        total_cents == 0 ==> r.1@ == zero_amount_reference(),
        total_cents != 0 ==> exists|draw: u64| r.1@ == #[trigger] mock_reference(draw),
{
    if total_cents == 0 {
        return payment_outcome(total_cents, 0);
    }
    let draw = random_u64();
    let r = payment_outcome(total_cents, draw);
    proof {
        assert(r.1@ == mock_reference(draw));
    }
    r
}

/// The order belongs to `email`.
pub open spec fn placed_by(email: Seq<char>) -> spec_fn(Order) -> bool {
    |o: Order| o.email@ == email
}

/// The account `email` may see order `o`: it placed it, or it is the
/// administrator.
pub open spec fn may_view(o: Order, email: Seq<char>, admin_email: Seq<char>) -> bool {
    o.email@ == email || email == admin_email
}

impl OrderStore {
    /// The orders the logged-in account may see: all of them for the
    /// administrator, its own for anybody else.
    pub fn list(&self, session_email: Option<&String>, admin_email: &String) -> (r: Result<
        Vec<&Order>,
        OrderError,
    >)
        ensures
            session_email is None ==> r == Err::<Vec<&Order>, OrderError>(OrderError::LoginRequired),
            session_email is Some ==> r is Ok,
            is_admin(string_opt_view(session_email), admin_email@) ==> (r matches Ok(v) ==> v@.len()
                == self.orders@.len() && forall|i: int| 0 <= i < v@.len() ==> *v@[i] == self.orders@[i]),
            !is_admin(string_opt_view(session_email), admin_email@) ==> (r matches Ok(v) ==> v@.len()
                == self.orders@.filter(placed_by(session_email.unwrap()@)).len() && forall|i: int|
                0 <= i < v@.len() ==> *v@[i] == self.orders@.filter(placed_by(session_email.unwrap()@))[i]),
    {
        let email = match session_email {
            Some(e) => e,
            None => return Err(OrderError::LoginRequired),
        };
        let mut r: Vec<&Order> = Vec::new();
        let mut i: usize = 0;
        if *email == *admin_email {
            while i < self.orders.len()
                invariant
                    i <= self.orders@.len(),
                    r@.len() == i,
                    forall|j: int| 0 <= j < i ==> *r@[j] == self.orders@[j],
                decreases self.orders@.len() - i,
            {
                r.push(&self.orders[i]);
                i = i + 1;
            }
        } else {
            let ghost keep = placed_by(email@);
            while i < self.orders.len()
                invariant
                    i <= self.orders@.len(),
                    keep == placed_by(email@),
                    r@.len() == self.orders@.take(i as int).filter(keep).len(),
                    forall|j: int| 0 <= j < r@.len() ==> *r@[j] == self.orders@.take(i as int).filter(keep)[j],
                decreases self.orders@.len() - i,
            {
                proof {
                    lemma_filter_take_step(self.orders@, keep, i as int);
                }
                if self.orders[i].email == *email {
                    r.push(&self.orders[i]);
                }
                i = i + 1;
            }
            proof {
                assert(self.orders@.take(self.orders@.len() as int) =~= self.orders@);
            }
        }
        Ok(r)
    }

    /// The (first) order with id `id`, for its owner or the administrator.
    pub fn get(&self, id: u64, session_email: Option<&String>, admin_email: &String) -> (r: Result<
        &Order,
        OrderError,
    >)
        ensures
            session_email is None ==> r == Err::<&Order, OrderError>(OrderError::LoginRequired),
            session_email is Some && index_of(self.orders@, id) < 0 ==> r == Err::<&Order, OrderError>(
                OrderError::NotFound,
            ),
            session_email is Some && index_of(self.orders@, id) >= 0 && !may_view(
                self.orders@[index_of(self.orders@, id)],
                session_email.unwrap()@,
                admin_email@,
            ) ==> r == Err::<&Order, OrderError>(OrderError::InsufficientPermission),
            r is Ok <==> (session_email is Some && index_of(self.orders@, id) >= 0 && may_view(
                self.orders@[index_of(self.orders@, id)],
                session_email.unwrap()@,
                admin_email@,
            )),
            r matches Ok(o) ==> *o == self.orders@[index_of(self.orders@, id)],
    {
        let email = match session_email {
            Some(e) => e,
            None => return Err(OrderError::LoginRequired),
        };
        let found = match find_by_id(&self.orders, id) {
            Some(o) => o,
            None => return Err(OrderError::NotFound),
        };
        if found.email != *email && *email != *admin_email {
            return Err(OrderError::InsufficientPermission);
        }
        Ok(found)
    }
}

/// Only the account that placed an order and the administrator may see it.
pub proof fn law_orders_are_private(o: Order, email: Seq<char>, admin_email: Seq<char>)
    requires
        o.email@ != email,
        email != admin_email,
    ensures
        !may_view(o, email, admin_email),
{
}

} // verus!
