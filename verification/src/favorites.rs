//! Favourites (a wish list): for each logged-in account, the set of
//! product ids it saved. Not a cart: no quantities, totals or orders.

use vstd::prelude::*;

use std::collections::HashSet;

use crate::email_map::EmailMap;
use crate::products::{product_exists, product_index, Product};
use crate::seq_util::lemma_filter_take_step;

verus! {

/// All favourites, keyed by the account's e-mail.
#[derive(Debug)]
pub struct FavoriteStore {
    pub by_email: EmailMap<HashSet<u64>>,
}

impl Default for FavoriteStore {
    /// Nobody has favourites.
    fn default() -> (r: Self)
        ensures
            r.by_email@ == Map::<Seq<char>, HashSet<u64>>::empty(),
    {
        FavoriteStore { by_email: EmailMap::new() }
    }
}

/// Why a favourites request was refused.
#[derive(Debug, Clone, Copy, PartialEq, Eq, Structural)]
pub enum FavoriteError {
    /// Nobody is logged in (answered with 401).
    LoginRequired,
    /// No product has the id (answered with 404).
    ProductNotFound,
    /// The account has not saved the product (answered with 404).
    NotAFavorite,
}

/// The product ids that the account `email` saved.
pub open spec fn favorites_of(store: FavoriteStore, email: Seq<char>) -> Set<u64> {
    if store.by_email@.contains_key(email) {
        store.by_email@[email]@
    } else {
        Set::empty()
    }
}

/// What the store says of every account, sets of ids as values.
pub open spec fn favorites_view(store: FavoriteStore) -> Map<Seq<char>, Set<u64>> {
    store.by_email@.map_values(|s: HashSet<u64>| s@)
}

/// The product's id is among `ids`.
pub open spec fn id_in(ids: Set<u64>) -> spec_fn(Product) -> bool {
    |p: Product| ids.contains(p.id)
}

impl FavoriteStore {
    /// Saves product `product_id` among the favourites of the logged-in
    /// account; refused without a login or when no product has the id.
    pub fn add(&mut self, session_email: Option<&String>, product_id: u64, products: &Vec<Product>) -> (r:
        Result<(), FavoriteError>)
        ensures
            session_email is None ==> r == Err::<(), FavoriteError>(FavoriteError::LoginRequired),
            session_email is Some && product_index(products@, product_id) < 0 ==> r == Err::<
                (),
                FavoriteError,
            >(FavoriteError::ProductNotFound),
            r is Err ==> favorites_view(*final(self)) == favorites_view(*old(self)),
            r is Ok <==> (session_email is Some && product_index(products@, product_id) >= 0),
            r is Ok ==> favorites_view(*final(self)) == favorites_view(*old(self)).insert(
                session_email.unwrap()@,
                favorites_of(*old(self), session_email.unwrap()@).insert(product_id),
            ),
    {
        let email = match session_email {
            Some(e) => e,
            None => return Err(FavoriteError::LoginRequired),
        };
        if !product_exists(products, product_id) {
            return Err(FavoriteError::ProductNotFound);
        }
        let ghost before = *self;
        let mut ids = match self.by_email.remove(email) {
            Some(ids) => ids,
            None => HashSet::new(),
        };
        ids.insert(product_id);
        self.by_email.insert(email.clone(), ids);
        proof {
            assert(favorites_view(*self) =~= favorites_view(before).insert(
                email@,
                favorites_of(before, email@).insert(product_id),
            ));
        }
        Ok(())
    }

    /// Takes product `product_id` out of the favourites of the logged-in
    /// account; refused without a login or when it is not a favourite.
    pub fn remove(&mut self, session_email: Option<&String>, product_id: u64) -> (r: Result<(), FavoriteError>)
        ensures
            session_email is None ==> r == Err::<(), FavoriteError>(FavoriteError::LoginRequired),
            session_email is Some && !favorites_of(*old(self), session_email.unwrap()@).contains(product_id)
                ==> r == Err::<(), FavoriteError>(FavoriteError::NotAFavorite),
            r is Err ==> favorites_view(*final(self)) == favorites_view(*old(self)),
            r is Ok <==> (session_email is Some && favorites_of(*old(self), session_email.unwrap()@).contains(
                product_id,
            )),
            r is Ok ==> favorites_view(*final(self)) == favorites_view(*old(self)).insert(
                session_email.unwrap()@,
                favorites_of(*old(self), session_email.unwrap()@).remove(product_id),
            ),
    {
        let email = match session_email {
            Some(e) => e,
            None => return Err(FavoriteError::LoginRequired),
        };
        let ghost before = *self;
        match self.by_email.remove(email) {
            Some(mut ids) => {
                let removed = ids.remove(&product_id);
                self.by_email.insert(email.clone(), ids);
                if removed {
                    proof {
                        assert(favorites_view(*self) =~= favorites_view(before).insert(
                            email@,
                            favorites_of(before, email@).remove(product_id),
                        ));
                    }
                    Ok(())
                } else {
                    proof {
                        assert(ids@ =~= before.by_email@[email@]@);
                        assert(favorites_view(*self) =~= favorites_view(before));
                    }
                    Err(FavoriteError::NotAFavorite)
                }
            },
            None => Err(FavoriteError::NotAFavorite),
        }
    }

    /// The products that the logged-in account saved, in catalogue order;
    /// refused without a login.
    pub fn list<'a>(&self, session_email: Option<&String>, products: &'a Vec<Product>) -> (r: Result<
        Vec<&'a Product>,
        FavoriteError,
    >)
        ensures
            session_email is None ==> r == Err::<Vec<&'a Product>, FavoriteError>(FavoriteError::LoginRequired),
            session_email is Some ==> r is Ok,
            r matches Ok(v) ==> {
                let f = products@.filter(id_in(favorites_of(*self, session_email.unwrap()@)));
                &&& v@.len() == f.len()
                &&& forall|i: int| 0 <= i < v@.len() ==> *v@[i] == f[i]
            },
    {
        let email = match session_email {
            Some(e) => e,
            None => return Err(FavoriteError::LoginRequired),
        };
        let ids = self.by_email.get(email);
        let ghost keep = id_in(favorites_of(*self, email@));
        let mut r: Vec<&'a Product> = Vec::new();
        let mut i: usize = 0;
        while i < products.len()
            invariant
                i <= products@.len(),
                keep == id_in(favorites_of(*self, email@)),
                match ids {
                    Some(s) => self.by_email@.contains_key(email@) && *s == self.by_email@[email@],
                    None => !self.by_email@.contains_key(email@),
                },
                r@.len() == products@.take(i as int).filter(keep).len(),
                forall|j: int| 0 <= j < r@.len() ==> *r@[j] == products@.take(i as int).filter(keep)[j],
            decreases products@.len() - i,
        {
            proof {
                lemma_filter_take_step(products@, keep, i as int);
            }
            let saved = match ids {
                Some(s) => s.contains(&products[i].id),
                None => false,
            };
            if saved {
                r.push(&products[i]);
            }
            i = i + 1;
        }
        proof {
            assert(products@.take(products@.len() as int) =~= products@);
        }
        Ok(r)
    }
}

/// Favourites are per account: changing one account's set leaves every
/// other account's set as it was.
pub proof fn law_favorites_are_per_account(
    before: FavoriteStore,
    after: FavoriteStore,
    email: Seq<char>,
    ids: Set<u64>,
    other: Seq<char>,
)
    requires
        favorites_view(after) == favorites_view(before).insert(email, ids),
        other != email,
    ensures
        favorites_of(after, email) == ids,
        favorites_of(after, other) == favorites_of(before, other),
{
    assert(favorites_view(after).dom() == after.by_email@.dom());
    assert(favorites_view(before).dom() == before.by_email@.dom());
    assert(after.by_email@.contains_key(email));
    assert(favorites_view(after)[email] == after.by_email@[email]@);
    if before.by_email@.contains_key(other) {
        assert(favorites_view(before)[other] == before.by_email@[other]@);
        assert(favorites_view(after)[other] == after.by_email@[other]@);
    }
}

} // verus!
