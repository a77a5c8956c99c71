//! Product reviews. A new review is unapproved: it stays out of the
//! public listing and of the rating summary until the administrator
//! approves it.

use vstd::prelude::*;

use crate::access::{is_admin, require_admin, string_opt_view};
use crate::products::{product_exists, product_index, Product};
use crate::records::{index_of, position_of, remove_by_id, without_id, Keyed};
use crate::seq_util::{lemma_filter_push, lemma_filter_take_step};

verus! {

/// A review of a product.
#[derive(Debug, Clone)]
pub struct Review {
    pub id: u64,
    pub product_id: u64,
    pub author_email: String,
    pub rating: u8,
    pub title: String,
    pub body: String,
    pub created_at: u64,
    /// `false` until the administrator approves the review.
    pub approved: bool,
}

impl Keyed for Review {
    open spec fn key(&self) -> u64 {
        self.id
    }

    fn id_of(&self) -> (r: u64) {
        self.id
    }
}

/// All reviews, and the id the next one will get.
#[derive(Debug)]
pub struct ReviewStore {
    pub next_id: u64,
    pub reviews: Vec<Review>,
}

impl Default for ReviewStore {
    /// No reviews; the first one gets id 0.
    fn default() -> (r: Self)
        ensures
            r.next_id == 0,
            r.reviews@.len() == 0,
    {
        ReviewStore { next_id: 0, reviews: Vec::new() }
    }
}

/// Why a review request was refused.
#[derive(Debug, Clone, Copy, PartialEq, Eq, Structural)]
pub enum ReviewError {
    /// Nobody is logged in (answered with 401).
    LoginRequired,
    /// The rating is not between 1 and 5 (answered with 400).
    InvalidRating,
    /// No product has the id (answered with 404).
    ProductNotFound,
    /// No review has the id (answered with 404).
    NotFound,
    /// Logged in without the right to do this (answered with 403).
    InsufficientPermission,
    /// Only the administrator may do this (answered with 401).
    AdminLoginRequired,
}

/// What a review's author submits.
#[derive(Debug)]
pub struct NewReview {
    pub rating: u8,
    pub title: String,
    pub body: String,
}

/// The rating is one of 1 to 5.
pub open spec fn valid_rating(rating: u8) -> bool {
    1 <= rating <= 5
}

/// The review is of product `product_id`.
pub open spec fn of_product(product_id: u64) -> spec_fn(Review) -> bool {
    |r: Review| r.product_id == product_id
}

/// The review is of product `product_id` and approved.
pub open spec fn approved_of_product(product_id: u64) -> spec_fn(Review) -> bool {
    |r: Review| r.product_id == product_id && r.approved
}

/// The number of approved reviews in `s`.
pub open spec fn approved_count(s: Seq<&Review>) -> nat
    decreases s.len(),
{
    if s.len() == 0 {
        0
    } else {
        approved_count(s.drop_last()) + if s.last().approved {
            1nat
        } else {
            0nat
        }
    }
}

/// The sum of the ratings of the approved reviews in `s`.
pub open spec fn approved_rating_sum(s: Seq<&Review>) -> nat
    decreases s.len(),
{
    if s.len() == 0 {
        0
    } else {
        approved_rating_sum(s.drop_last()) + if s.last().approved {
            s.last().rating as nat
        } else {
            0nat
        }
    }
}

/// How many approved reviews there are and the sum of their ratings; the
/// average rating is `rating_sum / review_count` (0 when there is none).
#[derive(Debug, Clone, Copy, PartialEq, Eq, Structural)]
pub struct RatingTotals {
    pub review_count: u64,
    pub rating_sum: u128,
}

/// Counts the approved reviews among `reviews` and sums their ratings;
/// unapproved reviews are left out.
pub fn approved_totals(reviews: &[&Review]) -> (r: RatingTotals)
    ensures
        r.review_count == approved_count(reviews@),
        r.rating_sum == approved_rating_sum(reviews@),
{
    let mut count: u64 = 0;
    let mut sum: u128 = 0;
    let mut i: usize = 0;
    while i < reviews.len()
        invariant
            i <= reviews@.len(),
            count == approved_count(reviews@.take(i as int)),
            sum == approved_rating_sum(reviews@.take(i as int)),
            count <= i,
            sum <= 255 * i,
        decreases reviews@.len() - i,
    {
        proof {
            assert(reviews@.take(i + 1).drop_last() =~= reviews@.take(i as int));
            assert(reviews@.take(i + 1).last() == reviews@[i as int]);
        }
        let review = reviews[i];
        if review.approved {
            count = count + 1;
            sum = sum + review.rating as u128;
        }
        i = i + 1;
    }
    proof {
        assert(reviews@.take(reviews@.len() as int) =~= reviews@);
    }
    RatingTotals { review_count: count, rating_sum: sum }
}

/// The reviews of product `product_id`, in store order.
pub fn reviews_of_product(reviews: &Vec<Review>, product_id: u64) -> (r: Vec<&Review>)
    ensures
        r@.len() == reviews@.filter(of_product(product_id)).len(),
        forall|i: int| 0 <= i < r@.len() ==> *r@[i] == reviews@.filter(of_product(product_id))[i],
{
    filter_reviews(reviews, product_id, false)
}

/// Which reviews of `product_id` a listing selects: the approved ones, or
/// all of them.
pub open spec fn selection(product_id: u64, approved_only: bool) -> spec_fn(Review) -> bool {
    if approved_only {
        approved_of_product(product_id)
    } else {
        of_product(product_id)
    }
}

/// The reviews of `product_id`, only the approved ones if `approved_only`.
fn filter_reviews(reviews: &Vec<Review>, product_id: u64, approved_only: bool) -> (r: Vec<&Review>)
    ensures
        r@.len() == reviews@.filter(selection(product_id, approved_only)).len(),
        forall|i: int| 0 <= i < r@.len() ==> *r@[i] == reviews@.filter(selection(product_id, approved_only))[i],
{
    let ghost keep = selection(product_id, approved_only);
    let mut r: Vec<&Review> = Vec::new();
    let mut i: usize = 0;
    while i < reviews.len()
        invariant
            i <= reviews@.len(),
            keep == selection(product_id, approved_only),
            r@.len() == reviews@.take(i as int).filter(keep).len(),
            forall|j: int| 0 <= j < r@.len() ==> *r@[j] == reviews@.take(i as int).filter(keep)[j],
        decreases reviews@.len() - i,
    {
        proof {
            lemma_filter_take_step(reviews@, keep, i as int);
        }
        let review = &reviews[i];
        proof {
            assert(keep(reviews@[i as int]) == (review.product_id == product_id && (!approved_only
                || review.approved)));
        }
        if review.product_id == product_id && (!approved_only || review.approved) {
            r.push(review);
        }
        i = i + 1;
    }
    proof {
        assert(reviews@.take(reviews@.len() as int) =~= reviews@);
    }
    r
}

/// The review that `create` stores.
pub open spec fn created_review(id: u64, product_id: u64, author: String, new: NewReview, now: u64) -> Review {
    Review {
        id,
        product_id,
        author_email: author,
        rating: new.rating,
        title: new.title,
        body: new.body,
        created_at: now,
        approved: false,
    }
}

impl ReviewStore {
    /// Stores a review of `product_id` by the logged-in account, not yet
    /// approved, with the next id, and returns the id. Refused without a
    /// login, with a rating outside 1 to 5, or for a product that does not
    /// exist, in that order.
    pub fn create(
        &mut self,
        session_email: Option<&String>,
        product_id: u64,
        new: NewReview,
        products: &Vec<Product>,
        now: u64,
    ) -> (r: Result<u64, ReviewError>)
        requires
            session_email is Some && valid_rating(new.rating) && product_index(products@, product_id) >= 0
                ==> old(self).next_id < u64::MAX,
        ensures
            session_email is None ==> r == Err::<u64, ReviewError>(ReviewError::LoginRequired),
            session_email is Some && !valid_rating(new.rating) ==> r == Err::<u64, ReviewError>(
                ReviewError::InvalidRating,
            ),
            session_email is Some && valid_rating(new.rating) && product_index(products@, product_id) < 0
                ==> r == Err::<u64, ReviewError>(ReviewError::ProductNotFound),
            r is Err ==> final(self).next_id == old(self).next_id && final(self).reviews@ == old(
                self,
            ).reviews@,
            r is Ok ==> r == Ok::<u64, ReviewError>(old(self).next_id) && final(self).next_id == old(
                self,
            ).next_id + 1 && final(self).reviews@ == old(self).reviews@.push(
                created_review(old(self).next_id, product_id, *session_email.unwrap(), new, now),
            ),
            r is Ok <==> (session_email is Some && valid_rating(new.rating) && product_index(
                products@,
                product_id,
            ) >= 0),
    {
        let email = match session_email {
            Some(e) => e,
            None => return Err(ReviewError::LoginRequired),
        };
        if new.rating < 1 || new.rating > 5 {
            return Err(ReviewError::InvalidRating);
        }
        if !product_exists(products, product_id) {
            return Err(ReviewError::ProductNotFound);
        }
        let id = self.next_id;
        self.next_id = self.next_id + 1;
        self.reviews.push(
            Review {
                id,
                product_id,
                author_email: email.clone(),
                rating: new.rating,
                title: new.title,
                body: new.body,
                created_at: now,
                approved: false,
            },
        );
        Ok(id)
    }

    /// The reviews of `product_id` to list. With `approved_only` anybody
    /// gets the approved ones; otherwise only the administrator gets all
    /// of them.
    pub fn list(
        &self,
        product_id: u64,
        approved_only: bool,
        session_email: Option<&String>,
        admin_email: &String,
    ) -> (r: Result<Vec<&Review>, ReviewError>)
        ensures
            !approved_only && session_email is None ==> r == Err::<Vec<&Review>, ReviewError>(
                ReviewError::LoginRequired,
            ),
            !approved_only && session_email is Some && !is_admin(string_opt_view(session_email), admin_email@)
                ==> r == Err::<Vec<&Review>, ReviewError>(ReviewError::InsufficientPermission),
            r is Ok <==> (approved_only || is_admin(string_opt_view(session_email), admin_email@)),
            r matches Ok(v) ==> v@.len() == self.reviews@.filter(selection(product_id, approved_only)).len(),
            r matches Ok(v) ==> forall|i: int|
                0 <= i < v@.len() ==> *v@[i] == self.reviews@.filter(selection(product_id, approved_only))[i],
    {
        if !approved_only {
            match session_email {
                Some(email) => {
                    if *email != *admin_email {
                        return Err(ReviewError::InsufficientPermission);
                    }
                },
                None => return Err(ReviewError::LoginRequired),
            }
        }
        Ok(filter_reviews(&self.reviews, product_id, approved_only))
    }

    /// Approves the first review with id `id` (administrator only) and
    /// returns its position.
    pub fn approve(&mut self, id: u64, session_email: Option<&String>, admin_email: &String) -> (r: Result<
        usize,
        ReviewError,
    >)
        ensures
            final(self).next_id == old(self).next_id,
            !is_admin(string_opt_view(session_email), admin_email@) ==> r == Err::<usize, ReviewError>(
                ReviewError::AdminLoginRequired,
            ),
            is_admin(string_opt_view(session_email), admin_email@) && index_of(old(self).reviews@, id) < 0
                ==> r == Err::<usize, ReviewError>(ReviewError::NotFound),
            r is Err ==> final(self).reviews@ == old(self).reviews@,
            r is Ok <==> (is_admin(string_opt_view(session_email), admin_email@) && index_of(
                old(self).reviews@,
                id,
            ) >= 0),
            r matches Ok(i) ==> i == index_of(old(self).reviews@, id) && final(self).reviews@ == old(
                self,
            ).reviews@.update(i as int, approved_review(old(self).reviews@[i as int])),
    {
        if require_admin(session_email, admin_email).is_err() {
            return Err(ReviewError::AdminLoginRequired);
        }
        let i = match position_of(&self.reviews, id) {
            Some(i) => i,
            None => return Err(ReviewError::NotFound),
        };
        let ghost before = self.reviews@;
        let mut review = self.reviews.remove(i);
        review.approved = true;
        self.reviews.insert(i, review);
        proof {
            assert(self.reviews@ =~= before.update(i as int, approved_review(before[i as int])));
        }
        Ok(i)
    }

    /// Deletes the reviews with id `id`, for the administrator or the
    /// author of the (first) review with that id.
    pub fn delete(&mut self, id: u64, session_email: Option<&String>, admin_email: &String) -> (r: Result<
        (),
        ReviewError,
    >)
        ensures
            final(self).next_id == old(self).next_id,
            session_email is None ==> r == Err::<(), ReviewError>(ReviewError::LoginRequired),
            session_email is Some && index_of(old(self).reviews@, id) < 0 ==> r == Err::<(), ReviewError>(
                ReviewError::NotFound,
            ),
            session_email is Some && index_of(old(self).reviews@, id) >= 0 && !may_delete(
                old(self).reviews@[index_of(old(self).reviews@, id)],
                session_email.unwrap()@,
                admin_email@,
            ) ==> r == Err::<(), ReviewError>(ReviewError::InsufficientPermission),
            r is Err ==> final(self).reviews@ == old(self).reviews@,
            r is Ok <==> (session_email is Some && index_of(old(self).reviews@, id) >= 0 && may_delete(
                old(self).reviews@[index_of(old(self).reviews@, id)],
                session_email.unwrap()@,
                admin_email@,
            )),
            r is Ok ==> final(self).reviews@ == old(self).reviews@.filter(without_id::<Review>(id)),
    {
        let email = match session_email {
            Some(e) => e,
            None => return Err(ReviewError::LoginRequired),
        };
        let i = match position_of(&self.reviews, id) {
            Some(i) => i,
            None => return Err(ReviewError::NotFound),
        };
        if *email != *admin_email && *email != self.reviews[i].author_email {
            return Err(ReviewError::InsufficientPermission);
        }
        let _ = remove_by_id(&mut self.reviews, id);
        Ok(())
    }
}

/// `r` once approved.
pub open spec fn approved_review(r: Review) -> Review {
    Review { approved: true, ..r }
}

/// The account `email` may delete review `r`: it is the administrator or
/// the review's author.
pub open spec fn may_delete(r: Review, email: Seq<char>, admin_email: Seq<char>) -> bool {
    email == admin_email || email == r.author_email@
}

/// An unapproved review changes neither the count nor the rating sum.
pub proof fn law_unapproved_review_is_not_counted(s: Seq<&Review>, r: &Review)
    requires
        !r.approved,
    ensures
        approved_count(s.push(r)) == approved_count(s),
        approved_rating_sum(s.push(r)) == approved_rating_sum(s),
{
    assert(s.push(r).drop_last() =~= s);
}

/// An approved review adds one to the count and its rating to the sum.
pub proof fn law_approved_review_is_counted(s: Seq<&Review>, r: &Review)
    requires
        r.approved,
    ensures
        approved_count(s.push(r)) == approved_count(s) + 1,
        approved_rating_sum(s.push(r)) == approved_rating_sum(s) + r.rating,
{
    assert(s.push(r).drop_last() =~= s);
}

/// Reviews as they are created never appear in the public (approved-only)
/// listing.
pub proof fn law_new_review_is_not_public(
    reviews: Seq<Review>,
    id: u64,
    product_id: u64,
    author: String,
    new: NewReview,
    now: u64,
)
    ensures
        reviews.push(created_review(id, product_id, author, new, now)).filter(approved_of_product(product_id))
            == reviews.filter(approved_of_product(product_id)),
{
    lemma_filter_push(
        reviews,
        approved_of_product(product_id),
        created_review(id, product_id, author, new, now),
    );
}

/// A listing for product `product_id` holds only reviews of that product,
/// only approved ones when `approved_only`, and every such review of the
/// store, in store order.
pub proof fn law_listing_holds_exactly_the_product_reviews(
    reviews: Seq<Review>,
    product_id: u64,
    approved_only: bool,
)
    ensures
        reviews.filter(selection(product_id, approved_only)) == reviews.filter(
            |r: Review| r.product_id == product_id && (!approved_only || r.approved),
        ),
        forall|i: int|
            0 <= i < reviews.filter(selection(product_id, approved_only)).len() ==> {
                let r = #[trigger] reviews.filter(selection(product_id, approved_only))[i];
                &&& r.product_id == product_id
                &&& approved_only ==> r.approved
            },
        forall|j: int|
            0 <= j < reviews.len() && (#[trigger] reviews[j]).product_id == product_id && (!approved_only
                || reviews[j].approved) ==> reviews.filter(selection(product_id, approved_only)).contains(
                reviews[j],
            ),
{
    let keep = selection(product_id, approved_only);
    let direct = |r: Review| r.product_id == product_id && (!approved_only || r.approved);
    assert(keep =~= direct);
    broadcast use Seq::lemma_filter_pred;

    assert forall|j: int|
        0 <= j < reviews.len() && (#[trigger] reviews[j]).product_id == product_id && (!approved_only
            || reviews[j].approved) implies reviews.filter(keep).contains(reviews[j]) by {
        reviews.lemma_filter_contains(keep, j);
    }
}

/// A new review carries the given id, product, author and contents,
/// the time of its creation, and is not approved.
pub proof fn law_created_review_is_pending(id: u64, product_id: u64, author: String, new: NewReview, now: u64)
    ensures
        ({
            let r = created_review(id, product_id, author, new, now);
            &&& r.id == id
            &&& r.product_id == product_id
            &&& r.author_email == author
            &&& r.rating == new.rating
            &&& r.title == new.title
            &&& r.body == new.body
            &&& r.created_at == now
            &&& !r.approved
        }),
{
}

/// Approving a review sets its approval and changes nothing else.
pub proof fn law_approval_changes_only_the_flag(r: Review)
    ensures
        ({
            let a = approved_review(r);
            &&& a.approved
            &&& a.id == r.id
            &&& a.product_id == r.product_id
            &&& a.author_email == r.author_email
            &&& a.rating == r.rating
            &&& a.title == r.title
            &&& a.body == r.body
            &&& a.created_at == r.created_at
        }),
{
}

} // verus!
