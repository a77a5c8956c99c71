//! Records that carry a numeric id (products, categories, reviews,
//! orders) and the lookups and removals that the stores make by id.

use vstd::prelude::*;

use crate::seq_util::{first_match, lemma_filter_take_step, lemma_first_match, lemma_first_match_at, lemma_first_match_none};

verus! {

/// A record with a numeric id.
pub trait Keyed {
    /// The record's id.
    spec fn key(&self) -> u64;

    /// Reads the record's id.
    fn id_of(&self) -> (r: u64)
        ensures
            r == self.key(),
    ;
}

/// The record has id `id`.
pub open spec fn with_id<T: Keyed>(id: u64) -> spec_fn(T) -> bool {
    |t: T| t.key() == id
}

/// The record has an id other than `id`.
pub open spec fn without_id<T: Keyed>(id: u64) -> spec_fn(T) -> bool {
    |t: T| t.key() != id
}

/// The position of the first record with id `id`, or -1.
pub open spec fn index_of<T: Keyed>(s: Seq<T>, id: u64) -> int {
    first_match(s, with_id::<T>(id))
}

/// The position of the first record with id `id`, if any.
pub fn position_of<T: Keyed>(v: &Vec<T>, id: u64) -> (r: Option<usize>)
    ensures
        match r {
            Some(i) => index_of(v@, id) == i && i < v@.len(),
            None => index_of(v@, id) == -1,
        },
{
    let mut i: usize = 0;
    while i < v.len()
        invariant
            i <= v@.len(),
            forall|j: int| 0 <= j < i ==> !with_id::<T>(id)(#[trigger] v@[j]),
        decreases v@.len() - i,
    {
        if v[i].id_of() == id {
            proof {
                lemma_first_match_at(v@, with_id::<T>(id), i as int);
            }
            return Some(i);
        }
        i = i + 1;
    }
    proof {
        lemma_first_match_none(v@, with_id::<T>(id));
    }
    None
}

/// The first record with id `id`, if any.
pub fn find_by_id<T: Keyed>(v: &Vec<T>, id: u64) -> (r: Option<&T>)
    ensures
        match r {
            Some(t) => index_of(v@, id) >= 0 && *t == v@[index_of(v@, id)],
            None => index_of(v@, id) == -1,
        },
{
    match position_of(v, id) {
        Some(i) => Some(&v[i]),
        None => None,
    }
}

/// Removes every record with id `id`, keeping the others in order, and
/// tells whether there was one.
pub fn remove_by_id<T: Keyed>(v: &mut Vec<T>, id: u64) -> (removed: bool)
    ensures
        final(v)@ == old(v)@.filter(without_id::<T>(id)),
        removed == (index_of(old(v)@, id) >= 0),
{
    let ghost initial = v@;
    let ghost keep = without_id::<T>(id);
    let mut i: usize = 0;
    let ghost mut k: int = 0;
    let mut removed = false;
    proof {
        assert(initial.take(0).filter(keep) =~= Seq::<T>::empty()) by {
            reveal(Seq::filter);
        }
        assert(v@ =~= initial.take(0).filter(keep) + initial.skip(0));
    }
    while i < v.len()
        invariant
            0 <= k <= initial.len(),
            i == initial.take(k).filter(keep).len(),
            v@ == initial.take(k).filter(keep) + initial.skip(k),
            keep == without_id::<T>(id),
            removed == exists|j: int| 0 <= j < k && !keep(#[trigger] initial[j]),
        decreases v@.len() - i,
    {
        proof {
            lemma_filter_take_step(initial, keep, k);
            assert(v@[i as int] == initial[k]);
        }
        if v[i].id_of() == id {
            let _ = v.remove(i);
            removed = true;
            proof {
                assert(v@ =~= initial.take(k + 1).filter(keep) + initial.skip(k + 1));
                k = k + 1;
            }
        } else {
            proof {
                assert(v@ =~= initial.take(k + 1).filter(keep) + initial.skip(k + 1));
                k = k + 1;
            }
            i = i + 1;
        }
    }
    proof {
        assert(initial.take(k) =~= initial) by {
            assert(initial.skip(k).len() == 0);
        }
        lemma_first_match(initial, with_id::<T>(id));
        if removed {
            let j = choose|j: int| 0 <= j < k && !keep(#[trigger] initial[j]);
            assert(with_id::<T>(id)(initial[j]));
        }
        if index_of(initial, id) >= 0 {
            assert(!keep(initial[index_of(initial, id)]));
        }
    }
    removed
}

} // verus!
