//! Product categories (`id`, `name`, `slug`), managed by the
//! administrator. Products refer to categories by id.

use vstd::prelude::*;

use crate::records::{index_of, remove_by_id, without_id, Keyed};
use crate::text::{blank, is_blank};

verus! {

/// A category.
#[derive(Debug, Clone)]
pub struct Category {
    pub id: u64,
    pub name: String,
    pub slug: String,
}

impl Keyed for Category {
    open spec fn key(&self) -> u64 {
        self.id
    }

    fn id_of(&self) -> (r: u64) {
        self.id
    }
}

/// All categories, and the id the next one will get.
#[derive(Debug)]
pub struct CategoryStore {
    pub next_id: u64,
    pub categories: Vec<Category>,
}

impl Default for CategoryStore {
    /// No categories; the first one gets id 0.
    fn default() -> (r: Self)
        ensures
            r.next_id == 0,
            r.categories@.len() == 0,
    {
        CategoryStore { next_id: 0, categories: Vec::new() }
    }
}

/// Why a category request was refused.
#[derive(Debug, Clone, Copy, PartialEq, Eq, Structural)]
pub enum CategoryError {
    /// The name or the slug is empty once trimmed (answered with 400).
    EmptyField,
    /// No category has the id (answered with 404).
    NotFound,
}

impl CategoryStore {
    /// Adds the category `name`/`slug` with the next id and returns the id;
    /// refused when the name or the slug is empty once trimmed.
    pub fn create(&mut self, name: String, slug: String) -> (r: Result<u64, CategoryError>)
        requires
            blank(name@) || blank(slug@) || old(self).next_id < u64::MAX,
        ensures
            (blank(name@) || blank(slug@)) ==> r == Err::<u64, CategoryError>(CategoryError::EmptyField)
                && final(self).next_id == old(self).next_id
                && final(self).categories@ == old(self).categories@,
            !(blank(name@) || blank(slug@)) ==> r == Ok::<u64, CategoryError>(old(self).next_id)
                && final(self).next_id == old(self).next_id + 1
                && final(self).categories@ == old(self).categories@.push(
                (Category { id: old(self).next_id, name, slug }),
            ),
    {
        if is_blank(name.as_str()) || is_blank(slug.as_str()) {
            return Err(CategoryError::EmptyField);
        }
        let id = self.next_id;
        self.next_id = self.next_id + 1;
        self.categories.push(Category { id, name, slug });
        Ok(id)
    }

    /// Deletes the categories with id `id`; refused when there is none.
    /// Products keep referring to the id.
    pub fn delete(&mut self, id: u64) -> (r: Result<(), CategoryError>)
        ensures
            final(self).next_id == old(self).next_id,
            final(self).categories@ == old(self).categories@.filter(without_id::<Category>(id)),
            r is Ok <==> index_of(old(self).categories@, id) >= 0,
            r is Err ==> r == Err::<(), CategoryError>(CategoryError::NotFound),
    {
        if remove_by_id(&mut self.categories, id) {
            Ok(())
        } else {
            Err(CategoryError::NotFound)
        }
    }
}

} // verus!
