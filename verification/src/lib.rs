//! Verified core of a small e-commerce back end: catalogue access rules,
//! shopping carts, favourites, reviews, orders and checkout.

pub mod email_map;
pub mod seq_util;
pub mod access;
pub mod cart;
pub mod query;
pub mod text;
pub mod records;
pub mod products;
pub mod categories;
pub mod favorites;
pub mod reviews;
pub mod order;
pub mod checkout;
pub mod accounts;
