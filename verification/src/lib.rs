//! A point-of-sale pricing engine: a basket accumulates scanned products,
//! holds promotional deals, and computes its total in minor currency units.
//!
//! Money is a whole number of minor units throughout, so that no rounding
//! drifts: the one place where a fraction arises, a percentage discount,
//! drops it.

pub mod basket;
pub mod catalog;
pub mod currency;
pub mod deal;
pub mod laws;
pub mod summation;

pub use basket::{Basket, BasketView, ProductNotFound};
pub use catalog::{Catalog, Product, ProductView};
pub use currency::Currency;
pub use deal::{Deal, DealKind, DealView};
