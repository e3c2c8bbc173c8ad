//! Billing totals for a catalog of subscriptions and one-shot purchases.
//!
//! A catalog is loaded from comma-separated records ([`load_items`]). A
//! request asks for a quantity and a discount of each item
//! ([`Form`], [`calculate`]); the answer is a line for each item
//! ([`RowView`]) and the totals of the lines ([`Totals`]). Prices, discounts
//! and amounts are integers in fixed units (see [`amount`]), so that every
//! amount is exact.

pub mod amount;
pub mod catalog;
pub mod category;
pub mod loader;
pub mod number;
pub mod quote;
pub mod row;
pub mod text;
pub mod totals;

pub use catalog::Item;
pub use category::{classify, Category, UnknownCategory};
pub use loader::{load_items, load_rows, LoadError};
pub use quote::{calculate, default_rows, Form, Quote};
pub use row::{compute_row, parse_discount, parse_quantity, RowView};
pub use totals::{compute_totals, Totals};
