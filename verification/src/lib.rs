//! Sales tax on purchased items and on a basket of them.
//!
//! Every amount of money is a whole number of cents. A tax is a percentage of
//! the pre-tax price, rounded to the nearest five cents.

pub mod amount;
pub mod basket;
pub mod item;
pub mod parser;
pub mod tax;
pub mod text;

pub use basket::Basket;
pub use item::{Category, Imported, Item, ItemError, ItemView, Kind};
pub use tax::Tax;
