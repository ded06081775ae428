//! A catalog of items, recipes and production machines read from a game's
//! data export, and a query engine that answers "how many machines, at what
//! clock fraction, produce or consume a given rate of an item" with exact
//! rational arithmetic.

pub mod catalog;
pub mod classes;
pub mod names;
pub mod query;
pub mod ratio;
pub mod record;

pub use catalog::Classes;
pub use classes::{unit, Class, ClassCollection, ClassSet, Item, ItemAmounts, LoadError, Machine,
    Recipe, StackSize};
pub use names::ClassName;
pub use query::{Plan, QueryError, SearchMode};
pub use ratio::Ratio;
pub use record::parse_rational;
