//! First-order terms, the Herbrand domain of a signature, and the refutation loop.

pub mod domain;
pub mod herbrand;
pub mod laws;
pub mod product;
pub mod substitution;
pub mod symbol;
pub mod term;

pub use domain::Domain;
pub use herbrand::{HerbrandLoop, Search, Step};
pub use substitution::Substitution;
pub use term::{Apply, Term};
