//! First-order terms and formulas, enumeration of a Herbrand universe, and the
//! refutation loop that consumes it.

pub mod fol;
pub mod formula;
