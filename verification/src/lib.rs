//! Verified core of a function-variant composer: from the placeholders used in a
//! function template and the variant sections declared beside it, decide which
//! generated functions exist, what they are called, and what each placeholder
//! becomes in each of them.

pub mod compose;
pub mod expand;
pub mod laws;
pub mod mapping;
pub mod model;
pub mod names;
pub mod product;
pub mod rules;
pub mod sections;

