//! Right-insertion search of keys in sorted columns, with nulls and NaN
//! ordered as the largest values.
pub mod column;
pub mod kernel;
pub mod multi;
pub mod order;
pub mod search;
