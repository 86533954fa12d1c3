//! Evaluation support that works on forms alone: the built-in macros, the
//! special-form names, and the splitting of a top-level `do`.

pub mod env;
pub mod load;
pub mod macros;
pub mod special_forms;
