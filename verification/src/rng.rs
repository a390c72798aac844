pub mod copy;
pub mod infix;
pub mod unique;

pub use self::copy::{copy, copy_if};
pub use self::unique::{unique, unique_by, unique_copy, unique_copy_by};
