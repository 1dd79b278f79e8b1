//! Gradient-descent linear regression over one-dimensional data.
//!
//! Values are fixed-point numbers: an `i64` counts millionths, so `1.0`
//! is stored as `1_000_000`. Every arithmetic step is exact integer
//! arithmetic with truncating division, and every function carries a
//! contract that pins its result down; overflow is detected and reported
//! as an error value rather than silently wrapping.

pub mod fixed;
pub mod sums;
pub mod regress;
pub mod laws;

pub use fixed::SCALE;
pub use regress::{predict, error, dm, db, linreg, RegError, EPOCHS, RATE_DIV};
