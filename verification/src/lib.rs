//! Division of `u64` values by a divisor that is only known at run time.
//!
//! Hardware division is slow. Where one divisor serves many dividends, a
//! [`DividerU64`] is prepared from it once, and each division then costs a
//! widening multiplication and a shift:
//!
//! ```text
//! let divider = DividerU64::divide_by(interval)?;
//! for value in values {
//!     let bucket = divider.divide(value);
//!     ..
//! }
//! ```
//!
//! Preparing is not cheap, so a divider pays off only when it is reused.
//!
//! Every function here is verified. [`DividerU64::divide_by`] returns the
//! divider that [`DividerU64::for_divisor`] describes, and applying that
//! divider to `n` yields exactly `n / divisor`
//! ([`correctness::lemma_prepared_divider_divides`]).
//!
//! The modules, from the ground up:
//! - [`log2`]: the floor of the base-2 logarithm, and powers of two;
//! - [`bits`]: what the machine's bit operations compute;
//! - [`reciprocal`]: rounded-up reciprocals, and why multiplying by one
//!   divides;
//! - [`divider`]: the divider, its preparation and its application;
//! - [`correctness`]: what holds of every prepared divider.

pub mod bits;
pub mod correctness;
pub mod divider;
pub mod log2;
pub mod reciprocal;

pub use crate::divider::{DividerError, DividerU64};
