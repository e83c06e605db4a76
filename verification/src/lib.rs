//! A linear support-vector machine trained by sub-gradient descent,
//! evaluated through a confusion matrix, and calibrated with Platt
//! scaling, all over exact rational arithmetic.
//!
//! Every scalar the library computes with is an exact rational
//! ([`ratio::Ratio`]); arithmetic that would leave the representable
//! range reports [`error::SvmError::Overflow`] instead of losing
//! precision.

pub mod error;
pub mod ratio;
pub mod confusion;
pub mod svm;
pub mod platt;
