//! Insurance policies, the schedules that pay their premiums, and the book
//! that keeps both.
//!
//! Every refusal is an [`Abort`]: the caller is expected to give up the
//! whole invocation, and the book, which a refused operation leaves as it
//! was, makes that safe.

pub mod book;
pub mod history;
pub mod laws;
pub mod model;
pub mod sums;
pub mod sweep;
pub mod sweep_laws;
pub mod types;

pub use book::Insurance;
pub use types::{Abort, InsuranceEvent, InsurancePolicy, PremiumSchedule};
