//! Bills, insurance policies, and the schedules that settle them on time.
//!
//! Two books are kept side by side: [`bill_payments::BillPayments`] hands
//! every refusal to its caller as an error to recover from, while
//! [`insurance::Insurance`] answers with an [`insurance::Abort`], after
//! which the caller is expected to give up the whole invocation. Both drive their schedules by the same
//! catch-up arithmetic, found in [`catch_up`].
//!
//! A book holds plain values only. Who calls, and what time it is, are
//! arguments of each operation; what should be announced afterwards is
//! queued in the book until it is taken out.

pub mod address;
pub mod bill_payments;
pub mod catch_up;
pub mod insurance;
pub mod notice;
pub mod records;
pub mod timer;
