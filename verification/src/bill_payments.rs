//! Bills, the schedules that pay them, and the book that keeps both.
//!
//! Every refusal is handed back to the caller as an [`Error`], and a
//! refused operation leaves the book as it was.
//!
//! Two things are as they are on purpose. A bill can be taken out of the
//! book by anyone: [`BillPayments::cancel_bill`] asks for no caller. And a
//! schedule pays the first bill tied to it: the successor of a recurring
//! bill is tied to the same schedule but comes after the bill it follows,
//! so the schedule keeps finding the bill that is already paid and leaves
//! the successor open.

pub mod book;
pub mod history;
pub mod laws;
pub mod model;
pub mod sums;
pub mod sweep;
pub mod sweep_laws;
pub mod ties;
pub mod types;

pub use book::BillPayments;
pub use types::{Bill, BillEvent, Error, Schedule, ScheduleEvent, Topic};
