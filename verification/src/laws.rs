//! What the library is for, stated from what goes in to what comes out.
//!
//! Each module states laws of one kind of work on the members of the values that are
//! read and answered.
pub mod calls;
pub mod drawing;
pub mod listing;
pub mod measuring;
pub mod numbers;
pub mod reading;
pub mod requests;
pub mod values;
