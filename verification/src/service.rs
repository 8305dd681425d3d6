//! The service layer: expense calculation, balance aggregation, and the
//! group and user data model.

pub mod balance;
pub mod expense;
pub mod group;
pub mod user;
