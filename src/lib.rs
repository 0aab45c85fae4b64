//! Decision logic of a daily activity client for a web console: session
//! establishment from login cookies, the sign-in due check, task selection,
//! the mileage redemption machine and the award count.

pub mod activity;
pub mod config;
pub mod session;
