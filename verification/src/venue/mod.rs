//! Connectivity to a trading venue: the weighted request budget, the request cache and retry policy,
//! the public streams with their gap detection, and the private user-data stream.

pub mod cache;
pub mod classify;
pub mod clock;
pub mod ratelimit;
pub mod registry;
pub mod request;
pub mod rest;
pub mod sim;
pub mod stream;
pub mod userdata;
pub mod ws;
