//! A verified quantitative-strategy core.
#![allow(unused_imports)]

pub mod bytes;
pub mod count;
pub mod decimal;
pub mod domain;
pub mod order;
pub mod signal;
pub mod storage;
pub mod telemetry;
pub mod text;
pub mod validation;
pub mod venue;
pub mod vintage;
