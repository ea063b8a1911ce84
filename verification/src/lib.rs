//! Decision logic of a market-trade collector.
#![allow(unused_imports)]

pub mod access;
pub mod api;
pub mod calendar;
pub mod cleanup;
pub mod clock;
pub mod config;
pub mod diagnostics;
pub mod discovery;
pub mod export;
pub mod health;
pub mod ingestion;
pub mod json;
pub mod limiter;
pub mod logging;
pub mod market;
pub mod net;
pub mod startup;
pub mod storage;
pub mod stream;
pub mod text;
pub mod tls;
