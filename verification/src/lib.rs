//! Decision logic of the SPN hub.
//!
//! The hub mediates between providers and consumers of services that connect to
//! it over QUIC. This library decides: who a client is, which provider a consumer
//! is sent to, when a provider is started or stopped and how, which hubs run. What
//! it decides on comes in as plain values, and the program around it does what
//! was decided.

pub mod clock;
pub mod config;
pub mod connection_table;
pub mod consumers;
pub mod control;
pub mod idle;
pub mod microservice;
pub mod name_map;
pub mod ondemand;
pub mod providers;
pub mod proxy;
pub mod reconcile;
pub mod search;
pub mod service_map;
pub mod session;
pub mod shutdown;
pub mod sweep;
pub mod text;
