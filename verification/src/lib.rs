//! EdgeShield: passive network monitoring logic — packet decoding,
//! protocol classification, device inventory, alert rules, API
//! authentication and configuration — with machine-checked contracts.

pub mod ntp;
pub mod text;
pub mod dhcp;
pub mod mdns;
pub mod protocol;
pub mod types;
pub mod error;
pub mod alert;
pub mod decode;
pub mod classifier;
pub mod config;
pub mod alert_store;
pub mod rules;
pub mod device_store;
pub mod crypto;
pub mod auth;
pub mod audit;
pub mod notify;
pub mod setup;
pub mod routes;
pub mod daemon;
pub mod codec;
pub mod history;
pub mod discovery;
pub mod cli;
