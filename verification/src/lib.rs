//! A honeypot's decisions, verified.

pub mod text;
pub mod addr;
pub mod allowlist;
pub mod time;
pub mod tracker;
pub mod store;
pub mod ban;
pub mod filter;
pub mod config;
pub mod firewall;
pub mod calls;
pub mod admin;
pub mod inline_admin;
pub mod honeypot;
pub mod logging;
pub mod webdav;
pub mod supervise;
pub mod promises;
