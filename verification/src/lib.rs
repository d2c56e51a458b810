//! The verified core of a tray meter for usage limits, local token counts and API spend.
//!
//! Everything that decides or computes stands here, with its contract: what the stored credentials
//! are and how they are renewed without harm to another writer ([`limits`], [`limits_flow`],
//! [`refresh`], [`cred_store`]), what the transcripts and the cached history add up to
//! ([`local_stats`], [`pricing`]), how the cost report is paged through ([`api_spend`]), what a
//! refresh does to the figures ([`scheduler`], [`snapshot`]), and when the icon and the popup change
//! ([`tray_icon`], [`percent_text`], [`popup`]). What the machine and the network do is handed in as
//! plain values.
//!
//! Calls of `serde_json` ([`json`]), `chrono` ([`dates`]) and the standard library's UTF-8 decoding
//! ([`text`], [`cred_store`]) go through small functions whose contracts are not proved; each says
//! what it takes from the crate that it calls.
pub mod api_spend;
pub mod cred_store;
pub mod dates;
pub mod http;
pub mod json;
pub mod limits;
pub mod limits_flow;
pub mod local_stats;
pub mod percent_text;
pub mod popup;
pub mod pricing;
pub mod refresh;
pub mod scheduler;
pub mod snapshot;
pub mod text;
pub mod tray_icon;
