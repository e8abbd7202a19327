//! Verified core of a SteamVR Lighthouse base-station manager.
//!
//! The library contains the discovery/classification/reconciliation/dispatch
//! pipeline: deciding which discovered Bluetooth peripherals are lighthouses,
//! persisting them as a JSON cache, reconciling the cache against a live scan,
//! and planning the power-command writes. All platform I/O (the BLE stack,
//! the file system, the terminal) lives outside this crate and is driven
//! through the state machines and pure functions defined here.

pub mod app_state;
pub mod cache;
pub mod classify;
pub mod config;
pub mod device;
pub mod dispatch;
pub mod json;
pub mod reconcile;
pub mod response;
