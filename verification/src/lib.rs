//! Verified core of a WireGuard server installer and manager: configuration
//! text, address allocation, subnet rules and client bookkeeping.

pub mod client;
pub mod initialization;
pub mod install;
pub mod interface;
pub mod ipv4;
pub mod migration;
pub mod models;
pub mod network;
pub mod numtext;
pub mod os_detection;
mod outside;
pub mod services;
pub mod text;
pub mod uninstall;
