//! Logical Beckon keys, their bindings to Herdr panes, and the displays that
//! show them.

#![allow(unused_imports)]

pub mod action;
pub mod binding;
pub mod brightness;
pub mod config;
pub mod config_laws;
pub mod control;
pub mod daemon_laws;
pub mod display;
pub mod display_protocol;
pub mod focus;
pub mod herdr;
pub mod hid;
pub mod histories;
pub mod input;
pub mod laws;
pub mod ledger;
pub mod name_map;
pub mod navigation;
pub mod pane_cache;
pub mod plugin;
pub mod presentation;
pub mod press_laws;
pub mod render;
pub mod render_laws;
pub mod request_laws;
pub mod service;
pub mod state;
pub mod status;
pub mod text;
pub mod text_laws;
