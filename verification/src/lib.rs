//! Core library of a MEGA download manager: link detection, key handling,
//! chunk planning, settings, proxy rotation and the request/retry decisions
//! of the transfer engine.

pub mod text;
pub mod util;
pub mod clipboard;
pub mod config;
pub mod crypto;
pub mod db;
pub mod download;
pub mod link_parser;
pub mod mega_api;
pub mod megacrypter;
pub mod proxy;
pub mod transfer_manager;
