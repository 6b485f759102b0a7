//! Verified core of a replay uploader for ManiaExchange: the GBX replay
//! header parser, the text formatting rules, the login and upload decisions
//! of the exchange client, the stored preferences and the replay queue.
pub mod text;
pub mod gbx_parser;
pub mod string_map;
pub mod mx_client;
pub mod logs;
pub mod pref;
pub mod session;
