//! Tango's library and lobby logic, verified.
pub mod backend;
pub mod config;
pub mod dihedral;
pub mod friend_code;
pub mod http;
pub mod loadout;
pub mod lobby;
pub mod marker;
pub mod order;
pub mod package;
pub mod patch;
pub mod paths;
pub mod replays;
pub mod rom;
pub mod save;
pub mod scanner;
pub mod stats;
pub mod storage;
pub mod text;
pub mod tree;
pub mod web;
