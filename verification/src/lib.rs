//! Verified core of a game-server browser dashboard.
//!
//! The library owns everything the dashboard decides or computes: the server
//! record, the case-insensitive filter and the name sort that derive the
//! display list, the parsing of the refresh-interval field, and the state
//! machine that reacts to user edits, fetch completions and the auto-refresh
//! timer. Network access, timers and rendering live outside the library and
//! hand it plain values.

pub mod filter;
pub mod interval;
pub mod server;
pub mod state;
pub mod text;
