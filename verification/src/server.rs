use vstd::prelude::*;

verus! {

/// One server record as the directory API reports it: a read-only snapshot,
/// never mutated or persisted by the dashboard.
#[derive(Clone, Debug, PartialEq)]
pub struct Server {
    pub name: String,
    pub slots: u32,
    pub max_slots: u32,
    pub map_id: String,
    pub map_label: String,
    pub port: u16,
    pub password_protected: bool,
    pub secured: bool,
    pub game_mode: String,
    pub game_mode_label: String,
    pub ip: String,
    pub version: String,
    pub updated: String,
}

} // verus!
