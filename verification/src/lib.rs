use vstd::prelude::*;

pub mod config;
pub mod config_laws;
pub mod domain;
pub mod notes;
pub mod notes_laws;
pub mod order;
pub mod path;
pub mod paths;
pub mod server;
pub mod server_laws;
pub mod state_laws;
pub mod text;
pub mod window;

verus! {
} // verus!
