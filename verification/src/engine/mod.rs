use vstd::prelude::*;

pub mod agent;
pub mod auth;
pub mod autonomous;
pub mod capability;
pub mod checkpoint;
pub mod codecalls;
pub mod context;
pub mod events;
pub mod goal;
pub mod models_dev;
pub mod permission;
pub mod prompt;
pub mod records;
pub mod rounds;
pub mod session_store;
pub mod sessions;
pub mod textcalls;
pub mod toolcall_text;
pub mod types;
pub mod update;

verus! {

} // verus!
