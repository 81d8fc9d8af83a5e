//! Smart contract execution of the Massa network.

pub mod error;
pub mod event_laws;
pub mod event_store;
pub mod interface_impl;
pub mod interface_laws;
pub mod ledger_laws;
pub mod ledger_step;
pub mod model_laws;
pub mod models;
pub mod progress;
pub mod query_laws;
pub mod replay_laws;
pub mod request_laws;
pub mod rng;
pub mod run_laws;
pub mod sce_ledger;
pub mod step_laws;
pub mod timeslots;
pub mod trace_laws;
pub mod types;
pub mod vec_map;
pub mod view_laws;
pub mod vm;
pub mod vm_laws;
pub mod vm_model;
