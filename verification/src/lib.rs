//! Verified core of an OpenCode operations dashboard: session normalisation,
//! stall classification, snapshot building, port classification, process
//! kill verdicts and the sleep-prevention state machine.

pub mod types;
pub mod text;
pub mod json;
pub mod time;
pub mod sorting;
pub mod session_model;
pub mod opencode_adapter;
pub mod normalize;
pub mod stall_detector;
pub mod port_scanner;
pub mod dashboard_service;
pub mod sleep_manager;
pub mod process_killer;
pub mod kill_steps;


