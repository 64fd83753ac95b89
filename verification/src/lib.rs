//! `periodic`: the rules of a user-space job scheduler, stated and proved.

pub mod block_laws;
pub mod block_reading;
pub mod calendar;
pub mod cli;
pub mod command_laws;
pub mod commands;
pub mod config;
pub mod config_blocks;
pub mod config_edit;
pub mod config_hash;
pub mod config_laws;
pub mod config_lines;
pub mod config_mutation;
pub mod config_toggle;
pub mod cron;
pub mod daemon;
pub mod daemon_laws;
pub mod diagnostics;
pub mod display_laws;
pub mod doctor;
pub mod edit_laws;
pub mod error;
pub mod escape;
pub mod events;
pub mod executor;
pub mod firing;
pub mod firing_laws;
pub mod hash_laws;
pub mod ipc;
pub mod job_block;
pub mod jobs_edit;
pub mod json;
pub mod lines;
pub mod log_laws;
pub mod logs;
pub mod missed;
pub mod missed_laws;
pub mod occurrence;
pub mod output;
pub mod parse;
pub mod paths;
pub mod run_laws;
pub mod run_report;
pub mod schedule_laws;
pub mod schedule_table;
pub mod scheduler;
pub mod self_update;
pub mod service;
pub mod state;
pub mod text;
pub mod text_laws;
pub mod validation;
pub mod validation_laws;
pub mod zone;
