//! The decisions of a browser benchmark runner: which inputs are accepted, what is measured next,
//! what is kept, and what the history of a benchmark says.

pub mod artifact_retention;
pub mod benchmark_host;
pub mod benchmark_preview;
pub mod benchmark_runtime;
pub mod browse_laws;
pub mod browser_lab;
pub mod capture_laws;
pub mod commands;
pub mod comparison;
pub mod definition_laws;
pub mod diff_laws;
pub mod digest;
pub mod display_laws;
pub mod doctor;
pub mod environment;
pub mod errors;
pub mod fixture_laws;
pub mod fixtures;
pub mod history;
pub mod history_artifacts;
pub mod history_panels;
pub mod history_screen;
pub mod history_tui;
pub mod json;
pub mod json_laws;
pub mod lineage;
pub mod lineage_laws;
pub mod lineage_text;
pub mod managed_benchmark;
pub mod manifest;
pub mod measurement;
pub mod measurement_laws;
pub mod measurement_log;
pub mod number;
pub mod ordered;
pub mod outcome_laws;
pub mod paths;
pub mod picker_laws;
pub mod planning_laws;
pub mod preparation;
pub mod preview_laws;
pub mod project_modules;
pub mod promotion;
pub mod promotion_laws;
pub mod record_laws;
pub mod reports;
pub mod retention_laws;
pub mod run_screen;
pub mod run_tui;
pub mod runner;
pub mod schedule;
pub mod sidecar_runtime;
pub mod source_state;
pub mod terminal_ui;
pub mod text;
pub mod text_laws;
pub mod workflow_laws;
