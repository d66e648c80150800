//! Verified core of a delegation runner: lane prompts, sentinel framing of lane
//! results, conflict review and synthesis gating, run manifests, tmux invocations
//! and the environment checklist.
pub mod cli;
pub mod clock;
pub mod doctor;
pub mod manifest;
pub mod prompt_builder;
pub mod result_parser;
pub mod review;
pub mod run_plan;
pub mod synthesizer;
pub mod text;
pub mod tmux_backend;
