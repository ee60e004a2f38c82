//! A verified engine for runs of agent workflows.

pub mod attempts;
pub mod document;
pub mod drive;
pub mod failure;
pub mod graph;
pub mod json;
pub mod kept;
pub mod laws;
pub mod laws_documents;
pub mod laws_events;
pub mod laws_flow;
pub mod laws_reading;
pub mod laws_text;
pub mod model;
pub mod pool;
pub mod run;
pub mod samples;
pub mod sessions;
pub mod template;
pub mod text;
