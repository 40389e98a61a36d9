//! Domain models of the memory engine.

pub mod agent;
pub mod allowlist;
pub mod classification;
pub mod context;
pub mod region;
pub mod api_key;
pub mod attachment;
pub mod entity;
pub mod episode;
pub mod goal;
pub mod guardrail;
pub mod lora;
pub mod narrative;
pub mod tiered;
pub mod counterfactual;
pub mod promotion;
pub mod edge;
pub mod view;
pub mod session;
pub mod user;
pub mod webhook_event;
pub mod span;
