//! A streaming chat engine: conversation store, change notifier, backend
//! stream framing and the orchestration rules that tie them together.

pub mod assistant;
pub mod database;
pub mod error;
pub mod models;
pub mod notification;
pub mod prompts;
pub mod startup;
pub mod stream;
pub mod text;
pub mod types;
