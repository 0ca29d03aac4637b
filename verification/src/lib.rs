//! A verified core for a command line agent that talks to language models:
//! configuration resolution, prompt assembly, conversation memory, logging,
//! tool dispatch and the decisions of the agentic loop.
pub mod text;
pub mod memory;
pub mod config;
pub mod ollama;
pub mod agent;
pub mod agent_loop;
pub mod clock;
pub mod logging;
pub mod performance;
pub mod tools;
pub mod commands;
pub mod conversation_log;
pub mod comparison;
