//! A terminal orchestrator for agents that work on Google Doc tabs: tabs whose
//! title carries `[agent]` are claimed (`[agent,working]`) and handed to an
//! agent, whose output is captured and shown; `[human]` marks finished work.
//!
//! This crate holds the orchestrator's logic: reading tabs out of the Docs
//! API's replies, the shared state and its updates, terminal input, and the
//! frame that is drawn.
pub mod agent;
pub mod config;
pub mod document;
pub mod input;
pub mod poll;
pub mod render;
pub mod state;
pub mod state_laws;
pub mod text;
