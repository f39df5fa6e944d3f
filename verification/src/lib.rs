//! Verified core of a web front end for the grok command-line agent.
pub mod text;
pub mod occupy;
pub mod pathx;
pub mod numfmt;
pub mod release;
pub mod auth;
pub mod prefs;
pub mod types;
pub mod parse;
pub mod config;
pub mod files;
pub mod workspace;
pub mod scan;
pub mod account;
pub mod pins;
pub mod control;
pub mod ask;
pub mod version;
pub mod agent;
pub mod host;
pub mod cli;
pub mod sys;
pub mod skill;
pub mod web;
pub mod slash_docs;
pub mod limiter;
pub mod prompt;
pub mod mcp_ask;
pub mod queue;
pub mod tool;
pub mod ext;
