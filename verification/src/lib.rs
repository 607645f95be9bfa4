//! A terminal agent runtime: draft editing, the conversation state machine,
//! skill catalogs, sessions and the built-in tools' decision logic.
pub mod text;
pub mod json;
pub mod input;
pub mod error;
pub mod message;
pub mod tool;
pub mod guard;
pub mod event;
pub mod skills;
pub mod context;
pub mod storage;
pub mod agent;
pub mod handler;
pub mod chat;
pub mod config;
pub mod provider;
pub mod tools;
pub mod instructions;
pub mod render;
pub mod layout;
pub mod markdown;
pub mod chat_view;
pub mod telemetry;
