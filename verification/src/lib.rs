//! NodeDB core logic: names, enums, documents, filters, triggers, mesh routing
//! and storage rules, each with its contract.

pub mod text;
pub mod error;
pub mod schema;
pub mod access_history;
pub mod conflict;
pub mod provenance;
pub mod mesh;
pub mod storage;
pub mod trigger;
pub mod value;
pub mod document;
pub mod filter;
pub mod wire;
pub mod federation;
pub mod tables;
pub mod discovery;
pub mod query_handler;
pub mod audit;
pub mod frame;
pub mod gossip;
pub mod handshake;
pub mod pipeline;
pub mod history;
pub mod trim;
pub mod catalog;
pub mod digest;
pub mod cache;
pub mod query;
pub mod sealing;
pub mod preferences;
