pub mod doc_tree;
pub mod documents;
pub mod doc_laws;
pub mod cycle_laws;
pub mod text;
pub mod error;
pub mod split;
pub mod crypto;
pub mod fmt;
pub mod clock;
pub mod actor;
pub mod access;
pub mod search;
pub mod workspace_core;
pub mod ids;
pub mod workspace_admin;
pub mod changes;
pub mod pagination;
pub mod config;
pub mod audit;
pub mod assets;
pub mod integration_connections;
pub mod agents;
pub mod agent_credentials;
pub mod task_structure;
pub mod task_management;
pub mod knowledge_base;
pub mod activity;
pub mod auth;
pub mod mcp;
pub mod response;
