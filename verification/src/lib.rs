//! Workspace, session and sandbox bookkeeping for a multi-agent terminal workspace.
pub mod text;
pub mod model;
pub mod order;
pub mod paths;
pub mod git_status;
pub mod diff;
pub mod history;
pub mod keyed;
pub mod rows;
pub mod json;
pub mod changes;
pub mod persistence;
pub mod lifecycle;
pub mod hashing;
pub mod sandbox;
pub mod records;
pub mod planning;
pub mod activity;
pub mod payload;
pub mod platform;
pub mod storage;
pub mod workspaces;
