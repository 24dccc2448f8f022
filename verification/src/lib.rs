//! Change-impact analysis for JavaScript and TypeScript monorepos.
pub mod analysis;
pub mod cache;
pub mod cargo;
pub mod collections;
pub mod data;
pub mod diagnostics;
pub mod git;
pub mod graph;
pub mod lookup;
pub mod order;
pub mod package_manager;
pub mod parser;
pub mod path;
pub mod plugin;
pub mod pnpm;
pub mod query;
pub mod sorting;
pub mod text;
pub mod tsgo;
pub mod typescript;
pub mod ui;
pub mod viz;
pub mod walk;
pub mod words;
pub mod workspace;
