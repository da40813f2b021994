//! The rules of a KiCad library manager: where library files live, how symbol
//! libraries are taken apart and merged, what an import places where, and how
//! the interface moves from one screen to the next.

pub mod app;
pub mod cli;
pub mod commands;
pub mod config;
pub mod http;
pub mod importer;
pub mod imports;
pub mod inventory;
pub mod json;
pub mod library;
pub mod manifest;
pub mod merging;
pub mod online;
pub mod order;
pub mod paths;
pub mod picker;
pub mod places;
pub mod scan;
pub mod seen;
pub mod sexpr;
pub mod symlib;
pub mod text;
pub mod tree;
pub mod ui;
