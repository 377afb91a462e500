//! Meriadoc: a task runner whose specs, validation, environment resolution and
//! interpolation rules are stated and proved here.
pub mod text;
pub mod strmap;
pub mod spec;
pub mod env;
pub mod interpolate;
pub mod error;
pub mod dotenv;
pub mod validation;
pub mod project;
pub mod paths;
pub mod resolver;
pub mod executor;
pub mod interactive;
pub mod cache;
pub mod order;
pub mod saved_env;
pub mod config;
pub mod prompt;
pub mod cli;
pub mod app;
pub mod run;
pub mod mcp;
pub mod output;
pub mod report;
pub mod info;
pub mod checkup;
pub mod housekeeping;
pub mod variables;
pub mod api;
pub mod discovery;
