//! The decisions of a telemetry monitor.
pub mod addition;
pub mod app;
pub mod arrangement;
pub mod binary64;
pub mod charts;
pub mod display;
pub mod fields;
pub mod history;
pub mod json;
pub mod laws;
pub mod meaning;
pub mod numbers;
pub mod options;
pub mod paths;
pub mod readings;
pub mod save;
pub mod screen;
pub mod series;
pub mod states;
pub mod telemetry;
pub mod text;
