//! A verified core for viewing Serilog compact-JSON (CLEF) log files:
//! record extraction, message-template rendering, level statistics,
//! template aggregation, filtering and paging.

pub mod text;
pub mod level;
pub mod json;
pub mod template;
pub mod record;
pub mod time;
pub mod filter;
pub mod app;
