//! Decision logic of a tiered memory orchestrator.

pub mod calendar;
pub mod clock;
pub mod digest;
pub mod frontmatter;
pub mod json;
pub mod path;
pub mod score;
pub mod table;
pub mod text;
pub mod tier;
pub mod transcript_index;
pub mod turn_end;
pub mod turn_evaluator;
pub mod uuid_text;
pub mod watch_config;
