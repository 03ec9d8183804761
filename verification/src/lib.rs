//! Recent merged pull requests of a profile owner, rendered as a Markdown block.

pub mod text;
pub mod model;
pub mod grouping;
pub mod selection;
pub mod render;
pub mod clock;
pub mod block;
pub mod numbers;
pub mod config;
pub mod github;
pub mod output;
pub mod update;
