//! Renders a single UI component in the browser from a navigable file
//! explorer: the rules of the explorer, the component pipeline, the host
//! workspace and the agent protocol, free of input and output.

pub mod cli;
pub mod detect;
pub mod explorer;
pub mod host;
pub mod json;
pub mod logs;
pub mod mcp;
pub mod path;
pub mod pipeline;
pub mod pipeline_types;
pub mod scan;
pub mod serve;
pub mod sort;
pub mod text;
