//! FileToolkit core: the verified logic behind a desktop file-processing
//! toolkit (pipelines of file operations, their preview and execution plan,
//! naming rules, size formatting, range parsing and checksums).
pub mod text;
pub mod paths;
pub mod commands;
pub mod pipeline;
