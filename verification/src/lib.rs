//! Collapse high-frequency progress lines of a build tool's diagnostic stream.
//!
//! The library classifies each diagnostic line as "collapsible" (a transient
//! progress update such as `Compiling foo v0.1.0`, possibly preceded by
//! whitespace and ANSI color escape sequences) or "normal", and renders a
//! byte stream in which consecutive collapsible lines overwrite each other in
//! place via carriage returns and space padding, while normal lines pass
//! through verbatim.

pub mod args;
pub mod classify;
pub mod rewrite;
pub mod trim;
