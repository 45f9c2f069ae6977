//! Verified core of a tool that extracts fenced diagram blocks from Markdown,
//! drives an external rendering engine over them, and presents the resulting
//! images inline in a terminal through an escape-sequence graphics protocol.

pub mod display;
pub mod extract;
pub mod render;
pub mod watch;
