//! A local log relay: the decisions of a singleton ingestion daemon's
//! supervisor, the descriptor file that coordinates it, the framing of the
//! records that the daemon appends, and the selection of recent log lines.
pub mod descriptor;
pub mod supervisor;
pub mod record;
pub mod reader;
pub mod paths;
