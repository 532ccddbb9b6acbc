//! A deterministic build scheduler for shared development machines.

pub mod admission_laws;
pub mod board;
pub mod capacity;
pub mod cli;
pub mod clock;
pub mod daemon;
pub mod daemon_laws;
pub mod environment;
pub mod events;
pub mod ids;
pub mod json;
pub mod laws;
pub mod output;
pub mod policy;
pub mod policy_laws;
pub mod process;
pub mod protocol;
pub mod reading_laws;
pub mod runner_laws;
pub mod running;
pub mod scheduler;
pub mod scheduling;
pub mod supervision;
pub mod text;
pub mod text_laws;
pub mod transport;
pub mod view_laws;
