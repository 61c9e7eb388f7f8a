//! Encounter detection for a creature-collecting game: noisy per-frame text
//! readings are reduced to one reliable transition between walking and being
//! in an encounter, and the encounters are tallied.

pub mod command;
pub mod consensus;
pub mod laws;
pub mod mode;
pub mod ranking;
pub mod reading;
pub mod runner;
pub mod sampler;
pub mod state;
pub mod stats;
pub mod text;
pub mod window;

pub use command::{Command, Followup};
pub use consensus::Verdict;
pub use mode::{Mode, Toggle};
pub use reading::{get_mons, Reading};
pub use state::{encounter_process, EncounterState};
pub use stats::MonStats;
pub use window::{game_exist, APP_NAME, JAVA};
