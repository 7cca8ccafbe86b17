//! Priority arbitration for a single indicator lamp.
//!
//! Named modes are ranked by the order in which they are configured; the lamp shows the
//! command of the highest-ranked active mode. Modes are switched on and off by recurring
//! schedules and by watched count files. The decisions of each of those sources are
//! verified functions here; the sleeping, watching and file access around them is left
//! to the caller.

pub mod config;
pub mod controller;
pub mod scheduler;
pub mod watcher;

pub use config::{
    load, output_file, Args, Config, ConfigError, CountFileConfig, EmailConfig, LampMode,
    ScheduleConfig, TimerConfig,
};
pub use controller::{LampController, LampError};
pub use scheduler::{
    delay_until, ScheduleError, Timer, TimerAction, MAX_DURATION_SECS, MAX_INSTANT_MS, MIN_INSTANT_MS,
};
pub use watcher::{parse_count, trigger_state, CountWatcher, EmailFileWatcher};
