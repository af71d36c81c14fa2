//! Host-side logic of the screensaver app: configuration, persisted progress and
//! statistics, the wall clock, frame pacing and scaling, the HUD font and the
//! command-line verbs.
pub mod assets;
pub mod audio;
pub mod clock;
pub mod config;
pub mod font;
pub mod line_format;
pub mod pace;
pub mod scale;
pub mod state;
pub mod stats;
pub mod text;
pub mod timectl;
pub mod verbs;
