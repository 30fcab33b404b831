//! Crosshair overlay logic: commands, configuration text, profiles, display geometry,
//! backend choice and pixel blending.
//!
//! Lengths are held as the bit patterns of `f32` numbers ([`Length`]); reading them from
//! text and writing them as text is left to the caller, which hands the results in.
//! `layered::blend` and `shm::blend` draw a pixel for the two overlay backends; `laws`
//! states what holds across calls.

pub mod backend;
pub mod color;
pub mod command;
pub mod config;
pub mod decimal;
pub mod display;
pub mod error;
pub mod laws;
pub mod layered;
pub mod length;
pub mod overlay;
pub mod profile;
pub mod refresh;
pub mod shm;
pub mod state;
pub mod text;
pub mod wide;

pub use backend::{choose_backend, startup_message, BackendChoice};
pub use color::Color;
pub use command::{length_texts, parse_command, Command};
pub use config::AppConfig;
pub use display::{DisplaySize, OffsetLimits};
pub use error::CommandError;
pub use length::{Length, LengthTexts};
pub use overlay::{frame_action, select_output, FrameAction, OverlayRequest};
pub use profile::{profile_name, profile_names_from, valid_profile_name};
pub use refresh::{refresh_displays, DisplayRefresh};
pub use state::{CrosshairState, RuntimeState};
pub use wide::wide;

