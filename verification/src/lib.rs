//! Verified report builders, parsers and command decisions for MSI
//! SteelSeries "KLC" per-key RGB laptop keyboards.
//!
//! - `protocol`: the HID reports (group, free-form, commit, vendor,
//!   layout-select) and the lighting-effect host struct with its transform
//!   into the device's effect program.
//! - `layout`: keymaps and region groups, key-name resolution, hex colors.
//! - `command`: the command line's commands as plain values, their
//!   validation and the logical frame each applying command sets.
//! - `render`: the reports that apply a logical frame.
//! - `state`: the stored brightness and frame, and brightness arguments.
//! - `device`, `models`, `reply`, `daemon`: device identification, the
//!   model table's ids, decoding of GET replies, and the desktop backlight
//!   bridge's decisions.
//! - `text`: byte- and character-level parsing helpers.

pub mod protocol;
pub mod text;
pub mod layout;
pub mod device;
pub mod command;
pub mod state;
pub mod render;
pub mod reply;
pub mod models;
pub mod daemon;

pub use command::{Direction, EffectMode};
