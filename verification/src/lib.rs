//! woven-shell's logic, verified: the parsers, state machines, caches and text
//! generators of a Sway shell's bar, launcher, lock screen, control centre and
//! settings panel. Reading files, running commands, drawing and floating-point work
//! are left to the caller.
use vstd::prelude::*;

pub mod widgets;
pub mod blur;
pub mod images;
pub mod strs;
pub mod desktop;
pub mod search;
pub mod calc;
pub mod keybinds;
pub mod keys;
pub mod panel;
pub mod panel_forms;
pub mod launch;
pub mod lock;
pub mod runs;
pub mod bar;
pub mod bar_widgets;
pub mod sway;
pub mod apps;
pub mod cfg;
pub mod color;
pub mod cc;
pub mod session;
pub mod icons;
pub mod launch_icons;
