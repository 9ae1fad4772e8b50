//! Verified core of the rologlyphex macropad daemon: the layer-ring and glyph
//! configuration, the key-grab state machine, the typist's keycode bookkeeping,
//! the clipboard owner's paste/restore protocol, overlay placement, and the small
//! wire formats the daemon speaks.

pub mod text;
pub mod keymap;
pub mod config;
pub mod layers;
pub mod xgrab;
pub mod xtype;
pub mod awtfocus;
pub mod clipserve;
pub mod monitor;
pub mod socket;
pub mod server;
pub mod settings;
pub mod xerror;
pub mod cli;
pub mod ipc;
pub mod overlay;
