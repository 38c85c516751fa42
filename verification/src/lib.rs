//! A per-output wallpaper configuration store that can be reloaded while in use.
//!
//! The store keeps one validated snapshot of the settings of every named output,
//! hands out the settings of an output (or the fallback) on request, lists the
//! image paths that it refers to, and swaps in a freshly loaded snapshot only
//! when its entries differ from the current ones.
//!
//! Reading files, probing the file system and watching for changes are left to
//! the caller, who passes what was found as plain values.

pub mod entries;
pub mod laws;
pub mod path_order;
pub mod source;
pub mod text;
pub mod wallpaper_config;
pub mod wallpaper_info;
pub mod watch;

pub use crate::source::{ConfigSource, Fault, LoadError, PathKind, Section};
pub use crate::wallpaper_config::WallpapersConfig;
pub use crate::wallpaper_info::WallpaperInfo;
pub use crate::watch::{reload_pending_after, signal_change, WatchEvent};
