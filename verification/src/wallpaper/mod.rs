//! Wallpaper list handling: ordering and selection of entries.

pub mod sort;
