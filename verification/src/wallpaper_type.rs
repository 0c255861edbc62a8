//! The wallpaper entry record that source plugins produce and the daemon
//! reads back from its database.

use vstd::prelude::*;

verus! {

/// A single wallpaper entry. Source plugins fill the scan-time subset;
/// the daemon reconstructs the full entry from its database on every read.
#[derive(Debug, Clone)]
pub struct WallpaperEntry {
    /// Canonical identity: the database item id (zero until synced).
    pub item_id: i64,
    /// Human-readable display name.
    pub name: String,
    /// The wallpaper type string (e.g. "scene", "image", "video").
    pub wp_type: String,
    /// Filesystem path or URI of the wallpaper resource.
    pub resource: String,
    /// Optional path to a preview image.
    pub preview: Option<String>,
    /// Free-form description.
    pub description: Option<String>,
    /// Source-assigned tags.
    pub tags: Vec<String>,
    /// Stable external identifier (e.g. a workshop id).
    pub external_id: Option<String>,
    /// File size in bytes.
    pub size: Option<i64>,
    /// Primary video stream width in pixels.
    pub width: Option<u32>,
    /// Primary video stream height in pixels.
    pub height: Option<u32>,
    /// Source-provided content rating.
    pub content_rating: Option<String>,
    /// File modification time in ms since the epoch, when known.
    pub modified_at: Option<i64>,
    /// Creation time in ms since the epoch, the fallback sort time.
    pub create_at: i64,
    /// Name of the source plugin that produced this entry.
    pub plugin_name: String,
    /// Absolute path of the directory the plugin was scanning; empty when
    /// the entry is unrooted.
    pub library_root: String,
}

} // verus!
