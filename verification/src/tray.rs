//! The status-notifier tray: when to register again with the watcher.

use vstd::prelude::*;

use crate::text::text_equals;

verus! {

/// The D-Bus object path of the status notifier item.
pub const ITEM_PATH: &'static str = "/StatusNotifierItem";

/// The D-Bus object path of the tray menu.
pub const MENU_PATH: &'static str = "/MenuBar";

/// The bus name of the status notifier watcher.
pub const WATCHER_SERVICE: &'static str = "org.kde.StatusNotifierWatcher";

/// The object path of the status notifier watcher.
pub const WATCHER_PATH: &'static str = "/StatusNotifierWatcher";

/// The interface of the status notifier watcher.
pub const WATCHER_IFACE: &'static str = "org.kde.StatusNotifierWatcher";

/// Whether a bus name-owner change means the watcher has (re)appeared, so
/// the tray item must register with it again: the name must be the
/// watcher's and the new owner present and non-empty.
pub fn should_reregister(name: &str, new_owner: Option<&str>) -> (r: bool)
    ensures
        r == (name@ == WATCHER_SERVICE@ && match new_owner {
            Some(o) => o@.len() > 0,
            None => false,
        }),
{
    if !text_equals(name, WATCHER_SERVICE) {
        return false;
    }
    match new_owner {
        Some(o) => o.unicode_len() > 0,
        None => false,
    }
}

} // verus!
