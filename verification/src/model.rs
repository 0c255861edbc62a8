//! The wallpaper database location.

use vstd::prelude::*;

verus! {

/// The SQLite URL that opens (creating it if needed) the database file at
/// `db_path`.
pub open spec fn sqlite_url_text(db_path: Seq<char>) -> Seq<char> {
    "sqlite://"@ + db_path + "?mode=rwc"@
}

/// The SQLite URL of the database file at `db_path`, opened read-write and
/// created when missing.
pub fn sqlite_url(db_path: &str) -> (r: String)
    ensures
        r@ == sqlite_url_text(db_path@),
{
    let mut s = String::from_str("sqlite://");
    s.append(db_path);
    s.append("?mode=rwc");
    s
}

} // verus!
