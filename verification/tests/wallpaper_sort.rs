use waywallen::control_proto::{SortDirection, WallpaperSortKey, WallpaperSortRule};
use waywallen::wallpaper::sort::{apply_wallpaper_sorts, last_modified_key, ordered_entry_ids};
use waywallen::wallpaper_type::WallpaperEntry;

fn entry(name: &str, modified_at: Option<i64>, create_at: i64) -> WallpaperEntry {
    WallpaperEntry {
        item_id: 0,
        name: name.to_string(),
        wp_type: "image".to_string(),
        resource: name.to_string(),
        preview: None,
        description: None,
        tags: Vec::new(),
        external_id: None,
        size: None,
        width: None,
        height: None,
        content_rating: None,
        modified_at,
        create_at,
        plugin_name: String::new(),
        library_root: String::new(),
    }
}

fn rule(key: WallpaperSortKey, direction: SortDirection) -> WallpaperSortRule {
    WallpaperSortRule { key: key.to_wire(), direction: direction.to_wire() }
}

#[test]
fn last_modified_sort_falls_back_to_create_at() {
    let newer_created = entry("created-newer", None, 30);
    let older_modified = entry("modified-older", Some(20), 40);
    let older_created = entry("created-older", None, 10);
    let mut entries = vec![&newer_created, &older_modified, &older_created];

    apply_wallpaper_sorts(
        &mut entries,
        &[WallpaperSortRule {
            key: WallpaperSortKey::LastModified.to_wire(),
            direction: SortDirection::Asc.to_wire(),
        }],
    );

    let names: Vec<_> = entries.iter().map(|entry| entry.name.as_str()).collect();
    assert_eq!(names, vec!["created-older", "modified-older", "created-newer"]);
}

#[test]
fn last_modified_key_prefers_modification_time() {
    assert_eq!(last_modified_key(&entry("a", Some(5), 9)), 5);
    assert_eq!(last_modified_key(&entry("a", None, 9)), 9);
}

#[test]
fn name_sort_ignores_case() {
    let b = entry("B", None, 0);
    let a = entry("a", None, 0);
    let c = entry("c", None, 0);
    let mut entries = vec![&b, &c, &a];
    apply_wallpaper_sorts(&mut entries, &[rule(WallpaperSortKey::Name, SortDirection::Asc)]);
    let names: Vec<_> = entries.iter().map(|e| e.name.as_str()).collect();
    assert_eq!(names, vec!["a", "B", "c"]);
}

#[test]
fn descending_direction_reverses() {
    let x = entry("x", Some(1), 0);
    let y = entry("y", Some(3), 0);
    let z = entry("z", Some(2), 0);
    let mut entries = vec![&x, &y, &z];
    apply_wallpaper_sorts(&mut entries, &[rule(WallpaperSortKey::LastModified, SortDirection::Desc)]);
    let names: Vec<_> = entries.iter().map(|e| e.name.as_str()).collect();
    assert_eq!(names, vec!["y", "z", "x"]);
}

#[test]
fn first_rule_is_primary_key_and_ties_keep_order() {
    let mut a = entry("a", None, 0);
    a.wp_type = "video".to_string();
    a.size = Some(10);
    let mut b = entry("b", None, 0);
    b.wp_type = "image".to_string();
    b.size = Some(10);
    let mut c = entry("c", None, 0);
    c.wp_type = "image".to_string();
    c.size = Some(5);
    let mut d = entry("d", None, 0);
    d.wp_type = "video".to_string();
    d.size = Some(5);
    let mut e = entry("e", None, 0);
    e.wp_type = "image".to_string();
    e.size = Some(10);
    let mut entries = vec![&a, &b, &c, &d, &e];
    apply_wallpaper_sorts(
        &mut entries,
        &[rule(WallpaperSortKey::WpType, SortDirection::Asc), rule(WallpaperSortKey::Size, SortDirection::Desc)],
    );
    let names: Vec<_> = entries.iter().map(|e| e.name.as_str()).collect();
    assert_eq!(names, vec!["b", "e", "c", "a", "d"]);
}

#[test]
fn unknown_and_unspecified_rules_are_skipped() {
    let x = entry("x", None, 2);
    let y = entry("y", None, 1);
    let mut entries = vec![&x, &y];
    apply_wallpaper_sorts(
        &mut entries,
        &[
            WallpaperSortRule { key: 99, direction: 0 },
            rule(WallpaperSortKey::Unspecified, SortDirection::Asc),
        ],
    );
    let names: Vec<_> = entries.iter().map(|e| e.name.as_str()).collect();
    assert_eq!(names, vec!["x", "y"]);
}

#[test]
fn unknown_direction_sorts_ascending() {
    let x = entry("x", None, 2);
    let y = entry("y", None, 1);
    let mut entries = vec![&x, &y];
    apply_wallpaper_sorts(&mut entries, &[WallpaperSortRule { key: WallpaperSortKey::LastModified.to_wire(), direction: 7 }]);
    let names: Vec<_> = entries.iter().map(|e| e.name.as_str()).collect();
    assert_eq!(names, vec!["y", "x"]);
}

#[test]
fn missing_size_sorts_as_zero() {
    let mut x = entry("x", None, 0);
    x.size = Some(-1);
    let y = entry("y", None, 0);
    let mut z = entry("z", None, 0);
    z.size = Some(1);
    let mut entries = vec![&z, &y, &x];
    apply_wallpaper_sorts(&mut entries, &[rule(WallpaperSortKey::Size, SortDirection::Asc)]);
    let names: Vec<_> = entries.iter().map(|e| e.name.as_str()).collect();
    assert_eq!(names, vec!["x", "y", "z"]);
}

#[test]
fn ordered_ids_filter_and_sort() {
    let mut a = entry("a", Some(3), 0);
    a.item_id = 11;
    a.library_root = "/lib/".to_string();
    a.resource = "/lib/one.png".to_string();
    let mut b = entry("b", Some(1), 0);
    b.item_id = -4;
    b.library_root = "/lib".to_string();
    b.resource = "/lib//two.png".to_string();
    let mut c = entry("c", Some(2), 0);
    c.item_id = 7;
    c.library_root = "/other".to_string();
    c.resource = "/lib/three.png".to_string();
    let all = vec![a, b, c];

    let sorts = [rule(WallpaperSortKey::LastModified, SortDirection::Asc)];
    assert_eq!(ordered_entry_ids(&all, None, &sorts), vec!["-4", "7", "11"]);
    assert_eq!(ordered_entry_ids(&all, None, &[]), vec!["11", "-4", "7"]);

    let keys = vec![
        ("/lib/".to_string(), "one.png".to_string()),
        ("/lib".to_string(), "two.png".to_string()),
        ("/other".to_string(), "three.png".to_string()),
    ];
    assert_eq!(ordered_entry_ids(&all, Some(&keys), &sorts), vec!["-4", "11"]);
    let none: Vec<(String, String)> = Vec::new();
    assert!(ordered_entry_ids(&all, Some(&none), &sorts).is_empty());
}

#[test]
fn ordered_ids_exclude_sibling_directory_sharing_root_prefix() {
    let mut a = entry("a", None, 0);
    a.item_id = 1;
    a.library_root = "/a/b".to_string();
    a.resource = "/a/bc/x".to_string();
    let keys = vec![("/a/b".to_string(), "c/x".to_string())];
    assert!(ordered_entry_ids(&vec![a], Some(&keys), &[]).is_empty());
}
