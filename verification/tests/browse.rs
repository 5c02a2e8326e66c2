use sglaz::browse::{
    browse_path, create_item, drive_roots, is_drive_chooser, list_dir, shown_path, sort,
    sort_entries, windows_drives, CreateAction, CreateStep, Keyed, Listing,
};
use sglaz::wire::{BrowseEntryOut, BrowseResultOut};

fn entry(name: &str, dir: bool) -> BrowseEntryOut {
    BrowseEntryOut { name: name.to_string(), dir, path: format!("/p/{}", name) }
}

fn names(entries: &[BrowseEntryOut]) -> Vec<&str> {
    entries.iter().map(|e| e.name.as_str()).collect()
}

#[test]
fn directories_come_first_then_names_by_lower_case() {
    let sorted = sort_entries(vec![
        entry("b.txt", false),
        entry("Zeta", true),
        entry("A.txt", false),
        entry("alpha", true),
        entry("\u{c9}a", false),
        entry("\u{e9}b", false),
    ]);
    assert_eq!(
        names(&sorted),
        vec!["alpha", "Zeta", "A.txt", "b.txt", "\u{c9}a", "\u{e9}b"]
    );
}

#[test]
fn equal_names_keep_their_order() {
    let sorted = sort_entries(vec![
        entry("readme", false),
        entry("README", false),
        entry("Readme", false),
        entry("README", true),
    ]);
    assert_eq!(names(&sorted), vec!["README", "readme", "README", "Readme"]);
    assert!(sorted[0].dir);
}

#[test]
fn sorting_agrees_with_a_stable_sort() {
    let mut state: u32 = 7;
    for len in 0..40usize {
        let mut entries = Vec::new();
        for i in 0..len {
            state = state.wrapping_mul(1664525).wrapping_add(1013904223);
            let letters = ["a", "A", "b", "B", "\u{130}", "\u{df}", "SS", "\u{1f600}", "\u{ffff}"];
            let name = letters[(state >> 16) as usize % letters.len()];
            let mut e = entry(name, state & 0x100 != 0);
            e.path = format!("/p/{}", i);
            entries.push(e);
        }
        let mut want = entries.clone();
        want.sort_by(|a, b| {
            b.dir.cmp(&a.dir).then(a.name.to_lowercase().cmp(&b.name.to_lowercase()))
        });
        assert_eq!(sort_entries(entries), want);
    }
}

#[test]
fn sorting_goes_by_the_given_keys() {
    let keyed = |lower: &str, name: &str| Keyed {
        lower: lower.chars().collect(),
        entry: entry(name, false),
    };
    let sorted = sort(vec![keyed("z", "first"), keyed("a", "second"), keyed("", "third")]);
    let order: Vec<String> = sorted.iter().map(|k| k.entry.name.clone()).collect();
    assert_eq!(order, vec!["third", "second", "first"]);
}

#[test]
fn drives_are_listed_by_letter() {
    let roots = drive_roots();
    assert_eq!(roots.len(), 26);
    assert_eq!(roots[0], "A:\\");
    assert_eq!(roots[25], "Z:\\");
    let mut present = vec![false; 26];
    present[2] = true;
    present[3] = true;
    assert_eq!(
        windows_drives(&present),
        vec![
            BrowseEntryOut { name: "C:".to_string(), dir: true, path: "C:\\".to_string() },
            BrowseEntryOut { name: "D:".to_string(), dir: true, path: "D:\\".to_string() },
        ]
    );
}

#[test]
fn an_empty_request_lists_the_root() {
    assert_eq!(browse_path(""), "/");
    assert_eq!(browse_path("/srv"), "/srv");
    assert!(is_drive_chooser("/", true));
    assert!(!is_drive_chooser("/", false));
    assert!(!is_drive_chooser("C:\\", true));
}

#[test]
fn a_listing_names_its_path_and_parent() {
    let out = list_dir(
        "/srv/app",
        "r1",
        false,
        None,
        None,
        Listing::Entries(vec![entry("f", false), entry("d", true)]),
    );
    assert_eq!(
        out,
        BrowseResultOut {
            request_id: "r1".to_string(),
            path: "/srv/app".to_string(),
            parent: "/srv".to_string(),
            entries: vec![entry("d", true), entry("f", false)],
            error: String::new(),
        }
    );
    let root = list_dir("", "r2", false, None, None, Listing::Entries(vec![]));
    assert_eq!(root.path, "/");
    assert_eq!(root.parent, "");
}

#[test]
fn a_listing_names_the_canonical_path() {
    let out = list_dir(
        "/a/../srv/b",
        "r",
        false,
        Some("/srv/b".to_string()),
        None,
        Listing::Entries(vec![]),
    );
    assert_eq!(out.path, "/srv/b");
    assert_eq!(out.parent, "/srv");
}

#[test]
fn a_failed_listing_says_why() {
    let out = list_dir("/x", "r", false, None, None, Listing::Failed("denied".to_string()));
    assert_eq!(out.error, "denied");
    assert_eq!(out.entries, vec![]);
    assert_eq!(out.parent, "/");
}

#[test]
fn windows_goes_up_to_the_drive_chooser() {
    let up = |parent: Option<&str>| {
        list_dir(
            "C:\\x",
            "r",
            true,
            None,
            parent.map(|p| p.to_string()),
            Listing::Entries(vec![]),
        )
        .parent
    };
    assert_eq!(up(Some("C:\\")), "C:\\");
    assert_eq!(up(Some("")), "/");
    assert_eq!(up(None), "/");
    let mut present = vec![false; 26];
    present[2] = true;
    let chooser = list_dir("", "r", true, None, None, Listing::Drives(present));
    assert_eq!(chooser.path, "/");
    assert_eq!(chooser.parent, "");
    assert_eq!(names(&chooser.entries), vec!["C:"]);
}

#[test]
fn the_picker_creates_folders_and_files() {
    assert_eq!(
        create_item("/srv", "mkdir", "new"),
        Ok(CreateAction::MakeDir { dir: "/srv".to_string(), name: "new".to_string() })
    );
    assert_eq!(
        create_item("/srv", "touch", ".env"),
        Ok(CreateAction::Touch { dir: "/srv".to_string(), name: ".env".to_string() })
    );
    assert_eq!(
        create_item("/srv", "rm", "x"),
        Err("unknown action: rm".to_string())
    );
}

#[test]
fn what_exists_is_not_touched_again() {
    let touch = create_item("/srv", "touch", ".env").unwrap();
    assert_eq!(touch.step(false), CreateStep::OpenFile);
    assert_eq!(touch.step(true), CreateStep::Nothing);
    let mkdir = create_item("/srv", "mkdir", "d").unwrap();
    assert_eq!(mkdir.step(false), CreateStep::MakeDirs);
    assert_eq!(mkdir.step(true), CreateStep::MakeDirs);
}

#[test]
fn drive_paths_are_shown_without_their_mark() {
    assert_eq!(shown_path("\\\\?\\C:\\Users", true), "C:\\Users");
    assert_eq!(shown_path("\\\\?\\C:\\", true), "C:\\");
    assert_eq!(shown_path("\\\\?\\UNC\\host\\share", true), "\\\\?\\UNC\\host\\share");
    assert_eq!(shown_path("\\\\?\\C:\\Users", false), "\\\\?\\C:\\Users");
    assert_eq!(shown_path("/srv", false), "/srv");
    assert_eq!(shown_path("", true), "");
}
