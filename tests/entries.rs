use apphub_entries::entry::{parse_desktop_entry, DesktopEntry, ParseError};
use apphub_entries::repository::{
    apps_from_entries, contains_text, delete_desktop_file_by_name, find_desktop_entries_by_exec_contains,
    find_desktop_entry, first_index_by_name, is_managed, managed_entries, EntryFile, RegistryError,
};

fn file(path: &str, content: &str) -> EntryFile {
    EntryFile { path: path.to_string(), content: content.to_string() }
}

fn managed(name: &str, exec: &str, icon: &str) -> String {
    format!("[Desktop Entry]\nType=Application\nName={}\nExec={}\nIcon={}\nX-AppHub=true\n", name, exec, icon)
}

#[test]
fn parse_last_line_wins() {
    let e = parse_desktop_entry("Name=A\nName=B\nExec=/x\nIcon=/y").unwrap();
    assert_eq!(e.name, "B");
    assert_eq!(e.exec_path, "/x");
    assert_eq!(e.icon_path, "/y");
}

#[test]
fn parse_full_entry() {
    let text = managed("Firefox", "/opt/apps/firefox.AppImage", "/opt/icons/firefox.png");
    let e = parse_desktop_entry(&text).unwrap();
    assert_eq!(
        e,
        DesktopEntry {
            exec_path: "/opt/apps/firefox.AppImage".to_string(),
            name: "Firefox".to_string(),
            icon_path: "/opt/icons/firefox.png".to_string(),
        }
    );
}

#[test]
fn parse_missing_icon_fails() {
    let r = parse_desktop_entry("Name=A\nExec=/x\n");
    assert_eq!(r, Err(ParseError { missing_exec: false, missing_name: false, missing_icon: true }));
}

#[test]
fn parse_empty_text_fails() {
    let r = parse_desktop_entry("");
    assert_eq!(r, Err(ParseError { missing_exec: true, missing_name: true, missing_icon: true }));
}

#[test]
fn parse_later_empty_value_overwrites() {
    let r = parse_desktop_entry("Exec=/a\nName=n\nIcon=i\nExec=");
    assert_eq!(r, Err(ParseError { missing_exec: true, missing_name: false, missing_icon: false }));
}

#[test]
fn parse_key_must_start_the_line() {
    let r = parse_desktop_entry(" Name=A\nExec=/x\nIcon=/y\nXName=B");
    assert_eq!(r, Err(ParseError { missing_exec: false, missing_name: true, missing_icon: false }));
}

#[test]
fn parse_keys_are_case_sensitive() {
    let r = parse_desktop_entry("name=A\nExec=/x\nIcon=/y");
    assert!(r.is_err());
}

#[test]
fn parse_value_keeps_carriage_return_and_equals() {
    let e = parse_desktop_entry("Name=A=B\r\nExec=/x --flag=1\nIcon=/y").unwrap();
    assert_eq!(e.name, "A=B\r");
    assert_eq!(e.exec_path, "/x --flag=1");
}

#[test]
fn parse_non_ascii_values() {
    let e = parse_desktop_entry("Name=Café ☕\nExec=/opt/é.AppImage\nIcon=/i/ü.png\n").unwrap();
    assert_eq!(e.name, "Café ☕");
    assert_eq!(e.exec_path, "/opt/é.AppImage");
    assert_eq!(e.icon_path, "/i/ü.png");
}

#[test]
fn contains_text_cases() {
    assert!(contains_text("abcdef", "cde"));
    assert!(contains_text("abc", ""));
    assert!(contains_text("abc", "abc"));
    assert!(!contains_text("abc", "abcd"));
    assert!(!contains_text("abc", "ac"));
    assert!(contains_text("xé€y", "é€"));
}

#[test]
fn marker_detection() {
    assert!(is_managed("Name=A\nX-AppHub=true\n"));
    assert!(!is_managed("Name=A\nX-AppHub=false\n"));
    assert!(!is_managed("Name=A\nx-apphub=true\n"));
}

#[test]
fn listing_excludes_unmarked_files() {
    let files = vec![
        file("/d/a.desktop", "Name=Other\nExec=/usr/bin/other\nIcon=/i/o.png\n"),
        file("/d/b.desktop", &managed("Mine", "/apps/mine.AppImage", "/i/m.png")),
    ];
    let entries = managed_entries(&files);
    assert_eq!(entries.len(), 1);
    assert_eq!(entries[0].name, "Mine");
}

#[test]
fn listing_skips_malformed_managed_file() {
    let files = vec![
        file("/d/bad.desktop", "Name=Broken\nX-AppHub=true\n"),
        file("/d/good.desktop", &managed("Good", "/apps/good.AppImage", "/i/g.png")),
    ];
    let entries = managed_entries(&files);
    assert_eq!(entries.len(), 1);
    assert_eq!(entries[0].name, "Good");
    assert_eq!(entries[0].exec_path, "/apps/good.AppImage");
    assert_eq!(entries[0].icon_path, "/i/g.png");
}

#[test]
fn listing_of_empty_directory_is_empty() {
    let files: Vec<EntryFile> = Vec::new();
    assert!(managed_entries(&files).is_empty());
    let unmanaged = vec![file("/d/a.desktop", "Name=A\nExec=/a\nIcon=/i\n")];
    assert!(managed_entries(&unmanaged).is_empty());
}

#[test]
fn listing_keeps_order() {
    let files = vec![
        file("/d/1.desktop", &managed("One", "/a/1", "/i/1")),
        file("/d/2.desktop", &managed("Two", "/a/2", "/i/2")),
    ];
    let entries = managed_entries(&files);
    assert_eq!(entries.len(), 2);
    assert_eq!(entries[0].name, "One");
    assert_eq!(entries[1].name, "Two");
}

#[test]
fn icon_failure_keeps_app() {
    let files = vec![
        file("/d/1.desktop", &managed("One", "/a/1", "/i/1")),
        file("/d/2.desktop", &managed("Two", "/a/2", "/i/2")),
    ];
    let entries = managed_entries(&files);
    let icons = vec![None, Some("aWNvbg==".to_string())];
    let apps = apps_from_entries(&entries, &icons);
    assert_eq!(apps.len(), 2);
    assert_eq!(apps[0].name, "One");
    assert_eq!(apps[0].app_path, "/a/1");
    assert_eq!(apps[0].icon_base64, None);
    assert_eq!(apps[1].name, "Two");
    assert_eq!(apps[1].icon_base64, Some("aWNvbg==".to_string()));
}

#[test]
fn find_by_name_is_exact() {
    let files = vec![file("/d/a.desktop", &managed("App2", "/a/2", "/i/2"))];
    assert_eq!(find_desktop_entry(&files, "App"), Err(RegistryError::NotFound("App".to_string())));
    assert_eq!(find_desktop_entry(&files, "app2"), Err(RegistryError::NotFound("app2".to_string())));
    let e = find_desktop_entry(&files, "App2").unwrap();
    assert_eq!(e.exec_path, "/a/2");
}

#[test]
fn find_by_name_ignores_marker_and_takes_first() {
    let files = vec![
        file("/d/x.desktop", "garbage"),
        file("/d/a.desktop", "Name=Tool\nExec=/usr/bin/tool\nIcon=/i/t\n"),
        file("/d/b.desktop", &managed("Tool", "/apps/tool.AppImage", "/i/t2")),
    ];
    let e = find_desktop_entry(&files, "Tool").unwrap();
    assert_eq!(e.exec_path, "/usr/bin/tool");
    assert_eq!(first_index_by_name(&files, "Tool"), Some(1));
    assert_eq!(first_index_by_name(&files, "None"), None);
}

#[test]
fn exec_substring_search() {
    let files = vec![
        file("/d/a.desktop", &managed("A", "/apps/foo.AppImage", "/i/a")),
        file("/d/b.desktop", "Name=B\nExec=/usr/bin/bar\nIcon=/i/b\n"),
        file("/d/c.desktop", "Name=C\nExec=/usr/bin/foobar\nIcon=/i/c\n"),
        file("/d/d.desktop", "Name=D\nExec=/usr/bin/foo\n"),
    ];
    let paths = find_desktop_entries_by_exec_contains(&files, "foo");
    assert_eq!(paths, vec!["/d/a.desktop".to_string(), "/d/c.desktop".to_string()]);
    assert!(find_desktop_entries_by_exec_contains(&files, "nothing").is_empty());
}

#[test]
fn delete_removes_first_then_not_found() {
    let mut files = vec![
        file("/d/a.desktop", &managed("A", "/a/a", "/i/a")),
        file("/d/b.desktop", &managed("B", "/a/b", "/i/b")),
    ];
    assert_eq!(delete_desktop_file_by_name(&mut files, "B"), Ok("/d/b.desktop".to_string()));
    assert_eq!(files.len(), 1);
    assert_eq!(files[0].path, "/d/a.desktop");
    assert_eq!(delete_desktop_file_by_name(&mut files, "B"), Err(RegistryError::NotFound("B".to_string())));
    assert_eq!(files.len(), 1);
}

#[test]
fn delete_with_duplicates_removes_one() {
    let mut files = vec![
        file("/d/1.desktop", &managed("Dup", "/a/1", "/i/1")),
        file("/d/2.desktop", &managed("Dup", "/a/2", "/i/2")),
    ];
    assert_eq!(delete_desktop_file_by_name(&mut files, "Dup"), Ok("/d/1.desktop".to_string()));
    assert_eq!(files.len(), 1);
    assert_eq!(files[0].path, "/d/2.desktop");
}

#[test]
fn delete_unknown_name_removes_nothing() {
    let mut files = vec![file("/d/a.desktop", &managed("A", "/a/a", "/i/a"))];
    assert_eq!(
        delete_desktop_file_by_name(&mut files, "Missing"),
        Err(RegistryError::NotFound("Missing".to_string()))
    );
    assert_eq!(files.len(), 1);
}
