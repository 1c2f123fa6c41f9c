use supabar::apps::{
    application_folders, bundle_contents_path, default_icns_path, find_app_icns,
    find_contents_icon, find_ios_app_icon, get_apps, has_extension, is_app_bundle, join,
    file_extension, path_extension, path_file_name,
    select_icon, FolderEntry, IconLookup, WalkEntry,
};

#[test]
fn test_get_apps() {
    let folders = application_folders();
    assert_eq!(folders.len(), 2);
    let apps = get_apps(Vec::new());
    println!("{:?}", apps);
}

fn entry(path: &str, name: &str) -> FolderEntry {
    FolderEntry { path: path.to_string(), file_name: name.to_string(), icon_path: None }
}

#[test]
fn only_bundles_are_apps() {
    let mut e = vec![
        entry("/Applications/Safari.app", "Safari.app"),
        entry("/Applications/readme.txt", "readme.txt"),
        entry("/Applications/.app", ".app"),
        entry("/Applications/Mail.app", "Mail.app"),
    ];
    e[3].icon_path = Some("/Applications/Mail.app/Contents/Resources/AppIcon.icns".to_string());
    let apps = get_apps(e);
    assert_eq!(apps.len(), 2);
    assert_eq!(apps[0].name, "Safari.app");
    assert_eq!(apps[0].icon_path, None);
    assert_eq!(apps[0].app_path_exe, "/Applications/Safari.app");
    assert_eq!(apps[1].app_desktop_path, "/Applications/Mail.app");
    assert!(apps[1].icon_path.is_some());
}

#[test]
fn extensions() {
    assert!(has_extension("Safari.app", "app"));
    assert!(has_extension("a.b.app", "app"));
    assert!(!has_extension(".app", "app"));
    assert!(!has_extension("app", "app"));
    assert!(has_extension("x.", ""));
    assert!(!has_extension("..", ""));
    assert!(is_app_bundle("Foo.app"));
    assert!(!is_app_bundle("Foo.apps"));
}

#[test]
fn joins() {
    assert_eq!(join("/a", "b"), "/a/b");
    assert_eq!(join("/a/", "b"), "/a/b");
    assert_eq!(join("", "b"), "b");
    assert_eq!(bundle_contents_path("/A.app"), "/A.app/Contents");
    assert_eq!(default_icns_path("/A.app"), "/A.app/Contents/Resources/AppIcon.icns");
}

#[test]
fn icon_lookup_steps() {
    assert_eq!(find_app_icns("/A.app", false, true), IconLookup::WalkBundle("/A.app".to_string()));
    assert_eq!(
        find_app_icns("/A.app", true, true),
        IconLookup::Default("/A.app/Contents/Resources/AppIcon.icns".to_string())
    );
    assert_eq!(
        find_app_icns("/A.app", true, false),
        IconLookup::WalkContents("/A.app/Contents".to_string())
    );
}

fn walk(path: &str) -> WalkEntry {
    let name = path.rsplit('/').next().unwrap().to_string();
    WalkEntry { path: path.to_string(), file_name: name }
}

#[test]
fn icon_prefers_app_icon_name() {
    let entries = vec![
        walk("/A.app/Contents/x.icns"),
        walk("/A.app/Contents/Resources/MyAppIcon.icns"),
        walk("/A.app/Contents/Resources/big/AppIcon.icns"),
        walk("/A.app/Contents/Info.plist"),
    ];
    assert_eq!(find_contents_icon(&entries), Some("/A.app/Contents/Resources/MyAppIcon.icns".to_string()));
}

#[test]
fn icon_shortest_without_app_icon_name() {
    let entries = vec![
        walk("/A.app/Contents/Resources/long.icns"),
        walk("/A.app/Contents/bb.icns"),
        walk("/A.app/Contents/aa.icns"),
    ];
    assert_eq!(find_contents_icon(&entries), Some("/A.app/Contents/bb.icns".to_string()));
}

#[test]
fn icon_none_without_icons() {
    let entries = vec![walk("/A.app/Contents/Info.plist")];
    assert_eq!(find_contents_icon(&entries), None);
    assert_eq!(select_icon(&entries, "plist"), Some("/A.app/Contents/Info.plist".to_string()));
}

#[test]
fn ios_icon() {
    assert_eq!(find_ios_app_icon(None), None);
    let entries = vec![walk("/B.app/icon@2x.png"), walk("/B.app/APPICON60.png"), walk("/B.app/a.png")];
    assert_eq!(find_ios_app_icon(Some(entries)), Some("/B.app/APPICON60.png".to_string()));
}

#[test]
fn path_names_and_extensions() {
    assert_eq!(path_file_name("/a/b.pdf"), Some("b.pdf".to_string()));
    assert_eq!(path_file_name("/a/b.pdf/"), Some("b.pdf".to_string()));
    assert_eq!(path_file_name("a/b//./"), Some("b".to_string()));
    assert_eq!(path_file_name("b.txt"), Some("b.txt".to_string()));
    assert_eq!(path_file_name("/a/.."), None);
    assert_eq!(path_file_name("/"), None);
    assert_eq!(path_file_name(""), None);
    assert_eq!(path_file_name("./"), None);
    assert_eq!(path_extension("/docs/x.tar.gz"), Some("gz".to_string()));
    assert_eq!(path_extension("/docs/report.pdf/."), Some("pdf".to_string()));
    assert_eq!(path_extension("/docs/.pdf"), None);
    assert_eq!(path_extension("/dir.d/file"), None);
    assert_eq!(file_extension("a.b.c"), Some("c".to_string()));
    assert_eq!(file_extension(".."), None);
    for p in ["/a/b.pdf", "/a/b.pdf/", "a/b//./", "/a/..", "/", "", "./", "x.tar.gz", "/.hidden", "a/./b.c"] {
        let std_ext = std::path::Path::new(p).extension().map(|e| e.to_string_lossy().into_owned());
        assert_eq!(path_extension(p), std_ext, "path {:?}", p);
        let std_name = std::path::Path::new(p).file_name().map(|e| e.to_string_lossy().into_owned());
        assert_eq!(path_file_name(p), std_name, "path {:?}", p);
    }
}
