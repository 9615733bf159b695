use wolong_core::catalog::{AppRecord, Catalog};
use wolong_core::defaults::get_default_scan_paths;
use wolong_core::registry::{
    classify_uninstall_entry, is_uninstaller_target, parse_registry_path, Hive, RawUninstallEntry,
    RegistryPathError, SkipReason,
};
use wolong_core::scan::{ingest_registry, ingest_start_menu, scan_app_records, RegistrySource, ShortcutFile, StartMenuSource};
use wolong_core::shortcut::{build_shortcut_record, decode_shortcut, RawShortcut, ShortcutInfo};

const MACHINE: &str = "HKEY_LOCAL_MACHINE\\SOFTWARE\\Microsoft\\Windows\\CurrentVersion\\Uninstall";

fn wide(s: &str) -> Vec<u16> {
    let mut v: Vec<u16> = s.encode_utf16().collect();
    v.push(0);
    v
}

fn raw(target: &str, args: &str, wd: &str, icon: &str) -> RawShortcut {
    RawShortcut {
        target: wide(target),
        arguments: wide(args),
        working_directory: wide(wd),
        icon_location: wide(icon),
    }
}

fn file(path: &str, target: &str, modified: Option<u64>) -> ShortcutFile {
    ShortcutFile {
        path: path.to_string(),
        shortcut: Some(raw(target, "", "", "")),
        modified,
    }
}

fn entry(name: &str, icon: &str) -> RawUninstallEntry {
    RawUninstallEntry {
        display_name: Some(name.to_string()),
        uninstall_string: None,
        system_component: None,
        no_display: None,
        no_display_icon: None,
        display_icon: Some(icon.to_string()),
        install_location: None,
    }
}

fn no_env() -> Vec<(String, String)> {
    Vec::new()
}

fn record(id: &str, name: &str) -> AppRecord {
    AppRecord {
        id: id.to_string(),
        name: name.to_string(),
        launch_path: format!("C:/{name}.exe"),
        working_directory: None,
        icon_path: None,
        source: "s".to_string(),
        last_modified: 0,
    }
}

#[test]
fn registry_entry_scenario() {
    let e = entry("Foo", "C:\\Foo\\foo.exe,0");
    let r = classify_uninstall_entry(&e, Hive::LocalMachine, MACHINE, &no_env(), 77).unwrap();
    assert_eq!(r.name, "Foo");
    assert_eq!(r.launch_path, "C:/Foo/foo.exe");
    assert_eq!(r.working_directory.as_deref(), Some("C:/Foo"));
    assert_eq!(r.icon_path.as_deref(), Some("C:/Foo/foo.exe"));
    assert_eq!(r.source, MACHINE);
    assert_eq!(r.last_modified, 77);
    let out = scan_app_records(
        &vec![],
        &vec![RegistrySource { path: MACHINE.to_string(), entries: Some(vec![e]) }],
        &no_env(),
        77,
    );
    assert_eq!(out.len(), 1);
    assert_eq!(out[0].launch_path, "C:/Foo/foo.exe");
    assert_eq!(out[0].working_directory.as_deref(), Some("C:/Foo"));
}

#[test]
fn registry_id_keys_hive_path_and_trimmed_name() {
    let a = classify_uninstall_entry(&entry("Foo", "C:\\Foo\\foo.exe"), Hive::LocalMachine, MACHINE, &no_env(), 1).unwrap();
    let b = classify_uninstall_entry(&entry("  Foo ", "C:\\Foo\\foo.exe"), Hive::LocalMachine, MACHINE, &no_env(), 2).unwrap();
    let c = classify_uninstall_entry(&entry("Foo", "C:\\Foo\\foo.exe"), Hive::CurrentUser, MACHINE, &no_env(), 1).unwrap();
    assert_eq!(a.id, b.id);
    assert_eq!(b.name, "Foo");
    assert_ne!(a.id, c.id);
}

#[test]
fn quoted_icon_with_index() {
    let e = entry("Foo", "\"C:\\Program Files\\Foo\\foo.exe\",0");
    let r = classify_uninstall_entry(&e, Hive::LocalMachine, MACHINE, &no_env(), 0).unwrap();
    assert_eq!(r.launch_path, "C:/Program Files/Foo/foo.exe");
    assert_eq!(r.working_directory.as_deref(), Some("C:/Program Files/Foo"));
}

#[test]
fn hidden_entries_skipped() {
    let mut e = entry("Foo", "C:\\Foo\\foo.exe");
    e.system_component = Some(1);
    assert_eq!(classify_uninstall_entry(&e, Hive::LocalMachine, MACHINE, &no_env(), 0).err(), Some(SkipReason::Hidden));
    let mut e = entry("Foo", "C:\\Foo\\foo.exe");
    e.no_display = Some(1);
    assert_eq!(classify_uninstall_entry(&e, Hive::LocalMachine, MACHINE, &no_env(), 0).err(), Some(SkipReason::Hidden));
    let mut e = entry("Foo", "C:\\Foo\\foo.exe");
    e.no_display_icon = Some(1);
    assert_eq!(classify_uninstall_entry(&e, Hive::LocalMachine, MACHINE, &no_env(), 0).err(), Some(SkipReason::Hidden));
    let mut e = entry("Foo", "C:\\Foo\\foo.exe");
    e.system_component = Some(0);
    assert!(classify_uninstall_entry(&e, Hive::LocalMachine, MACHINE, &no_env(), 0).is_ok());
}

#[test]
fn uninstall_commands_skipped() {
    for cmd in ["MsiExec.exe /I{123}", "C:\\Foo\\Uninstall.exe", "foo.exe /X", "foo --remove", "foo --UNINSTALL"] {
        let mut e = entry("Foo", "C:\\Foo\\foo.exe");
        e.uninstall_string = Some(cmd.to_string());
        assert_eq!(
            classify_uninstall_entry(&e, Hive::LocalMachine, MACHINE, &no_env(), 0).err(),
            Some(SkipReason::UninstallCommand)
        );
    }
    let mut e = entry("Foo", "C:\\Foo\\foo.exe");
    e.uninstall_string = Some("C:\\Foo\\cleanup.exe".to_string());
    assert!(classify_uninstall_entry(&e, Hive::LocalMachine, MACHINE, &no_env(), 0).is_ok());
}

#[test]
fn missing_or_blank_name_skipped() {
    let mut e = entry("   ", "C:\\Foo\\foo.exe");
    assert_eq!(classify_uninstall_entry(&e, Hive::LocalMachine, MACHINE, &no_env(), 0).err(), Some(SkipReason::MissingName));
    e.display_name = None;
    assert_eq!(classify_uninstall_entry(&e, Hive::LocalMachine, MACHINE, &no_env(), 0).err(), Some(SkipReason::MissingName));
}

#[test]
fn text_file_never_launch_path() {
    let e = entry("Foo", "C:\\Foo\\readme.txt");
    assert_eq!(classify_uninstall_entry(&e, Hive::LocalMachine, MACHINE, &no_env(), 0).err(), Some(SkipReason::NoExecutable));
    let mut e = entry("Foo", "C:\\Foo\\readme.TXT");
    e.install_location = Some("C:\\Foo\\run.CMD".to_string());
    let r = classify_uninstall_entry(&e, Hive::LocalMachine, MACHINE, &no_env(), 0).unwrap();
    assert_eq!(r.launch_path, "C:/Foo/run.CMD");
    assert_eq!(r.icon_path.as_deref(), Some("C:/Foo/readme.TXT"));
    for ext in ["exe", "LNK", "Bat", "cmd"] {
        let e = entry("Foo", &format!("C:\\Foo\\foo.{ext}"));
        assert!(classify_uninstall_entry(&e, Hive::LocalMachine, MACHINE, &no_env(), 0).is_ok());
    }
}

#[test]
fn uninstaller_launch_path_skipped() {
    let e = entry("Foo", "C:\\Foo\\unins000.exe");
    assert_eq!(classify_uninstall_entry(&e, Hive::LocalMachine, MACHINE, &no_env(), 0).err(), Some(SkipReason::UninstallerTarget));
    assert!(is_uninstaller_target("C:/Windows/System32/msiexec.exe", None));
    assert!(is_uninstaller_target("C:/Foo/RemoveTool.exe", None));
    assert!(is_uninstaller_target("C:\\Foo\\uninst\\x.exe", None));
    assert!(is_uninstaller_target("C:/Foo/foo.exe", Some("/X {guid}")));
    assert!(!is_uninstaller_target("C:/Foo/foo.exe", Some("--fullscreen")));
    assert!(!is_uninstaller_target("C:/Foo/foo.exe", None));
}

#[test]
fn registry_env_expansion() {
    let env = vec![("PROGRAMFILES".to_string(), "C:\\Program Files".to_string())];
    let e = entry("Foo", "%PROGRAMFILES%\\Foo\\foo.exe");
    let r = classify_uninstall_entry(&e, Hive::CurrentUser, MACHINE, &env, 0).unwrap();
    assert_eq!(r.launch_path, "C:/Program Files/Foo/foo.exe");
}

#[test]
fn registry_path_syntax() {
    assert_eq!(
        parse_registry_path("HKEY_CURRENT_USER\\Software\\X"),
        Ok((Hive::CurrentUser, "Software\\X".to_string()))
    );
    assert_eq!(parse_registry_path(MACHINE).map(|(h, _)| h), Ok(Hive::LocalMachine));
    assert_eq!(parse_registry_path("HKEY_LOCAL_MACHINE"), Err(RegistryPathError::MissingSubkey));
    assert_eq!(parse_registry_path("HKEY_USERS\\X"), Err(RegistryPathError::UnsupportedHive));
}

#[test]
fn malformed_registry_paths_contribute_nothing() {
    let e = entry("Foo", "C:\\Foo\\foo.exe");
    let out = scan_app_records(
        &vec![],
        &vec![
            RegistrySource { path: "HKEY_USERS\\X".to_string(), entries: Some(vec![entry("Bar", "C:\\Bar\\bar.exe")]) },
            RegistrySource { path: "nothing".to_string(), entries: Some(vec![entry("Baz", "C:\\Baz\\baz.exe")]) },
            RegistrySource { path: MACHINE.to_string(), entries: None },
            RegistrySource { path: MACHINE.to_string(), entries: Some(vec![e]) },
        ],
        &no_env(),
        5,
    );
    assert_eq!(out.len(), 1);
    assert_eq!(out[0].name, "Foo");
}

#[test]
fn two_roots_same_target() {
    let roots = vec![
        StartMenuSource {
            root: "C:\\ProgramData\\Microsoft\\Windows\\Start Menu\\Programs".to_string(),
            exists: true,
            files: vec![file("C:\\ProgramData\\Microsoft\\Windows\\Start Menu\\Programs\\App.lnk", "C:\\App\\app.exe", Some(10))],
        },
        StartMenuSource {
            root: "C:\\Users\\u\\AppData\\Roaming\\Microsoft\\Windows\\Start Menu\\Programs".to_string(),
            exists: true,
            files: vec![file("C:\\Users\\u\\AppData\\Roaming\\Microsoft\\Windows\\Start Menu\\Programs\\App.lnk", "C:\\App\\app.exe", Some(20))],
        },
    ];
    let out = scan_app_records(&roots, &vec![], &no_env(), 99);
    assert_eq!(out.len(), 2);
    assert_eq!(out[0].launch_path, "C:/App/app.exe");
    assert_eq!(out[1].launch_path, "C:/App/app.exe");
    assert_ne!(out[0].id, out[1].id);
    assert_ne!(out[0].source, out[1].source);
    assert_eq!(out[0].source, "C:/ProgramData/Microsoft/Windows/Start Menu/Programs");
    assert_eq!(out[1].source, "C:/Users/u/AppData/Roaming/Microsoft/Windows/Start Menu/Programs");
    assert_eq!(out[0].name, "App");
    assert_eq!(out[0].working_directory.as_deref(), Some("C:/App"));
    assert_eq!(out[0].icon_path.as_deref(), Some("C:/App/app.exe"));
    assert_eq!(out[0].last_modified, 10);
}

#[test]
fn missing_root_yields_nothing() {
    let roots = vec![StartMenuSource {
        root: "C:\\Nowhere".to_string(),
        exists: false,
        files: vec![file("C:\\Nowhere\\App.lnk", "C:\\App\\app.exe", None)],
    }];
    let out = scan_app_records(&roots, &vec![], &no_env(), 1);
    assert!(out.is_empty());
}

#[test]
fn unusable_files_skipped() {
    let roots = vec![StartMenuSource {
        root: "C:\\S".to_string(),
        exists: true,
        files: vec![
            file("C:\\S\\readme.txt", "C:\\App\\app.exe", None),
            ShortcutFile { path: "C:\\S\\Broken.lnk".to_string(), shortcut: None, modified: None },
            ShortcutFile { path: "C:\\S\\Empty.lnk".to_string(), shortcut: Some(raw("", "", "", "")), modified: None },
            file("C:\\S\\Good.LNK", "C:\\App\\app.exe", None),
        ],
    }];
    let out = scan_app_records(&roots, &vec![], &no_env(), 42);
    assert_eq!(out.len(), 1);
    assert_eq!(out[0].name, "Good");
    assert_eq!(out[0].last_modified, 42);
}

#[test]
fn later_candidate_wins_on_collision() {
    let root = "C:\\S".to_string();
    let roots = vec![
        StartMenuSource { root: root.clone(), exists: true, files: vec![file("C:\\S\\App.lnk", "C:\\Old\\old.exe", Some(1)), file("C:\\S\\Zed.lnk", "C:\\Z\\z.exe", Some(1))] },
        StartMenuSource { root: root.clone(), exists: true, files: vec![file("C:\\S\\App.lnk", "C:\\New\\new.exe", Some(2))] },
    ];
    let out = scan_app_records(&roots, &vec![], &no_env(), 0);
    assert_eq!(out.len(), 2);
    assert_eq!(out[0].name, "App");
    assert_eq!(out[0].launch_path, "C:/New/new.exe");
    assert_eq!(out[0].last_modified, 2);

    let mut cat = Catalog::new();
    cat.insert(record("1", "first"));
    cat.insert(record("2", "second"));
    cat.insert(record("1", "third"));
    let v = cat.into_sorted();
    assert_eq!(v.len(), 2);
    assert_eq!(v[0].name, "second");
    assert_eq!(v[1].name, "third");
}

#[test]
fn sorted_case_insensitively_and_stably() {
    let mut cat = Catalog::new();
    cat.insert(record("1", "beta"));
    cat.insert(record("2", "Alpha"));
    cat.insert(record("3", "BETA"));
    cat.insert(record("4", "alpha"));
    cat.insert(record("5", "Beta"));
    let v = cat.into_sorted();
    let ids: Vec<&str> = v.iter().map(|r| r.id.as_str()).collect();
    assert_eq!(ids, vec!["2", "4", "1", "3", "5"]);
}

#[test]
fn rescan_is_idempotent() {
    let roots = vec![StartMenuSource {
        root: "C:\\S".to_string(),
        exists: true,
        files: vec![file("C:\\S\\b.lnk", "C:\\B\\b.exe", Some(3)), file("C:\\S\\A.lnk", "C:\\A\\a.exe", Some(4))],
    }];
    let reg = vec![RegistrySource { path: MACHINE.to_string(), entries: Some(vec![entry("Foo", "C:\\Foo\\foo.exe")]) }];
    let a = scan_app_records(&roots, &reg, &no_env(), 100);
    let b = scan_app_records(&roots, &reg, &no_env(), 200);
    assert_eq!(a.len(), 3);
    assert_eq!(a.len(), b.len());
    for (x, y) in a.iter().zip(b.iter()) {
        assert_eq!(x.id, y.id);
        assert_eq!(x.name, y.name);
        assert_eq!(x.launch_path, y.launch_path);
        assert_eq!(x.working_directory, y.working_directory);
        assert_eq!(x.icon_path, y.icon_path);
        assert_eq!(x.source, y.source);
    }
    assert_eq!(a.iter().map(|r| r.name.as_str()).collect::<Vec<_>>(), vec!["A", "b", "Foo"]);
}

#[test]
fn decode_resolves_relative_parts() {
    let env = vec![("ROOT".to_string(), "D:\\Apps".to_string())];
    let info = decode_shortcut(
        "C:\\S\\Tool.lnk",
        &raw("C:\\T\\tool.exe", " --fast ", "work", "\"%ROOT%\\tool.ico\",2"),
        &env,
    );
    assert_eq!(info.target.as_deref(), Some("C:/T/tool.exe"));
    assert_eq!(info.arguments.as_deref(), Some("--fast"));
    assert_eq!(info.working_directory.as_deref(), Some("C:/S/work"));
    assert_eq!(info.icon_path.as_deref(), Some("D:/Apps/tool.ico"));
    let info = decode_shortcut("C:\\S\\Tool.lnk", &raw("x.exe", "", "", "icons\\a.ico"), &env);
    assert_eq!(info.arguments, None);
    assert_eq!(info.working_directory, None);
    assert_eq!(info.icon_path.as_deref(), Some("C:/S/icons/a.ico"));
}

#[test]
fn shortcut_record_defaults() {
    let info = ShortcutInfo {
        target: Some("C:/T/tool.exe".to_string()),
        arguments: None,
        working_directory: Some(String::new()),
        icon_path: None,
    };
    let r = build_shortcut_record("C:\\S\\ .lnk", &info, 5, "C:/S").unwrap();
    assert_eq!(r.name, "Unknown Shortcut");
    assert_eq!(r.working_directory.as_deref(), Some("C:/T"));
    assert_eq!(r.icon_path.as_deref(), Some("C:/T/tool.exe"));
    let none = ShortcutInfo { target: None, arguments: None, working_directory: None, icon_path: None };
    assert!(build_shortcut_record("C:\\S\\x.lnk", &none, 5, "C:/S").is_none());
}

#[test]
fn default_paths_from_environment() {
    let env = vec![
        ("APPDATA".to_string(), "C:\\Users\\u\\AppData\\Roaming".to_string()),
        ("PROGRAMDATA".to_string(), "C:\\ProgramData".to_string()),
    ];
    let p = get_default_scan_paths(&env);
    assert_eq!(
        p.start_menu_paths,
        vec![
            "C:\\ProgramData\\Microsoft\\Windows\\Start Menu\\Programs".to_string(),
            "C:\\Users\\u\\AppData\\Roaming\\Microsoft\\Windows\\Start Menu\\Programs".to_string(),
        ]
    );
    assert_eq!(p.registry_paths.len(), 3);
    assert_eq!(p.registry_paths[0], MACHINE);
    assert!(get_default_scan_paths(&vec![]).start_menu_paths.is_empty());
}

#[test]
fn blank_target_is_no_target() {
    let roots = vec![StartMenuSource {
        root: "C:\\S".to_string(),
        exists: true,
        files: vec![ShortcutFile { path: "C:\\S\\Blank.lnk".to_string(), shortcut: Some(raw("   ", "", "", "")), modified: None }],
    }];
    assert!(scan_app_records(&roots, &vec![], &no_env(), 1).is_empty());
    let info = decode_shortcut("C:\\S\\Blank.lnk", &raw("  ", "", "", ""), &no_env());
    assert_eq!(info.target, None);
    let blank = ShortcutInfo { target: Some(String::new()), arguments: None, working_directory: None, icon_path: None };
    assert!(build_shortcut_record("C:\\S\\x.lnk", &blank, 5, "C:/S").is_none());
}

#[test]
fn uninstaller_needles_as_listed() {
    assert!(is_uninstaller_target("C:\\Foo\\uninst\\x.exe", None));
    assert!(!is_uninstaller_target("/uninst/a", None));
    let e = entry("Tools", "C:\\Tools\\uninst64\\app.exe");
    let r = classify_uninstall_entry(&e, Hive::LocalMachine, MACHINE, &no_env(), 0).unwrap();
    assert_eq!(r.launch_path, "C:/Tools/uninst64/app.exe");
}

#[test]
fn ingesters_fill_a_catalog() {
    let mut cat = Catalog::new();
    let missing = StartMenuSource { root: "C:\\Nowhere".to_string(), exists: false, files: vec![file("C:\\Nowhere\\A.lnk", "C:\\A\\a.exe", None)] };
    ingest_start_menu(&mut cat, &missing, &no_env(), 1);
    assert!(cat.into_sorted().is_empty());
    let mut cat = Catalog::new();
    let present = StartMenuSource { root: "C:\\S".to_string(), exists: true, files: vec![file("C:\\S\\A.lnk", "C:\\A\\a.exe", None)] };
    ingest_start_menu(&mut cat, &present, &no_env(), 1);
    ingest_registry(&mut cat, &RegistrySource { path: MACHINE.to_string(), entries: Some(vec![entry("Foo", "C:\\Foo\\foo.exe")]) }, &no_env(), 2);
    let v = cat.into_sorted();
    assert_eq!(v.len(), 2);
    assert_eq!(v[0].name, "A");
    assert_eq!(v[1].name, "Foo");
}

#[test]
fn rescan_keeps_file_times() {
    let roots = vec![StartMenuSource {
        root: "C:\\S".to_string(),
        exists: true,
        files: vec![file("C:\\S\\A.lnk", "C:\\A\\a.exe", Some(7)), file("C:\\S\\B.lnk", "C:\\B\\b.exe", None)],
    }];
    let a = scan_app_records(&roots, &vec![], &no_env(), 100);
    let b = scan_app_records(&roots, &vec![], &no_env(), 200);
    assert_eq!((a[0].last_modified, b[0].last_modified), (7, 7));
    assert_eq!((a[1].last_modified, b[1].last_modified), (100, 200));
}

#[test]
fn relative_parts_follow_windows_joining() {
    let env = vec![("OTHER".to_string(), "D:sub".to_string())];
    let info = decode_shortcut("C:\\a\\b.lnk", &raw("x.exe", "", "\\foo", "%OTHER%\\i.ico"), &env);
    assert_eq!(info.working_directory.as_deref(), Some("C:/foo"));
    assert_eq!(info.icon_path.as_deref(), Some("D:sub/i.ico"));
    let info = decode_shortcut("\\\\srv\\share\\dir\\b.lnk", &raw("x.exe", "", "\\top", "rel.ico"), &env);
    assert_eq!(info.working_directory.as_deref(), Some("//srv/share/top"));
    assert_eq!(info.icon_path.as_deref(), Some("//srv/share/dir/rel.ico"));
}
