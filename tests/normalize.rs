use wolong_core::envvars::expand_env_vars;
use wolong_core::identity::hash_id;
use wolong_core::paths::{is_executable_candidate, is_shortcut_file, normalize_path, parent_of};
use wolong_core::text::string_from_wide;

fn env_of(pairs: &[(&str, &str)]) -> Vec<(String, String)> {
    pairs.iter().map(|(k, v)| (k.to_string(), v.to_string())).collect()
}

fn wide(s: &str) -> Vec<u16> {
    let mut v: Vec<u16> = s.encode_utf16().collect();
    v.push(0);
    v
}

#[test]
fn normalize_replaces_every_backslash() {
    assert_eq!(normalize_path("C:\\Foo\\bar.exe"), "C:/Foo/bar.exe");
    assert_eq!(normalize_path("a/b\\c"), "a/b/c");
    assert_eq!(normalize_path(""), "");
}

#[test]
fn expand_set_variable() {
    let env = env_of(&[("PROGRAMDATA", "C:/ProgramData")]);
    assert_eq!(expand_env_vars("%PROGRAMDATA%\\Foo", &env), "C:/ProgramData\\Foo");
    assert_eq!(
        normalize_path(&expand_env_vars("%PROGRAMDATA%\\Foo", &env)),
        "C:/ProgramData/Foo"
    );
}

#[test]
fn expand_missing_variable_kept() {
    let env = env_of(&[("PROGRAMDATA", "C:/ProgramData")]);
    assert_eq!(expand_env_vars("%MISSING%\\Foo", &env), "%MISSING%\\Foo");
}

#[test]
fn expand_double_percent_and_unclosed() {
    let env = env_of(&[("A", "x")]);
    assert_eq!(expand_env_vars("100%%", &env), "100%");
    assert_eq!(expand_env_vars("a%%b", &env), "a%b");
    assert_eq!(expand_env_vars("%A%%A%", &env), "xx");
    assert_eq!(expand_env_vars("pre%A", &env), "pre%A");
    assert_eq!(expand_env_vars("pre%", &env), "pre%");
    assert_eq!(expand_env_vars("", &env), "");
}

#[test]
fn expand_first_variable_wins() {
    let env = env_of(&[("A", "1"), ("A", "2")]);
    assert_eq!(expand_env_vars("%A%", &env), "1");
}

#[test]
fn wide_text_stops_at_nul_and_trims() {
    assert_eq!(string_from_wide(&wide("  C:\\x.exe ")), Some("C:\\x.exe".to_string()));
    let mut buf = wide("abc");
    buf.extend_from_slice(&[b'z' as u16, 0]);
    assert_eq!(string_from_wide(&buf), Some("abc".to_string()));
    assert_eq!(string_from_wide(&[0, 65]), None);
    assert_eq!(string_from_wide(&[]), None);
    assert_eq!(string_from_wide(&[0xD800, 0]), None);
    assert_eq!(string_from_wide(&[0x20, 0]), Some(String::new()));
    assert_eq!(string_from_wide(&wide("h\u{e9}llo")), Some("h\u{e9}llo".to_string()));
}

#[test]
fn executable_extensions() {
    assert!(is_executable_candidate("C:/a/b.exe"));
    assert!(is_executable_candidate("C:/a/b.EXE"));
    assert!(is_executable_candidate("C:/a/b.Lnk"));
    assert!(is_executable_candidate("C:/a/b.bat"));
    assert!(is_executable_candidate("C:/a/b.CmD"));
    assert!(!is_executable_candidate("C:/a/b.txt"));
    assert!(!is_executable_candidate("C:/a/b.TXT"));
    assert!(!is_executable_candidate("C:/a.exe/b"));
    assert!(!is_executable_candidate("C:/a/.exe"));
    assert!(!is_executable_candidate("C:/a/exe"));
    assert!(is_executable_candidate("C:\\a\\b.exe"));
}

#[test]
fn shortcut_extension() {
    assert!(is_shortcut_file("C:/Start/App.lnk"));
    assert!(is_shortcut_file("C:/Start/App.LNK"));
    assert!(!is_shortcut_file("C:/Start/App.url"));
    assert!(!is_shortcut_file("C:/Start/lnk"));
}

#[test]
fn hash_of_nothing_is_digest_of_empty_input() {
    assert_eq!(hash_id(&[]), "47DEQpj8HBSa-_TImW-5JCeuQeRkm5NMpJWZG3hSuFU");
}

#[test]
fn hash_is_deterministic_and_sensitive() {
    let a = hash_id(&["start_menu", "C:/x.lnk"]);
    let b = hash_id(&["start_menu", "C:/x.lnk"]);
    let c = hash_id(&["start_menu", "C:/y.lnk"]);
    let d = hash_id(&["registry", "C:/x.lnk"]);
    assert_eq!(a, b);
    assert_ne!(a, c);
    assert_ne!(a, d);
    assert_eq!(a.len(), 43);
    assert!(a.chars().all(|ch| ch.is_ascii_alphanumeric() || ch == '-' || ch == '_'));
    // parts are joined with nothing between them
    assert_eq!(hash_id(&["ab", "c"]), hash_id(&["a", "bc"]));
}

#[test]
fn parent_ignores_trailing_separators() {
    let p = |s: &str| parent_of(&s.chars().collect()).map(|v| v.into_iter().collect::<String>());
    assert_eq!(p("C:/Foo/foo.exe"), Some("C:/Foo".to_string()));
    assert_eq!(p("C:/Foo/"), Some("C:/".to_string()));
    assert_eq!(p("C:/foo.exe"), Some("C:/".to_string()));
    assert_eq!(p("foo.exe"), Some(String::new()));
    assert_eq!(p("C:/"), None);
    assert_eq!(p("/"), None);
    assert_eq!(p(""), None);
}

#[test]
fn file_name_ignores_trailing_separators() {
    assert!(is_executable_candidate("C:/x/app.exe/"));
    assert!(is_executable_candidate("C:\\x\\app.exe\\\\"));
    assert!(!is_executable_candidate("C:/"));
    assert!(is_shortcut_file("C:/Start/App.lnk/"));
}
