//! The default sources: the machine-wide and per-user start-menu program folders,
//! and the three standard uninstall key paths.
use vstd::prelude::*;
use crate::envvars::env_lookup;
use crate::paths::join;
use crate::text::{chars_of, string_from_chars};

verus! {

/// The start-menu roots and uninstall key paths that a scan reads.
pub struct ScanPaths {
    pub start_menu_paths: Vec<String>,
    pub registry_paths: Vec<String>,
}

/// The characters of each string.
pub open spec fn string_views(v: Seq<String>) -> Seq<Seq<char>> {
    v.map_values(|s: String| s@)
}

/// The program folder of the start menu under a profile directory.
pub open spec fn programs_under(base: Seq<char>) -> Seq<char> {
    join(base, "Microsoft\\Windows\\Start Menu\\Programs"@)
}

/// The start-menu roots: the one under `PROGRAMDATA`, then the one under
/// `APPDATA`, each where that variable is set.
pub open spec fn default_start_menu(env: Seq<(String, String)>) -> Seq<Seq<char>> {
    let a: Seq<Seq<char>> = match env_lookup(env, "PROGRAMDATA"@) {
        Some(p) => seq![programs_under(p)],
        None => seq![],
    };
    let b: Seq<Seq<char>> = match env_lookup(env, "APPDATA"@) {
        Some(p) => seq![programs_under(p)],
        None => seq![],
    };
    a + b
}

/// The uninstall key paths: the machine's 64-bit and 32-bit views, then the user's.
pub open spec fn default_registry() -> Seq<Seq<char>> {
    seq![
        "HKEY_LOCAL_MACHINE\\SOFTWARE\\Microsoft\\Windows\\CurrentVersion\\Uninstall"@,
        "HKEY_LOCAL_MACHINE\\SOFTWARE\\WOW6432Node\\Microsoft\\Windows\\CurrentVersion\\Uninstall"@,
        "HKEY_CURRENT_USER\\SOFTWARE\\Microsoft\\Windows\\CurrentVersion\\Uninstall"@,
    ]
}

fn lookup_var(env: &Vec<(String, String)>, name: &str) -> (r: Option<Vec<char>>)
    ensures
        match r {
            Some(v) => env_lookup(env@, name@) == Some(v@),
            None => env_lookup(env@, name@).is_none(),
        },
{
    let n = chars_of(name);
    crate::envvars::lookup(env, &n)
}

fn programs_folder(base: &Vec<char>) -> (r: String)
    ensures
        r@ == programs_under(base@),
{
    let suffix = chars_of("Microsoft\\Windows\\Start Menu\\Programs");
    string_from_chars(&crate::paths::join_path(base, &suffix))
}

/// The default sources, with the profile directories taken from `env`.
pub fn get_default_scan_paths(env: &Vec<(String, String)>) -> (r: ScanPaths)
    ensures
        string_views(r.start_menu_paths@) == default_start_menu(env@),
        string_views(r.registry_paths@) == default_registry(),
{
    let mut start_menu_paths: Vec<String> = Vec::new();
    match lookup_var(env, "PROGRAMDATA") {
        Some(p) => start_menu_paths.push(programs_folder(&p)),
        None => {},
    }
    let ghost first = start_menu_paths@;
    match lookup_var(env, "APPDATA") {
        Some(p) => start_menu_paths.push(programs_folder(&p)),
        None => {},
    }
    assert(string_views(start_menu_paths@) =~= default_start_menu(env@));
    let mut registry_paths: Vec<String> = Vec::new();
    registry_paths.push(
        "HKEY_LOCAL_MACHINE\\SOFTWARE\\Microsoft\\Windows\\CurrentVersion\\Uninstall".to_owned(),
    );
    registry_paths.push(
        "HKEY_LOCAL_MACHINE\\SOFTWARE\\WOW6432Node\\Microsoft\\Windows\\CurrentVersion\\Uninstall".to_owned(),
    );
    registry_paths.push(
        "HKEY_CURRENT_USER\\SOFTWARE\\Microsoft\\Windows\\CurrentVersion\\Uninstall".to_owned(),
    );
    assert(string_views(registry_paths@) =~= default_registry());
    ScanPaths { start_menu_paths, registry_paths }
}

} // verus!
