//! Uninstall-registry ingestion: the key-path syntax, and the rules that decide
//! whether one uninstall entry is a launchable application.
use vstd::prelude::*;
use crate::catalog::{AppRecord, RecordView};
use crate::envvars::{expand, expand_chars};
use crate::identity::{hash_id, id_of};
use crate::paths::{
    clean_path_candidate, cleaned, file_stem, file_stem_of, is_executable,
    is_executable_candidate, normalize_chars, normalized, parent, parent_of,
};
use crate::text::{chars_of, contains_ci, contains_ignore_case, string_from_chars, trim_chars, trim_ws};

verus! {

/// A top-level registry scope.
#[derive(Debug, Clone, Copy, PartialEq, Eq)]
pub enum Hive {
    LocalMachine,
    CurrentUser,
}

/// The name of a hive, as written at the head of a key path.
pub open spec fn hive_name(h: Hive) -> Seq<char> {
    match h {
        Hive::LocalMachine => "HKEY_LOCAL_MACHINE"@,
        Hive::CurrentUser => "HKEY_CURRENT_USER"@,
    }
}

impl Hive {
    /// The name of the hive, as written at the head of a key path.
    pub fn name(&self) -> (r: &'static str)
        ensures
            r@ == hive_name(*self),
    {
        match self {
            Hive::LocalMachine => "HKEY_LOCAL_MACHINE",
            Hive::CurrentUser => "HKEY_CURRENT_USER",
        }
    }
}

/// Why a registry key path cannot be read.
#[derive(Debug, Clone, Copy, PartialEq, Eq)]
pub enum RegistryPathError {
    /// The path has no `\` between a hive and a subkey.
    MissingSubkey,
    /// The head of the path names neither supported hive.
    UnsupportedHive,
}

/// What precedes the first backslash of `s` (all of `s` where it has none).
pub open spec fn head_len(s: Seq<char>) -> int
    decreases s.len(),
{
    if s.len() == 0 || s[0] == '\\' {
        0
    } else {
        1 + head_len(s.drop_first())
    }
}

/// The hive and subkey that the key path `p` names, or why it names none.
pub open spec fn registry_path(p: Seq<char>) -> Result<(Hive, Seq<char>), RegistryPathError> {
    let k = head_len(p);
    if k >= p.len() {
        Err(RegistryPathError::MissingSubkey)
    } else if p.take(k) == hive_name(Hive::LocalMachine) {
        Ok((Hive::LocalMachine, p.skip(k + 1)))
    } else if p.take(k) == hive_name(Hive::CurrentUser) {
        Ok((Hive::CurrentUser, p.skip(k + 1)))
    } else {
        Err(RegistryPathError::UnsupportedHive)
    }
}

fn same_as(v: &Vec<char>, s: &str) -> (r: bool)
    ensures
        r == (v@ == s@),
{
    let n = s.unicode_len();
    if v.len() != n {
        return false;
    }
    let mut i: usize = 0;
    while i < n
        invariant
            i <= n == v@.len() == s@.len(),
            forall|k: int| 0 <= k < i ==> v@[k] == s@[k],
        decreases n - i,
    {
        if v[i] != s.get_char(i) {
            return false;
        }
        i = i + 1;
    }
    assert(v@ =~= s@);
    true
}

/// Splits a key path of the form `HIVE\subkey` into its hive and subkey.
pub fn parse_registry_path(path: &str) -> (r: Result<(Hive, String), RegistryPathError>)
    ensures
        match r {
            Ok((h, sub)) => registry_path(path@) == Ok::<(Hive, Seq<char>), RegistryPathError>((h, sub@)),
            Err(e) => registry_path(path@) == Err::<(Hive, Seq<char>), RegistryPathError>(e),
        },
{
    let p = chars_of(path);
    let mut k: usize = 0;
    assert(p@.skip(0) =~= p@);
    while k < p.len() && p[k] != '\\'
        invariant
            k <= p@.len(),
            head_len(p@) == k + head_len(p@.skip(k as int)),
        decreases p@.len() - k,
    {
        assert(p@.skip(k as int).drop_first() =~= p@.skip(k + 1));
        k = k + 1;
    }
    assert(head_len(p@.skip(k as int)) == 0);
    if k >= p.len() {
        return Err(RegistryPathError::MissingSubkey);
    }
    let head = crate::text::slice_chars(&p, 0, k);
    let sub = crate::text::slice_chars(&p, k + 1, p.len());
    assert(sub@ =~= p@.skip(k + 1));
    assert(head@ =~= p@.take(k as int));
    if same_as(&head, "HKEY_LOCAL_MACHINE") {
        Ok((Hive::LocalMachine, string_from_chars(&sub)))
    } else if same_as(&head, "HKEY_CURRENT_USER") {
        Ok((Hive::CurrentUser, string_from_chars(&sub)))
    } else {
        Err(RegistryPathError::UnsupportedHive)
    }
}

/// The values read from one uninstall key; an absent value, or one of another
/// type, is `None`.
pub struct RawUninstallEntry {
    pub display_name: Option<String>,
    pub uninstall_string: Option<String>,
    pub system_component: Option<u32>,
    pub no_display: Option<u32>,
    pub no_display_icon: Option<u32>,
    pub display_icon: Option<String>,
    pub install_location: Option<String>,
}

/// Why an uninstall entry contributes no record.
#[derive(Debug, Clone, Copy, PartialEq, Eq)]
pub enum SkipReason {
    /// `DisplayName` is absent or blank.
    MissingName,
    /// `SystemComponent`, `NoDisplay` or `NoDisplayIcon` is 1.
    Hidden,
    /// `UninstallString` is an uninstall command.
    UninstallCommand,
    /// Neither `DisplayIcon` nor `InstallLocation` names a launchable file.
    NoExecutable,
    /// The launch path itself is an uninstaller.
    UninstallerTarget,
}

/// An uninstall command line: it mentions `msiexec`, `uninstall`, `/x`, `--remove`
/// or `--uninstall`, in any case.
pub open spec fn is_uninstall_command(u: Seq<char>) -> bool {
    contains_ci(u, "msiexec"@) || contains_ci(u, "uninstall"@) || contains_ci(u, "/x"@)
        || contains_ci(u, "--remove"@) || contains_ci(u, "--uninstall"@)
}

/// A path that names an uninstaller.
pub open spec fn is_uninstaller_path(t: Seq<char>) -> bool {
    let stem = match file_stem(t) {
        Some(s) => s,
        None => seq![],
    };
    contains_ci(t, "msiexec.exe"@) || contains_ci(t, "uninstall"@) || contains_ci(t, "\\uninst"@)
        || contains_ci(t, "appwiz.cpl"@) || contains_ci(stem, "uninstall"@) || contains_ci(
        stem,
        "unins"@,
    ) || contains_ci(stem, "remove"@)
}

/// Arguments that ask for an uninstall.
pub open spec fn is_uninstall_arguments(a: Seq<char>) -> bool {
    contains_ci(a, "/x"@) || contains_ci(a, "/uninstall"@) || contains_ci(a, "--uninstall"@)
        || contains_ci(a, "uninstall"@)
}

/// A target, with its arguments, that would run an uninstaller.
pub open spec fn is_uninstaller(t: Seq<char>, args: Option<Seq<char>>) -> bool {
    is_uninstaller_path(t) || match args {
        Some(a) => is_uninstall_arguments(a),
        None => false,
    }
}

fn command_is_uninstall(u: &Vec<char>) -> (r: bool)
    ensures
        r == is_uninstall_command(u@),
{
    contains_ignore_case(u, "msiexec") || contains_ignore_case(u, "uninstall")
        || contains_ignore_case(u, "/x") || contains_ignore_case(u, "--remove")
        || contains_ignore_case(u, "--uninstall")
}

/// Whether `target`, run with `arguments`, is an uninstaller: the path mentions
/// `msiexec.exe`, `uninstall`, `\uninst` or `appwiz.cpl`, or its stem mentions
/// `uninstall`, `unins` or `remove`, or the arguments mention `/x`, `/uninstall`,
/// `--uninstall` or `uninstall`; all in any case.
pub fn is_uninstaller_target(target: &str, arguments: Option<&str>) -> (r: bool)
    ensures
        r == is_uninstaller(
            target@,
            match arguments {
                Some(a) => Some(a@),
                None => None,
            },
        ),
{
    let t = chars_of(target);
    let stem = match file_stem_of(&t) {
        Some(s) => s,
        None => Vec::new(),
    };
    if contains_ignore_case(&t, "msiexec.exe") || contains_ignore_case(&t, "uninstall")
        || contains_ignore_case(&t, "\\uninst") || contains_ignore_case(&t, "appwiz.cpl")
        || contains_ignore_case(&stem, "uninstall") || contains_ignore_case(&stem, "unins")
        || contains_ignore_case(&stem, "remove") {
        return true;
    }
    match arguments {
        Some(a) => {
            let ac = chars_of(a);
            contains_ignore_case(&ac, "/x") || contains_ignore_case(&ac, "/uninstall")
                || contains_ignore_case(&ac, "--uninstall") || contains_ignore_case(&ac, "uninstall")
        },
        None => false,
    }
}

/// A flag value that hides an entry.
pub open spec fn flag_set(f: Option<u32>) -> bool {
    f == Some(1u32)
}

/// The primary path of a location value, expanded and normalized.
pub open spec fn location_path(v: Option<String>, env: Seq<(String, String)>) -> Option<Seq<char>> {
    match v {
        Some(s) => match cleaned(s@) {
            Some(c) => Some(normalized(expand(c, env))),
            None => None,
        },
        None => None,
    }
}

/// The launch path of an entry: its icon's path where that is launchable, else its
/// install location where that is.
pub open spec fn launch_path_of(e: RawUninstallEntry, env: Seq<(String, String)>) -> Option<Seq<char>> {
    let icon = location_path(e.display_icon, env);
    let loc = location_path(e.install_location, env);
    if icon is Some && is_executable(icon->0) {
        icon
    } else if loc is Some && is_executable(loc->0) {
        loc
    } else {
        None
    }
}

/// What the uninstall entry `e`, read under `hive` from the configured key path
/// `source` at time `now`, contributes: its record, or why it contributes none.
pub open spec fn uninstall_record(
    e: RawUninstallEntry,
    hive: Hive,
    source: Seq<char>,
    env: Seq<(String, String)>,
    now: u64,
) -> Result<RecordView, SkipReason> {
    if e.display_name is None || trim_ws(e.display_name->0@).len() == 0 {
        Err(SkipReason::MissingName)
    } else if flag_set(e.system_component) || flag_set(e.no_display) || flag_set(
        e.no_display_icon,
    ) {
        Err(SkipReason::Hidden)
    } else if e.uninstall_string is Some && is_uninstall_command(e.uninstall_string->0@) {
        Err(SkipReason::UninstallCommand)
    } else if launch_path_of(e, env) is None {
        Err(SkipReason::NoExecutable)
    } else if is_uninstaller(launch_path_of(e, env)->0, None) {
        Err(SkipReason::UninstallerTarget)
    } else {
        let launch = launch_path_of(e, env)->0;
        let name = trim_ws(e.display_name->0@);
        Ok(
            RecordView {
                id: id_of(seq!["registry"@, launch, name, hive_name(hive)]),
                name: name,
                launch_path: launch,
                working_directory: match parent(launch) {
                    Some(d) => Some(normalized(d)),
                    None => None,
                },
                icon_path: location_path(e.display_icon, env),
                source: source,
                last_modified: now,
            },
        )
    }
}

fn location(v: &Option<String>, env: &Vec<(String, String)>) -> (r: Option<Vec<char>>)
    ensures
        match r {
            Some(p) => location_path(*v, env@) == Some(p@),
            None => location_path(*v, env@).is_none(),
        },
{
    match v {
        Some(s) => {
            let sc = chars_of(s.as_str());
            match clean_path_candidate(&sc) {
                Some(c) => {
                    let x = expand_chars(&c, env);
                    Some(normalize_chars(&x))
                },
                None => None,
            }
        },
        None => None,
    }
}

fn is_one(f: Option<u32>) -> (r: bool)
    ensures
        r == flag_set(f),
{
    match f {
        Some(v) => v == 1,
        None => false,
    }
}

/// Applies the visibility and classification rules to the uninstall entry `entry`,
/// read under `hive` from the configured key path `source` at time `now`, and
/// builds its record.
pub fn classify_uninstall_entry(
    entry: &RawUninstallEntry,
    hive: Hive,
    source: &str,
    env: &Vec<(String, String)>,
    now: u64,
) -> (r: Result<AppRecord, SkipReason>)
    ensures
        match r {
            Ok(rec) => uninstall_record(*entry, hive, source@, env@, now) == Ok::<RecordView, SkipReason>(rec@),
            Err(why) => uninstall_record(*entry, hive, source@, env@, now) == Err::<RecordView, SkipReason>(why),
        },
{
    let name = match &entry.display_name {
        Some(n) => {
            let nc = chars_of(n.as_str());
            let t = trim_chars(&nc, false);
            if t.len() == 0 {
                return Err(SkipReason::MissingName);
            }
            t
        },
        None => return Err(SkipReason::MissingName),
    };
    if is_one(entry.system_component) || is_one(entry.no_display) || is_one(entry.no_display_icon) {
        return Err(SkipReason::Hidden);
    }
    match &entry.uninstall_string {
        Some(u) => {
            let uc = chars_of(u.as_str());
            if command_is_uninstall(&uc) {
                return Err(SkipReason::UninstallCommand);
            }
        },
        None => {},
    }
    let icon = location(&entry.display_icon, env);
    let loc = location(&entry.install_location, env);
    let launch: Vec<char> = match &icon {
        Some(i) if is_executable_candidate(string_from_chars(i).as_str()) => crate::text::slice_chars(i, 0, i.len()),
        _ => match &loc {
            Some(l) if is_executable_candidate(string_from_chars(l).as_str()) => crate::text::slice_chars(l, 0, l.len()),
            _ => return Err(SkipReason::NoExecutable),
        },
    };
    assert(launch@ =~= launch_path_of(*entry, env@)->0);
    let launch_string = string_from_chars(&launch);
    if is_uninstaller_target(launch_string.as_str(), None) {
        return Err(SkipReason::UninstallerTarget);
    }
    let name_string = string_from_chars(&name);
    let working_directory = match parent_of(&launch) {
        Some(d) => Some(string_from_chars(&normalize_chars(&d))),
        None => None,
    };
    let icon_path = match &icon {
        Some(i) => Some(string_from_chars(i)),
        None => None,
    };
    let parts: [&str; 4] = ["registry", launch_string.as_str(), name_string.as_str(), hive.name()];
    let id = hash_id(parts.as_slice());
    assert(crate::identity::part_views(parts@) =~= seq![
        "registry"@,
        launch@,
        name@,
        hive_name(hive),
    ]);
    let launch_path = string_from_chars(&launch);
    Ok(
        AppRecord {
            id,
            name: name_string,
            launch_path,
            working_directory,
            icon_path,
            source: source.to_owned(),
            last_modified: now,
        },
    )
}

} // verus!
