//! Start-menu ingestion: what one shortcut file contributes to the catalog.
use vstd::prelude::*;
use crate::catalog::{AppRecord, RecordView, opt_view};
use crate::identity::{hash_id, id_of};
use crate::paths::{
    clean_path_candidate, cleaned, file_stem, file_stem_of, normalize_chars, normalized,
    parent, parent_of, resolve_relative_path, resolved,
};
use crate::text::{chars_of, string_from_chars, string_from_wide, trim_chars, trim_ws, wide_text};

verus! {

/// What the shell-link service reads from one shortcut file, as NUL-terminated
/// UTF-16 buffers.
pub struct RawShortcut {
    pub target: Vec<u16>,
    pub arguments: Vec<u16>,
    pub working_directory: Vec<u16>,
    pub icon_location: Vec<u16>,
}

/// The decoded contents of one shortcut file.
#[derive(Debug)]
pub struct ShortcutInfo {
    pub target: Option<String>,
    pub arguments: Option<String>,
    pub working_directory: Option<String>,
    pub icon_path: Option<String>,
}

/// The contents of a `ShortcutInfo`, as character sequences.
pub struct ShortcutInfoView {
    pub target: Option<Seq<char>>,
    pub arguments: Option<Seq<char>>,
    pub working_directory: Option<Seq<char>>,
    pub icon_path: Option<Seq<char>>,
}

impl View for ShortcutInfo {
    type V = ShortcutInfoView;

    open spec fn view(&self) -> ShortcutInfoView {
        ShortcutInfoView {
            target: opt_view(self.target),
            arguments: opt_view(self.arguments),
            working_directory: opt_view(self.working_directory),
            icon_path: opt_view(self.icon_path),
        }
    }
}

/// The text of a buffer where it is not empty.
pub open spec fn nonempty_text(b: Seq<u16>) -> Option<Seq<char>> {
    match wide_text(b) {
        Some(t) => if t.len() > 0 {
            Some(t)
        } else {
            None
        },
        None => None,
    }
}

/// The decoded shortcut at `path`: the target normalized; the working directory and
/// the icon's primary path resolved against the shortcut's own directory.
pub open spec fn shortcut_info(path: Seq<char>, raw: RawShortcut, env: Seq<(String, String)>) -> ShortcutInfoView {
    ShortcutInfoView {
        target: match nonempty_text(raw.target@) {
            Some(t) => Some(normalized(t)),
            None => None,
        },
        arguments: nonempty_text(raw.arguments@),
        working_directory: match nonempty_text(raw.working_directory@) {
            Some(d) => Some(resolved(path, d, env)),
            None => None,
        },
        icon_path: match nonempty_text(raw.icon_location@) {
            Some(i) => match cleaned(i) {
                Some(c) => Some(resolved(path, c, env)),
                None => None,
            },
            None => None,
        },
    }
}

fn nonempty_string_from_wide(b: &Vec<u16>) -> (r: Option<String>)
    ensures
        opt_view(r) == nonempty_text(b@),
{
    match string_from_wide(b.as_slice()) {
        Some(s) => {
            if s.as_str().unicode_len() > 0 {
                Some(s)
            } else {
                None
            }
        },
        None => None,
    }
}

/// Decodes the buffers read from the shortcut file at `path`.
pub fn decode_shortcut(path: &str, raw: &RawShortcut, env: &Vec<(String, String)>) -> (r: ShortcutInfo)
    ensures
        r@ == shortcut_info(path@, *raw, env@),
{
    let p = chars_of(path);
    let target = match nonempty_string_from_wide(&raw.target) {
        Some(t) => {
            let tc = chars_of(t.as_str());
            Some(string_from_chars(&normalize_chars(&tc)))
        },
        None => None,
    };
    let arguments = nonempty_string_from_wide(&raw.arguments);
    let working_directory = match nonempty_string_from_wide(&raw.working_directory) {
        Some(d) => {
            let dc = chars_of(d.as_str());
            Some(string_from_chars(&resolve_relative_path(&p, &dc, env)))
        },
        None => None,
    };
    let icon_path = match nonempty_string_from_wide(&raw.icon_location) {
        Some(i) => {
            let ic = chars_of(i.as_str());
            match clean_path_candidate(&ic) {
                Some(c) => Some(string_from_chars(&resolve_relative_path(&p, &c, env))),
                None => None,
            }
        },
        None => None,
    };
    ShortcutInfo { target, arguments, working_directory, icon_path }
}

/// The display name of the shortcut at `path`: its trimmed file stem, or
/// `Unknown Shortcut` where that is empty.
pub open spec fn shortcut_name(path: Seq<char>) -> Seq<char> {
    match file_stem(path) {
        Some(st) => if trim_ws(st).len() > 0 {
            trim_ws(st)
        } else {
            "Unknown Shortcut"@
        },
        None => "Unknown Shortcut"@,
    }
}

/// The record that the shortcut at `path`, decoded as `info`, contributes; none
/// where it has no target or an empty one.
pub open spec fn shortcut_record(
    path: Seq<char>,
    info: ShortcutInfoView,
    modified: u64,
    source: Seq<char>,
) -> Option<RecordView> {
    match info.target {
        None => None,
        Some(t) => if t.len() == 0 {
            None
        } else { Some(
            RecordView {
                id: id_of(seq!["start_menu"@, normalized(path)]),
                name: shortcut_name(path),
                launch_path: normalized(t),
                working_directory: match info.working_directory {
                    Some(d) => if d.len() > 0 {
                        Some(d)
                    } else {
                        match parent(t) {
                            Some(p) => Some(normalized(p)),
                            None => None,
                        }
                    },
                    None => match parent(t) {
                        Some(p) => Some(normalized(p)),
                        None => None,
                    },
                },
                icon_path: match info.icon_path {
                    Some(i) => Some(i),
                    None => Some(t),
                },
                source: source,
                last_modified: modified,
            },
        ) },
    }
}

fn display_name(p: &Vec<char>) -> (r: String)
    ensures
        r@ == shortcut_name(p@),
{
    match file_stem_of(p) {
        Some(st) => {
            let t = trim_chars(&st, false);
            if t.len() > 0 {
                return string_from_chars(&t);
            }
        },
        None => {},
    }
    "Unknown Shortcut".to_owned()
}

/// Builds the record of the shortcut file at `path`, decoded as `info`, found
/// under the start-menu root `source`; `modified` is its modification time. None
/// where the shortcut has no target or an empty one.
pub fn build_shortcut_record(path: &str, info: &ShortcutInfo, modified: u64, source: &str) -> (r:
    Option<AppRecord>)
    ensures
        match r {
            Some(rec) => shortcut_record(path@, info@, modified, source@) == Some(rec@),
            None => shortcut_record(path@, info@, modified, source@).is_none(),
        },
{
    let target = match &info.target {
        Some(t) => t,
        None => return None,
    };
    if target.as_str().unicode_len() == 0 {
        return None;
    }
    let p = chars_of(path);
    let tc = chars_of(target.as_str());
    let shortcut_path = string_from_chars(&normalize_chars(&p));
    let launch_path = string_from_chars(&normalize_chars(&tc));
    let from_parent = match parent_of(&tc) {
        Some(d) => Some(string_from_chars(&normalize_chars(&d))),
        None => None,
    };
    let working_directory = match &info.working_directory {
        Some(d) => {
            if d.as_str().unicode_len() > 0 {
                Some(d.clone())
            } else {
                from_parent
            }
        },
        None => from_parent,
    };
    let icon_path = match &info.icon_path {
        Some(i) => Some(i.clone()),
        None => Some(target.clone()),
    };
    let parts: [&str; 2] = ["start_menu", shortcut_path.as_str()];
    let id = hash_id(parts.as_slice());
    assert(crate::identity::part_views(parts@) =~= seq!["start_menu"@, shortcut_path@]);
    Some(
        AppRecord {
            id,
            name: display_name(&p),
            launch_path,
            working_directory,
            icon_path,
            source: source.to_owned(),
            last_modified: modified,
        },
    )
}

} // verus!
