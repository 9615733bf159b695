//! The aggregation pass: every start-menu source, then every registry source,
//! merged by id and sorted by name.
use vstd::prelude::*;
use crate::catalog::{AppRecord, Catalog, RecordView, merged, sort_by_name, upsert, views};
use crate::paths::{is_shortcut, is_shortcut_file, normalize_path, normalized};
use crate::registry::{
    Hive, RawUninstallEntry, classify_uninstall_entry, parse_registry_path, registry_path,
    uninstall_record,
};
use crate::shortcut::{RawShortcut, build_shortcut_record, decode_shortcut, shortcut_info, shortcut_record};

verus! {

/// One file met under a start-menu root.
pub struct ShortcutFile {
    /// The file's path.
    pub path: String,
    /// What the shell-link service read from it; `None` where decoding failed
    /// or the file is no shortcut.
    pub shortcut: Option<RawShortcut>,
    /// Its modification time in seconds since the epoch, where readable.
    pub modified: Option<u64>,
}

/// A start-menu root and the files found under it.
pub struct StartMenuSource {
    pub root: String,
    /// Whether the root exists; a missing root contributes nothing.
    pub exists: bool,
    pub files: Vec<ShortcutFile>,
}

/// A configured uninstall key path and the entries read under it; `None` where
/// the key could not be opened.
pub struct RegistrySource {
    pub path: String,
    pub entries: Option<Vec<RawUninstallEntry>>,
}

/// The time a record carries: the file's own where known, else the scan's.
pub open spec fn stamp(modified: Option<u64>, now: u64) -> u64 {
    match modified {
        Some(m) => m,
        None => now,
    }
}

/// The record that one file under a root contributes.
pub open spec fn file_candidate(f: ShortcutFile, source: Seq<char>, env: Seq<(String, String)>, now: u64) -> Option<RecordView> {
    if !is_shortcut(f.path@) || f.shortcut is None {
        None
    } else {
        shortcut_record(f.path@, shortcut_info(f.path@, f.shortcut->0, env), stamp(f.modified, now), source)
    }
}

/// The records that files under a root contribute, in order.
pub open spec fn files_candidates(fs: Seq<ShortcutFile>, source: Seq<char>, env: Seq<(String, String)>, now: u64) -> Seq<RecordView>
    decreases fs.len(),
{
    if fs.len() == 0 {
        seq![]
    } else {
        let prev = files_candidates(fs.drop_last(), source, env, now);
        match file_candidate(fs.last(), source, env, now) {
            Some(r) => prev.push(r),
            None => prev,
        }
    }
}

/// The records that one start-menu source contributes; the source tag is its
/// normalized root.
pub open spec fn start_menu_candidates(s: StartMenuSource, env: Seq<(String, String)>, now: u64) -> Seq<RecordView> {
    if !s.exists {
        seq![]
    } else {
        files_candidates(s.files@, normalized(s.root@), env, now)
    }
}

/// The records that uninstall entries contribute, in order.
pub open spec fn entries_candidates(
    es: Seq<RawUninstallEntry>,
    hive: Hive,
    source: Seq<char>,
    env: Seq<(String, String)>,
    now: u64,
) -> Seq<RecordView>
    decreases es.len(),
{
    if es.len() == 0 {
        seq![]
    } else {
        let prev = entries_candidates(es.drop_last(), hive, source, env, now);
        match uninstall_record(es.last(), hive, source, env, now) {
            Ok(r) => prev.push(r),
            Err(_) => prev,
        }
    }
}

/// The records that one registry source contributes: none where its path is
/// malformed or its key could not be opened.
pub open spec fn registry_candidates(r: RegistrySource, env: Seq<(String, String)>, now: u64) -> Seq<RecordView> {
    match registry_path(r.path@) {
        Ok((h, _)) => match r.entries {
            Some(es) => entries_candidates(es@, h, r.path@, env, now),
            None => seq![],
        },
        Err(_) => seq![],
    }
}

/// The records of all start-menu sources, source after source.
pub open spec fn all_start_menu(ss: Seq<StartMenuSource>, env: Seq<(String, String)>, now: u64) -> Seq<RecordView>
    decreases ss.len(),
{
    if ss.len() == 0 {
        seq![]
    } else {
        all_start_menu(ss.drop_last(), env, now) + start_menu_candidates(ss.last(), env, now)
    }
}

/// The records of all registry sources, source after source.
pub open spec fn all_registry(rs: Seq<RegistrySource>, env: Seq<(String, String)>, now: u64) -> Seq<RecordView>
    decreases rs.len(),
{
    if rs.len() == 0 {
        seq![]
    } else {
        all_registry(rs.drop_last(), env, now) + registry_candidates(rs.last(), env, now)
    }
}

/// Every candidate, in insertion order: start-menu sources first.
pub open spec fn all_candidates(
    ss: Seq<StartMenuSource>,
    rs: Seq<RegistrySource>,
    env: Seq<(String, String)>,
    now: u64,
) -> Seq<RecordView> {
    all_start_menu(ss, env, now) + all_registry(rs, env, now)
}

/// The catalog of one scan.
pub open spec fn scan_result(
    ss: Seq<StartMenuSource>,
    rs: Seq<RegistrySource>,
    env: Seq<(String, String)>,
    now: u64,
) -> Seq<RecordView> {
    sort_by_name(merged(all_candidates(ss, rs, env, now)))
}

/// `m` after inserting the records `x` in order.
pub open spec fn upsert_all(m: Seq<RecordView>, x: Seq<RecordView>) -> Seq<RecordView>
    decreases x.len(),
{
    if x.len() == 0 {
        m
    } else {
        upsert(upsert_all(m, x.drop_last()), x.last())
    }
}

proof fn lemma_upsert_all_push(m: Seq<RecordView>, x: Seq<RecordView>, r: RecordView)
    ensures
        upsert_all(m, x.push(r)) == upsert(upsert_all(m, x), r),
{
    assert(x.push(r).drop_last() =~= x);
}

proof fn lemma_merged_append(c: Seq<RecordView>, x: Seq<RecordView>)
    ensures
        merged(c + x) == upsert_all(merged(c), x),
    decreases x.len(),
{
    if x.len() == 0 {
        assert(c + x =~= c);
    } else {
        lemma_merged_append(c, x.drop_last());
        assert((c + x).drop_last() =~= c + x.drop_last());
    }
}

/// Inserts `r` into `cat`, after the records `got` inserted so far from `start`.
fn add_candidate(cat: &mut Catalog, r: AppRecord, Ghost(start): Ghost<Seq<RecordView>>, Ghost(got): Ghost<Seq<RecordView>>)
    requires
        old(cat)@ == upsert_all(start, got),
    ensures
        final(cat)@ == upsert_all(start, got.push(r@)),
{
    proof {
        lemma_upsert_all_push(start, got, r@);
    }
    cat.insert(r);
}

/// Inserts into `cat`, in order, the records that the start-menu source `src`
/// contributes; a root that does not exist contributes none.
pub fn ingest_start_menu(
    cat: &mut Catalog,
    src: &StartMenuSource,
    env: &Vec<(String, String)>,
    now: u64,
)
    ensures
        final(cat)@ == upsert_all(old(cat)@, start_menu_candidates(*src, env@, now)),
        !src.exists ==> final(cat)@ == old(cat)@,
{
    let ghost c = cat@;
    if !src.exists {
        return;
    }
    let source = normalize_path(src.root.as_str());
    let ghost mut got: Seq<RecordView> = seq![];
    let mut j: usize = 0;
    assert(src.files@.take(0) =~= Seq::<ShortcutFile>::empty());
    while j < src.files.len()
        invariant
            j <= src.files@.len(),
            source@ == normalized(src.root@),
            got == files_candidates(src.files@.take(j as int), source@, env@, now),
            cat@ == upsert_all(c, got),
        decreases src.files@.len() - j,
    {
        let f = &src.files[j];
        let ghost t = src.files@.take(j + 1);
        assert(t.drop_last() =~= src.files@.take(j as int));
        assert(t.last() == *f);
        if is_shortcut_file(f.path.as_str()) {
            match &f.shortcut {
                Some(raw) => {
                    let info = decode_shortcut(f.path.as_str(), raw, env);
                    let modified = match f.modified {
                        Some(m) => m,
                        None => now,
                    };
                    match build_shortcut_record(f.path.as_str(), &info, modified, source.as_str()) {
                        Some(rec) => {
                            add_candidate(cat, rec, Ghost(c), Ghost(got));
                            proof {
                                got = got.push(rec@);
                            }
                        },
                        None => {},
                    }
                },
                None => {},
            }
        }
        j = j + 1;
    }
    assert(src.files@.take(src.files@.len() as int) =~= src.files@);
}

/// Inserts into `cat`, in order, the records that the registry source `src`
/// contributes; a malformed path or a key that could not be opened contributes none.
pub fn ingest_registry(
    cat: &mut Catalog,
    src: &RegistrySource,
    env: &Vec<(String, String)>,
    now: u64,
)
    ensures
        final(cat)@ == upsert_all(old(cat)@, registry_candidates(*src, env@, now)),
{
    let ghost c = cat@;
    let hive = match parse_registry_path(src.path.as_str()) {
        Ok((h, _)) => h,
        Err(_) => return,
    };
    let entries = match &src.entries {
        Some(es) => es,
        None => return,
    };
    let ghost mut got: Seq<RecordView> = seq![];
    let mut j: usize = 0;
    assert(entries@.take(0) =~= Seq::<RawUninstallEntry>::empty());
    while j < entries.len()
        invariant
            j <= entries@.len(),
            src.entries == Some(*entries),
            registry_path(src.path@) is Ok,
            registry_path(src.path@)->Ok_0.0 == hive,
            got == entries_candidates(entries@.take(j as int), hive, src.path@, env@, now),
            cat@ == upsert_all(c, got),
        decreases entries@.len() - j,
    {
        let ghost t = entries@.take(j + 1);
        assert(t.drop_last() =~= entries@.take(j as int));
        assert(t.last() == entries@[j as int]);
        match classify_uninstall_entry(&entries[j], hive, src.path.as_str(), env, now) {
            Ok(rec) => {
                add_candidate(cat, rec, Ghost(c), Ghost(got));
                proof {
                    got = got.push(rec@);
                }
            },
            Err(_) => {},
        }
        j = j + 1;
    }
    assert(entries@.take(entries@.len() as int) =~= entries@);
}

/// Builds the catalog from what was read of the start-menu roots and the
/// uninstall keys: each usable shortcut and entry becomes a candidate, the
/// candidates are merged by id (a later one overwrites an earlier one in place),
/// and the result is sorted by lower-case name, equal names in insertion order.
/// `env` gives the environment variables; `now` is the scan time in seconds.
pub fn scan_app_records(
    start_menu: &Vec<StartMenuSource>,
    registry: &Vec<RegistrySource>,
    env: &Vec<(String, String)>,
    now: u64,
) -> (r: Vec<AppRecord>)
    ensures
        views(r@) == scan_result(start_menu@, registry@, env@, now),
{
    let mut cat = Catalog::new();
    let ghost mut c: Seq<RecordView> = seq![];
    assert(merged(seq![]) == Seq::<RecordView>::empty());
    let mut i: usize = 0;
    assert(start_menu@.take(0) =~= Seq::<StartMenuSource>::empty());
    while i < start_menu.len()
        invariant
            i <= start_menu@.len(),
            c == all_start_menu(start_menu@.take(i as int), env@, now),
            cat@ == merged(c),
        decreases start_menu@.len() - i,
    {
        let ghost t = start_menu@.take(i + 1);
        assert(t.drop_last() =~= start_menu@.take(i as int));
        ingest_start_menu(&mut cat, &start_menu[i], env, now);
        proof {
            lemma_merged_append(c, start_menu_candidates(start_menu@[i as int], env@, now));
            c = c + start_menu_candidates(start_menu@[i as int], env@, now);
        }
        i = i + 1;
    }
    assert(start_menu@.take(start_menu@.len() as int) =~= start_menu@);
    let ghost sm = c;
    let mut k: usize = 0;
    assert(registry@.take(0) =~= Seq::<RegistrySource>::empty());
    assert(sm + seq![] =~= sm);
    while k < registry.len()
        invariant
            k <= registry@.len(),
            sm == all_start_menu(start_menu@, env@, now),
            c == sm + all_registry(registry@.take(k as int), env@, now),
            cat@ == merged(c),
        decreases registry@.len() - k,
    {
        let ghost t = registry@.take(k + 1);
        assert(t.drop_last() =~= registry@.take(k as int));
        ingest_registry(&mut cat, &registry[k], env, now);
        proof {
            lemma_merged_append(c, registry_candidates(registry@[k as int], env@, now));
            let x = registry_candidates(registry@[k as int], env@, now);
            assert(c + x =~= sm + (all_registry(registry@.take(k as int), env@, now) + x));
            c = c + x;
        }
        k = k + 1;
    }
    assert(registry@.take(registry@.len() as int) =~= registry@);
    cat.into_sorted()
}

} // verus!
