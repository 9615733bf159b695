//! Properties of the catalog that hold for every input.
use vstd::prelude::*;
use vstd::utf8::{decode_utf8, encode_utf8, encode_utf8_decode_utf8};
use crate::catalog::{RecordView, id_index, ids_unique, insert_by_name, merged, name_key, sort_by_name, upsert};
use crate::identity::{id_of, joined_bytes};
use crate::paths::{extension, is_executable};
use crate::registry::{Hive, RawUninstallEntry, uninstall_record};
use crate::scan::{
    RegistrySource, ShortcutFile, StartMenuSource, all_registry, all_start_menu, entries_candidates,
    files_candidates, registry_candidates, scan_result, start_menu_candidates,
};
use crate::text::{chars_le, contains_ci, seq_eq_ci};

verus! {

/// Equal ordered lists of parts give equal identifiers.
pub proof fn lemma_id_deterministic(a: Seq<Seq<char>>, b: Seq<Seq<char>>)
    requires
        a == b,
    ensures
        id_of(a) == id_of(b),
{
}

proof fn lemma_joined_bytes_append(a: Seq<Seq<char>>, b: Seq<Seq<char>>)
    ensures
        joined_bytes(a + b) == joined_bytes(a) + joined_bytes(b),
    decreases b.len(),
{
    if b.len() == 0 {
        assert(a + b =~= a);
        assert(joined_bytes(a) + seq![] =~= joined_bytes(a));
    } else {
        lemma_joined_bytes_append(a, b.drop_last());
        assert((a + b).drop_last() =~= a + b.drop_last());
        assert(joined_bytes(a) + joined_bytes(b.drop_last()) + encode_utf8(b.last()) =~= joined_bytes(
            a,
        ) + joined_bytes(b));
    }
}

/// Changing any single part changes the bytes that the identifier digests: the
/// parts' bytes are joined in order, so no other list of equal length with the
/// other parts kept gives the same digest input.
pub proof fn lemma_id_input_changes(a: Seq<Seq<char>>, b: Seq<Seq<char>>, i: int)
    requires
        a.len() == b.len(),
        0 <= i < a.len(),
        a[i] != b[i],
        forall|j: int| 0 <= j < a.len() && j != i ==> a[j] == b[j],
    ensures
        joined_bytes(a) != joined_bytes(b),
{
    let p = a.take(i);
    let q = a.skip(i + 1);
    assert(a =~= p + seq![a[i]] + q);
    assert(b =~= p + seq![b[i]] + q);
    lemma_joined_bytes_append(p + seq![a[i]], q);
    lemma_joined_bytes_append(p, seq![a[i]]);
    lemma_joined_bytes_append(p + seq![b[i]], q);
    lemma_joined_bytes_append(p, seq![b[i]]);
    assert(seq![a[i]].drop_last() =~= Seq::<Seq<char>>::empty());
    assert(seq![b[i]].drop_last() =~= Seq::<Seq<char>>::empty());
    let x = encode_utf8(a[i]);
    let y = encode_utf8(b[i]);
    assert(joined_bytes(Seq::<Seq<char>>::empty()) == Seq::<u8>::empty());
    assert(seq![a[i]].last() == a[i]);
    assert(seq![b[i]].last() == b[i]);
    assert(joined_bytes(seq![a[i]]) =~= x);
    assert(joined_bytes(seq![b[i]]) =~= y);
    let jp = joined_bytes(p);
    let jq = joined_bytes(q);
    if joined_bytes(a) == joined_bytes(b) {
        let u = jp + x + jq;
        let v = jp + y + jq;
        assert(u == v);
        assert(u.len() == jp.len() + x.len() + jq.len());
        assert(v.len() == jp.len() + y.len() + jq.len());
        assert(x.len() == y.len());
        assert(x =~= u.subrange(jp.len() as int, (jp.len() + x.len()) as int));
        assert(y =~= v.subrange(jp.len() as int, (jp.len() + y.len()) as int));
        encode_utf8_decode_utf8(a[i]);
        encode_utf8_decode_utf8(b[i]);
        assert(decode_utf8(x) == decode_utf8(y));
    }
}

/// No candidate after the `i`-th has its id.
pub open spec fn is_last_of_id(c: Seq<RecordView>, i: int) -> bool {
    0 <= i < c.len() && forall|j: int| i < j < c.len() ==> c[j].id != c[i].id
}

/// `r` is one of the records of `s`.
pub open spec fn holds(s: Seq<RecordView>, r: RecordView) -> bool {
    exists|k: int| 0 <= k < s.len() && s[k] == r
}

/// `r` is a candidate that no later candidate shares an id with.
pub open spec fn is_last_candidate(c: Seq<RecordView>, r: RecordView) -> bool {
    exists|i: int| #[trigger] is_last_of_id(c, i) && c[i] == r
}

/// Merging keeps identifiers unique, and on a collision the later candidate
/// wins: every candidate that no later candidate shares an id with is in the
/// catalog, and every record of the catalog is such a candidate.
pub proof fn lemma_merge_last_wins(c: Seq<RecordView>)
    ensures
        ids_unique(merged(c)),
        forall|i: int| #[trigger] is_last_of_id(c, i) ==> holds(merged(c), c[i]),
        forall|k: int| 0 <= k < merged(c).len() ==> is_last_candidate(c, #[trigger] merged(c)[k]),
    decreases c.len(),
{
    if c.len() > 0 {
        let d = c.drop_last();
        let r = c.last();
        let m = merged(d);
        lemma_merge_last_wins(d);
        lemma_id_index(m, r.id);
        let x = id_index(m, r.id);
        let n = upsert(m, r);
        assert(merged(c) == n);
        assert forall|i: int| #[trigger] is_last_of_id(c, i) implies holds(n, c[i]) by {
            if i == c.len() - 1 {
                if x >= 0 {
                    assert(n[x] == c[i]);
                } else {
                    assert(n[m.len() as int] == c[i]);
                }
            } else {
                assert(d[i] == c[i]);
                assert(c[c.len() - 1].id != c[i].id);
                assert forall|j: int| i < j < d.len() implies d[j].id != d[i].id by {
                    assert(d[j] == c[j]);
                }
                assert(is_last_of_id(d, i));
                let k = choose|k: int| 0 <= k < m.len() && m[k] == d[i];
                assert(k != x);
                assert(n[k] == c[i]);
            }
        }
        assert forall|k: int| 0 <= k < merged(c).len() implies is_last_candidate(c, #[trigger] merged(c)[k]) by {
            if (x >= 0 && k == x) || (x < 0 && k == m.len()) {
                assert(c[c.len() - 1] == n[k]);
                assert(is_last_of_id(c, c.len() - 1));
            } else {
                assert(is_last_candidate(d, m[k]));
                let i = choose|i: int| #[trigger] is_last_of_id(d, i) && d[i] == m[k];
                assert(m[k] == n[k]);
                assert(m[k].id != r.id);
                assert(c[i] == n[k]);
                assert forall|j: int| i < j < c.len() implies c[j].id != c[i].id by {
                    if j < d.len() {
                        assert(d[j] == c[j]);
                    }
                }
                assert(is_last_of_id(c, i));
            }
        }
        assert forall|a: int, b: int| 0 <= a < n.len() && 0 <= b < n.len() && a != b implies n[a].id
            != n[b].id by {
            if x >= 0 {
                if a == x {
                    assert(m[b].id != m[x].id);
                } else if b == x {
                    assert(m[a].id != m[x].id);
                }
            } else {
                if a == m.len() {
                    assert(m[b].id != r.id);
                } else if b == m.len() {
                    assert(m[a].id != r.id);
                }
            }
        }
    } else {
        assert(merged(c).len() == 0);
    }
}

proof fn lemma_id_index(s: Seq<RecordView>, id: Seq<char>)
    ensures
        -1 <= id_index(s, id) < s.len(),
        id_index(s, id) >= 0 ==> s[id_index(s, id)].id == id,
        id_index(s, id) < 0 ==> forall|t: int| 0 <= t < s.len() ==> s[t].id != id,
    decreases s.len(),
{
    if s.len() > 0 && s.last().id != id {
        let d = s.drop_last();
        lemma_id_index(d, id);
        assert forall|t: int| 0 <= t < d.len() implies d[t] == s[t] by {}
    }
}

/// An uninstall entry marked as a system component, or whose uninstall command
/// mentions `msiexec` in any case, contributes no record.
pub proof fn lemma_hidden_entries_skipped(
    e: RawUninstallEntry,
    hive: Hive,
    source: Seq<char>,
    env: Seq<(String, String)>,
    now: u64,
)
    requires
        e.system_component == Some(1u32) || (e.uninstall_string is Some && contains_ci(
            e.uninstall_string->0@,
            "msiexec"@,
        )),
    ensures
        uninstall_record(e, hive, source, env, now) is Err,
{
}

/// A path whose extension is `txt`, in any case, is not launchable.
pub proof fn lemma_text_file_not_executable(p: Seq<char>)
    requires
        extension(p) is Some,
        seq_eq_ci(extension(p)->0, "txt"@),
    ensures
        !is_executable(p),
{
    reveal_strlit("txt");
    reveal_strlit("exe");
    reveal_strlit("lnk");
    reveal_strlit("bat");
    reveal_strlit("cmd");
    let e = extension(p)->0;
    assert(crate::text::eq_ci(e[0], 't'));
}

/// A path whose extension is `exe`, `lnk`, `bat` or `cmd`, in any case, is launchable.
pub proof fn lemma_launchable_extensions(p: Seq<char>)
    requires
        extension(p) is Some,
        seq_eq_ci(extension(p)->0, "exe"@) || seq_eq_ci(extension(p)->0, "lnk"@) || seq_eq_ci(
            extension(p)->0,
            "bat"@,
        ) || seq_eq_ci(extension(p)->0, "cmd"@),
    ensures
        is_executable(p),
{
}

/// The launch path of every record built from an uninstall entry is launchable;
/// so it never has the extension `txt`.
pub proof fn lemma_registry_launch_path_executable(
    e: RawUninstallEntry,
    hive: Hive,
    source: Seq<char>,
    env: Seq<(String, String)>,
    now: u64,
)
    requires
        uninstall_record(e, hive, source, env, now) is Ok,
    ensures
        is_executable(uninstall_record(e, hive, source, env, now)->Ok_0.launch_path),
{
}

/// A start-menu root that does not exist contributes nothing: the scan is the
/// same without it.
pub proof fn lemma_missing_root_contributes_nothing(
    ss: Seq<StartMenuSource>,
    missing: StartMenuSource,
    rs: Seq<RegistrySource>,
    env: Seq<(String, String)>,
    now: u64,
)
    requires
        !missing.exists,
    ensures
        scan_result(ss.push(missing), rs, env, now) == scan_result(ss, rs, env, now),
{
    assert(ss.push(missing).drop_last() =~= ss);
    assert(all_start_menu(ss.push(missing), env, now) =~= all_start_menu(ss, env, now));
}


/// The records of `s` whose lower-case name is `k`, in their order in `s`.
pub open spec fn with_key(s: Seq<RecordView>, k: Seq<char>) -> Seq<RecordView>
    decreases s.len(),
{
    if s.len() == 0 {
        seq![]
    } else if name_key(s.last()) == k {
        with_key(s.drop_last(), k).push(s.last())
    } else {
        with_key(s.drop_last(), k)
    }
}

/// Each record's lower-case name is at most the next one's.
pub open spec fn sorted_by_name(s: Seq<RecordView>) -> bool {
    forall|i: int| 0 <= i < s.len() - 1 ==> chars_le(name_key(#[trigger] s[i]), name_key(s[i + 1]))
}

proof fn lemma_chars_le_refl(a: Seq<char>)
    ensures
        chars_le(a, a),
    decreases a.len(),
{
    if a.len() > 0 {
        lemma_chars_le_refl(a.drop_first());
    }
}

proof fn lemma_chars_le_total(a: Seq<char>, b: Seq<char>)
    ensures
        chars_le(a, b) || chars_le(b, a),
    decreases a.len(),
{
    if a.len() > 0 && b.len() > 0 && (a[0] as u32) == (b[0] as u32) {
        lemma_chars_le_total(a.drop_first(), b.drop_first());
    }
}

proof fn lemma_insert_shape(s: Seq<RecordView>, r: RecordView)
    ensures
        insert_by_name(s, r).len() == s.len() + 1,
        insert_by_name(s, r).last() == r || (s.len() > 0 && insert_by_name(s, r).last() == s.last()),
    decreases s.len(),
{
    if s.len() > 0 && !chars_le(name_key(s.last()), name_key(r)) {
        lemma_insert_shape(s.drop_last(), r);
    }
}

proof fn lemma_insert_sorted(s: Seq<RecordView>, r: RecordView)
    requires
        sorted_by_name(s),
    ensures
        sorted_by_name(insert_by_name(s, r)),
    decreases s.len(),
{
    if s.len() == 0 {
    } else if chars_le(name_key(s.last()), name_key(r)) {
        let t = s.push(r);
        assert forall|i: int| 0 <= i < t.len() - 1 implies chars_le(
            name_key(#[trigger] t[i]),
            name_key(t[i + 1]),
        ) by {
            if i < s.len() - 1 {
                assert(t[i] == s[i] && t[i + 1] == s[i + 1]);
            }
        }
    } else {
        let d = s.drop_last();
        assert forall|i: int| 0 <= i < d.len() - 1 implies chars_le(
            name_key(#[trigger] d[i]),
            name_key(d[i + 1]),
        ) by {
            assert(d[i] == s[i] && d[i + 1] == s[i + 1]);
        }
        lemma_insert_sorted(d, r);
        lemma_insert_shape(d, r);
        lemma_chars_le_total(name_key(s.last()), name_key(r));
        let u = insert_by_name(d, r);
        let t = u.push(s.last());
        if u.last() != r {
            assert(s[s.len() - 2] == d.last());
        }
        assert forall|i: int| 0 <= i < t.len() - 1 implies chars_le(
            name_key(#[trigger] t[i]),
            name_key(t[i + 1]),
        ) by {
            if i < u.len() - 1 {
                assert(t[i] == u[i] && t[i + 1] == u[i + 1]);
            } else {
                assert(t[i] == u.last());
            }
        }
    }
}

proof fn lemma_insert_with_key(s: Seq<RecordView>, r: RecordView, k: Seq<char>)
    ensures
        with_key(insert_by_name(s, r), k) == if name_key(r) == k {
            with_key(s, k).push(r)
        } else {
            with_key(s, k)
        },
    decreases s.len(),
{
    if s.len() == 0 {
        assert(seq![r].drop_last() =~= Seq::<RecordView>::empty());
        assert(with_key(s, k) == Seq::<RecordView>::empty());
        assert(with_key(Seq::<RecordView>::empty(), k) == Seq::<RecordView>::empty());
        assert(Seq::<RecordView>::empty().push(r) =~= seq![r]);
        assert(insert_by_name(s, r) == seq![r]);
        assert(seq![r].last() == r);
    } else if chars_le(name_key(s.last()), name_key(r)) {
        assert(s.push(r).drop_last() =~= s);
    } else {
        let d = s.drop_last();
        lemma_insert_with_key(d, r, k);
        lemma_chars_le_refl(name_key(r));
        let u = insert_by_name(d, r);
        assert(u.push(s.last()).drop_last() =~= u);
    }
}

/// The final order is by lower-case name, and records with equal names keep
/// their relative order.
pub proof fn lemma_sort_stable(s: Seq<RecordView>)
    ensures
        sorted_by_name(sort_by_name(s)),
        sort_by_name(s).len() == s.len(),
        forall|k: Seq<char>| #[trigger] with_key(sort_by_name(s), k) == with_key(s, k),
    decreases s.len(),
{
    if s.len() > 0 {
        let d = s.drop_last();
        lemma_sort_stable(d);
        lemma_insert_sorted(sort_by_name(d), s.last());
        lemma_insert_shape(sort_by_name(d), s.last());
        assert forall|k: Seq<char>| #[trigger] with_key(sort_by_name(s), k) == with_key(s, k) by {
            lemma_insert_with_key(sort_by_name(d), s.last(), k);
        }
    }
}


/// Two records agree in every field but the time stamp.
pub open spec fn same_but_time(a: RecordView, b: RecordView) -> bool {
    a.id == b.id && a.name == b.name && a.launch_path == b.launch_path && a.working_directory
        == b.working_directory && a.icon_path == b.icon_path && a.source == b.source
}

/// Two lists of records agree, position by position, in every field but the time stamp.
pub open spec fn all_same_but_time(s: Seq<RecordView>, t: Seq<RecordView>) -> bool {
    s.len() == t.len() && forall|i: int| 0 <= i < s.len() ==> same_but_time(#[trigger] s[i], t[i])
}

/// Two records agree in every field but the time stamp, and their stamps are
/// equal or are the times `n1` and `n2` of the two scans.
pub open spec fn rescanned(a: RecordView, b: RecordView, n1: u64, n2: u64) -> bool {
    same_but_time(a, b) && (a.last_modified == b.last_modified || (a.last_modified == n1
        && b.last_modified == n2))
}

/// Two lists of records are rescans of each other, position by position.
pub open spec fn all_rescanned(s: Seq<RecordView>, t: Seq<RecordView>, n1: u64, n2: u64) -> bool {
    s.len() == t.len() && forall|i: int| 0 <= i < s.len() ==> rescanned(#[trigger] s[i], t[i], n1, n2)
}

proof fn lemma_same_concat(a: Seq<RecordView>, b: Seq<RecordView>, c: Seq<RecordView>, d: Seq<RecordView>, n1: u64, n2: u64)
    requires
        all_rescanned(a, b, n1, n2),
        all_rescanned(c, d, n1, n2),
    ensures
        all_rescanned(a + c, b + d, n1, n2),
{
    assert forall|i: int| 0 <= i < (a + c).len() implies rescanned(#[trigger] (a + c)[i], (b + d)[i], n1, n2) by {
        if i < a.len() {
            assert(rescanned(a[i], b[i], n1, n2));
        } else {
            assert(rescanned(c[i - a.len()], d[i - a.len()], n1, n2));
        }
    }
}

proof fn lemma_same_push(a: Seq<RecordView>, b: Seq<RecordView>, x: RecordView, y: RecordView, n1: u64, n2: u64)
    requires
        all_rescanned(a, b, n1, n2),
        rescanned(x, y, n1, n2),
    ensures
        all_rescanned(a.push(x), b.push(y), n1, n2),
{
    assert forall|i: int| 0 <= i < a.len() + 1 implies rescanned(#[trigger] a.push(x)[i], b.push(y)[i], n1, n2) by {
        if i < a.len() {
            assert(rescanned(a[i], b[i], n1, n2));
        }
    }
}

proof fn lemma_files_same(fs: Seq<ShortcutFile>, src: Seq<char>, env: Seq<(String, String)>, n1: u64, n2: u64)
    ensures
        all_rescanned(files_candidates(fs, src, env, n1), files_candidates(fs, src, env, n2), n1, n2),
    decreases fs.len(),
{
    if fs.len() > 0 {
        lemma_files_same(fs.drop_last(), src, env, n1, n2);
        let a = files_candidates(fs.drop_last(), src, env, n1);
        let b = files_candidates(fs.drop_last(), src, env, n2);
        match crate::scan::file_candidate(fs.last(), src, env, n1) {
            Some(x) => {
                let y = crate::scan::file_candidate(fs.last(), src, env, n2)->0;
                lemma_same_push(a, b, x, y, n1, n2);
            },
            None => {},
        }
    } else {
        assert(files_candidates(fs, src, env, n1) == Seq::<RecordView>::empty());
        assert(files_candidates(fs, src, env, n2) == Seq::<RecordView>::empty());
    }
}

proof fn lemma_entries_same(
    es: Seq<RawUninstallEntry>,
    hive: Hive,
    src: Seq<char>,
    env: Seq<(String, String)>,
    n1: u64,
    n2: u64,
)
    ensures
        all_rescanned(entries_candidates(es, hive, src, env, n1), entries_candidates(es, hive, src, env, n2), n1, n2),
    decreases es.len(),
{
    if es.len() > 0 {
        lemma_entries_same(es.drop_last(), hive, src, env, n1, n2);
        let a = entries_candidates(es.drop_last(), hive, src, env, n1);
        let b = entries_candidates(es.drop_last(), hive, src, env, n2);
        match uninstall_record(es.last(), hive, src, env, n1) {
            Ok(x) => {
                let y = uninstall_record(es.last(), hive, src, env, n2)->Ok_0;
                lemma_same_push(a, b, x, y, n1, n2);
            },
            Err(_) => {},
        }
    } else {
        assert(entries_candidates(es, hive, src, env, n1) == Seq::<RecordView>::empty());
        assert(entries_candidates(es, hive, src, env, n2) == Seq::<RecordView>::empty());
    }
}

proof fn lemma_sources_same(
    ss: Seq<StartMenuSource>,
    rs: Seq<RegistrySource>,
    env: Seq<(String, String)>,
    n1: u64,
    n2: u64,
)
    ensures
        all_rescanned(all_start_menu(ss, env, n1), all_start_menu(ss, env, n2), n1, n2),
        all_rescanned(all_registry(rs, env, n1), all_registry(rs, env, n2), n1, n2),
    decreases ss.len() + rs.len(),
{
    if ss.len() > 0 {
        lemma_sources_same(ss.drop_last(), rs, env, n1, n2);
        let l = ss.last();
        if l.exists {
            lemma_files_same(l.files@, crate::paths::normalized(l.root@), env, n1, n2);
        }
        lemma_same_concat(
            all_start_menu(ss.drop_last(), env, n1),
            all_start_menu(ss.drop_last(), env, n2),
            start_menu_candidates(l, env, n1),
            start_menu_candidates(l, env, n2),
            n1,
            n2,
        );
    } else {
        assert(all_start_menu(ss, env, n1) == Seq::<RecordView>::empty());
        assert(all_start_menu(ss, env, n2) == Seq::<RecordView>::empty());
    }
    if rs.len() > 0 {
        lemma_sources_same(ss, rs.drop_last(), env, n1, n2);
        let l = rs.last();
        match crate::registry::registry_path(l.path@) {
            Ok((h, _)) => match l.entries {
                Some(es) => {
                    lemma_entries_same(es@, h, l.path@, env, n1, n2);
                },
                None => {},
            },
            Err(_) => {},
        }
        lemma_same_concat(
            all_registry(rs.drop_last(), env, n1),
            all_registry(rs.drop_last(), env, n2),
            registry_candidates(l, env, n1),
            registry_candidates(l, env, n2),
            n1,
            n2,
        );
    } else {
        assert(all_registry(rs, env, n1) == Seq::<RecordView>::empty());
        assert(all_registry(rs, env, n2) == Seq::<RecordView>::empty());
    }
}

proof fn lemma_id_index_same(s: Seq<RecordView>, t: Seq<RecordView>, id: Seq<char>, n1: u64, n2: u64)
    requires
        all_rescanned(s, t, n1, n2),
    ensures
        id_index(s, id) == id_index(t, id),
    decreases s.len(),
{
    if s.len() > 0 {
        assert(rescanned(s[s.len() - 1], t[t.len() - 1], n1, n2));
        let d = s.drop_last();
        let e = t.drop_last();
        assert forall|i: int| 0 <= i < d.len() implies rescanned(#[trigger] d[i], e[i], n1, n2) by {
            assert(rescanned(s[i], t[i], n1, n2));
        }
        lemma_id_index_same(d, e, id, n1, n2);
    }
}

proof fn lemma_merged_same(c: Seq<RecordView>, d: Seq<RecordView>, n1: u64, n2: u64)
    requires
        all_rescanned(c, d, n1, n2),
    ensures
        all_rescanned(merged(c), merged(d), n1, n2),
    decreases c.len(),
{
    if c.len() > 0 {
        let c0 = c.drop_last();
        let d0 = d.drop_last();
        assert forall|i: int| 0 <= i < c0.len() implies rescanned(#[trigger] c0[i], d0[i], n1, n2) by {
            assert(rescanned(c[i], d[i], n1, n2));
        }
        lemma_merged_same(c0, d0, n1, n2);
        let x = c.last();
        let y = d.last();
        assert(rescanned(c[c.len() - 1], d[d.len() - 1], n1, n2));
        let m1 = merged(c0);
        let m2 = merged(d0);
        lemma_id_index_same(m1, m2, x.id, n1, n2);
        lemma_id_index(m1, x.id);
        let k = id_index(m1, x.id);
        if k >= 0 {
            assert forall|i: int| 0 <= i < m1.len() implies rescanned(
                #[trigger] m1.update(k, x)[i],
                m2.update(k, y)[i], n1, n2) by {
                if i != k {
                    assert(rescanned(m1[i], m2[i], n1, n2));
                }
            }
        } else {
            lemma_same_push(m1, m2, x, y, n1, n2);
        }
    } else {
        assert(merged(c) == Seq::<RecordView>::empty());
        assert(merged(d) == Seq::<RecordView>::empty());
    }
}

proof fn lemma_insert_same(s: Seq<RecordView>, t: Seq<RecordView>, x: RecordView, y: RecordView, n1: u64, n2: u64)
    requires
        all_rescanned(s, t, n1, n2),
        rescanned(x, y, n1, n2),
    ensures
        all_rescanned(insert_by_name(s, x), insert_by_name(t, y), n1, n2),
    decreases s.len(),
{
    if s.len() == 0 {
        lemma_same_push(s, t, x, y, n1, n2);
        assert(s.push(x) =~= seq![x]);
        assert(t.push(y) =~= seq![y]);
    } else {
        assert(rescanned(s[s.len() - 1], t[t.len() - 1], n1, n2));
        if chars_le(name_key(s.last()), name_key(x)) {
            lemma_same_push(s, t, x, y, n1, n2);
        } else {
            let d = s.drop_last();
            let e = t.drop_last();
            assert forall|i: int| 0 <= i < d.len() implies rescanned(#[trigger] d[i], e[i], n1, n2) by {
                assert(rescanned(s[i], t[i], n1, n2));
            }
            lemma_insert_same(d, e, x, y, n1, n2);
            lemma_same_push(insert_by_name(d, x), insert_by_name(e, y), s.last(), t.last(), n1, n2);
        }
    }
}

proof fn lemma_sort_same(s: Seq<RecordView>, t: Seq<RecordView>, n1: u64, n2: u64)
    requires
        all_rescanned(s, t, n1, n2),
    ensures
        all_rescanned(sort_by_name(s), sort_by_name(t), n1, n2),
    decreases s.len(),
{
    if s.len() > 0 {
        let d = s.drop_last();
        let e = t.drop_last();
        assert forall|i: int| 0 <= i < d.len() implies rescanned(#[trigger] d[i], e[i], n1, n2) by {
            assert(rescanned(s[i], t[i], n1, n2));
        }
        lemma_sort_same(d, e, n1, n2);
        assert(rescanned(s[s.len() - 1], t[t.len() - 1], n1, n2));
        lemma_insert_same(sort_by_name(d), sort_by_name(e), s.last(), t.last(), n1, n2);
    }
}

/// Scanning unchanged sources again gives the same catalog: the same records in
/// the same order, equal in every field but the time stamp; a stamp differs only
/// where each scan put its own time there (an uninstall entry, or a shortcut whose
/// modification time was unreadable).
pub proof fn lemma_rescan_same(
    ss: Seq<StartMenuSource>,
    rs: Seq<RegistrySource>,
    env: Seq<(String, String)>,
    now1: u64,
    now2: u64,
)
    ensures
        all_same_but_time(scan_result(ss, rs, env, now1), scan_result(ss, rs, env, now2)),
        all_rescanned(scan_result(ss, rs, env, now1), scan_result(ss, rs, env, now2), now1, now2),
{
    let n1 = now1;
    let n2 = now2;
    lemma_sources_same(ss, rs, env, now1, now2);
    lemma_same_concat(
        all_start_menu(ss, env, now1),
        all_start_menu(ss, env, now2),
        all_registry(rs, env, now1),
        all_registry(rs, env, now2),
        n1,
        n2,
    );
    let c1 = crate::scan::all_candidates(ss, rs, env, now1);
    let c2 = crate::scan::all_candidates(ss, rs, env, now2);
    lemma_merged_same(c1, c2, n1, n2);
    lemma_sort_same(merged(c1), merged(c2), n1, n2);
    let a = scan_result(ss, rs, env, now1);
    let b = scan_result(ss, rs, env, now2);
    assert forall|i: int| 0 <= i < a.len() implies same_but_time(#[trigger] a[i], b[i]) by {
        assert(rescanned(a[i], b[i], n1, n2));
    }
}

proof fn lemma_insert_members(s: Seq<RecordView>, r: RecordView)
    ensures
        forall|i: int|
            0 <= i < insert_by_name(s, r).len() ==> #[trigger] insert_by_name(s, r)[i] == r || holds(
                s,
                insert_by_name(s, r)[i],
            ),
    decreases s.len(),
{
    lemma_insert_shape(s, r);
    if s.len() == 0 {
        assert(insert_by_name(s, r) =~= seq![r]);
    } else if chars_le(name_key(s.last()), name_key(r)) {
        let t = s.push(r);
        assert forall|i: int| 0 <= i < t.len() implies #[trigger] t[i] == r || holds(s, t[i]) by {
            if i < s.len() {
                assert(t[i] == s[i]);
            }
        }
    } else {
        let d = s.drop_last();
        lemma_insert_members(d, r);
        lemma_insert_shape(d, r);
        let u = insert_by_name(d, r);
        let t = u.push(s.last());
        assert forall|i: int| 0 <= i < t.len() implies #[trigger] t[i] == r || holds(s, t[i]) by {
            if i < u.len() {
                assert(t[i] == u[i]);
                if u[i] != r {
                    let k = choose|k: int| 0 <= k < d.len() && d[k] == u[i];
                    assert(s[k] == d[k]);
                }
            } else {
                assert(t[i] == s[s.len() - 1]);
            }
        }
    }
}

proof fn lemma_sort_members(s: Seq<RecordView>)
    ensures
        forall|i: int| 0 <= i < sort_by_name(s).len() ==> holds(s, #[trigger] sort_by_name(s)[i]),
    decreases s.len(),
{
    if s.len() > 0 {
        let d = s.drop_last();
        lemma_sort_members(d);
        lemma_insert_members(sort_by_name(d), s.last());
        let t = sort_by_name(s);
        assert forall|i: int| 0 <= i < t.len() implies holds(s, #[trigger] t[i]) by {
            if t[i] == s.last() {
                assert(s[s.len() - 1] == t[i]);
            } else {
                assert(holds(sort_by_name(d), t[i]));
                let k = choose|k: int| 0 <= k < sort_by_name(d).len() && sort_by_name(d)[k] == t[i];
                assert(holds(d, sort_by_name(d)[k]));
                let m = choose|m: int| 0 <= m < d.len() && d[m] == sort_by_name(d)[k];
                assert(s[m] == d[m]);
            }
        }
    }
}

proof fn lemma_insert_unique(s: Seq<RecordView>, r: RecordView)
    requires
        ids_unique(s),
        forall|i: int| 0 <= i < s.len() ==> s[i].id != r.id,
    ensures
        ids_unique(insert_by_name(s, r)),
    decreases s.len(),
{
    lemma_insert_shape(s, r);
    if s.len() == 0 {
        assert(insert_by_name(s, r) =~= seq![r]);
    } else if chars_le(name_key(s.last()), name_key(r)) {
        let t = s.push(r);
        assert forall|a: int, b: int| 0 <= a < t.len() && 0 <= b < t.len() && a != b implies t[a].id
            != t[b].id by {
            if a < s.len() && b < s.len() {
                assert(s[a].id != s[b].id);
            }
        }
    } else {
        let d = s.drop_last();
        assert forall|a: int, b: int| 0 <= a < d.len() && 0 <= b < d.len() && a != b implies d[a].id
            != d[b].id by {
            assert(s[a].id != s[b].id);
        }
        assert forall|i: int| 0 <= i < d.len() implies d[i].id != r.id by {
            assert(s[i] == d[i]);
        }
        lemma_insert_unique(d, r);
        lemma_insert_members(d, r);
        lemma_insert_shape(d, r);
        let u = insert_by_name(d, r);
        let t = u.push(s.last());
        let l = s.last();
        assert forall|i: int| 0 <= i < u.len() implies u[i].id != l.id by {
            if u[i] == r {
                assert(s[s.len() - 1].id != r.id);
            } else {
                assert(holds(d, u[i]));
                let k = choose|k: int| 0 <= k < d.len() && d[k] == u[i];
                assert(s[k] == d[k]);
                assert(s[k].id != s[s.len() - 1].id);
            }
        }
        assert forall|a: int, b: int| 0 <= a < t.len() && 0 <= b < t.len() && a != b implies t[a].id
            != t[b].id by {
            if a < u.len() && b < u.len() {
                assert(t[a] == u[a] && t[b] == u[b]);
            } else if a < u.len() {
                assert(t[a] == u[a]);
            } else if b < u.len() {
                assert(t[b] == u[b]);
            }
        }
    }
}

proof fn lemma_sort_unique(s: Seq<RecordView>)
    requires
        ids_unique(s),
    ensures
        ids_unique(sort_by_name(s)),
    decreases s.len(),
{
    if s.len() > 0 {
        let d = s.drop_last();
        assert forall|a: int, b: int| 0 <= a < d.len() && 0 <= b < d.len() && a != b implies d[a].id
            != d[b].id by {
            assert(s[a].id != s[b].id);
        }
        lemma_sort_unique(d);
        lemma_sort_members(d);
        let sd = sort_by_name(d);
        assert forall|i: int| 0 <= i < sd.len() implies sd[i].id != s.last().id by {
            assert(holds(d, sd[i]));
            let k = choose|k: int| 0 <= k < d.len() && d[k] == sd[i];
            assert(s[k] == d[k]);
            assert(s[k].id != s[s.len() - 1].id);
        }
        lemma_insert_unique(sd, s.last());
    }
}

/// No two records of a scan's catalog share an id.
pub proof fn lemma_catalog_ids_unique(
    ss: Seq<StartMenuSource>,
    rs: Seq<RegistrySource>,
    env: Seq<(String, String)>,
    now: u64,
)
    ensures
        ids_unique(scan_result(ss, rs, env, now)),
{
    let c = crate::scan::all_candidates(ss, rs, env, now);
    lemma_merge_last_wins(c);
    lemma_sort_unique(merged(c));
}


proof fn lemma_chars_le_trans(a: Seq<char>, b: Seq<char>, c: Seq<char>)
    requires
        chars_le(a, b),
        chars_le(b, c),
    ensures
        chars_le(a, c),
    decreases a.len(),
{
    if a.len() > 0 && b.len() > 0 && c.len() > 0 && (a[0] as u32) == (b[0] as u32) && (b[0] as u32)
        == (c[0] as u32) {
        lemma_chars_le_trans(a.drop_first(), b.drop_first(), c.drop_first());
    }
}

proof fn lemma_sorted_all_pairs(s: Seq<RecordView>)
    requires
        sorted_by_name(s),
    ensures
        forall|i: int, j: int|
            0 <= i < j < s.len() ==> chars_le(name_key(#[trigger] s[i]), name_key(#[trigger] s[j])),
    decreases s.len(),
{
    if s.len() > 0 {
        let d = s.drop_last();
        assert forall|i: int| 0 <= i < d.len() - 1 implies chars_le(
            name_key(#[trigger] d[i]),
            name_key(d[i + 1]),
        ) by {
            assert(d[i] == s[i] && d[i + 1] == s[i + 1]);
        }
        lemma_sorted_all_pairs(d);
        assert forall|i: int, j: int| 0 <= i < j < s.len() implies chars_le(
            name_key(#[trigger] s[i]),
            name_key(#[trigger] s[j]),
        ) by {
            if j < s.len() - 1 {
                assert(d[i] == s[i] && d[j] == s[j]);
            } else if i < j - 1 {
                assert(d[i] == s[i] && d[j - 1] == s[j - 1]);
                assert(chars_le(name_key(s[j - 1]), name_key(s[j])));
                lemma_chars_le_trans(name_key(s[i]), name_key(s[j - 1]), name_key(s[j]));
            } else {
                assert(chars_le(name_key(s[i]), name_key(s[i + 1])));
            }
        }
    }
}

proof fn lemma_insert_multiset(s: Seq<RecordView>, r: RecordView)
    ensures
        insert_by_name(s, r).to_multiset() =~= s.to_multiset().insert(r),
    decreases s.len(),
{
    broadcast use vstd::seq_lib::group_to_multiset_ensures;

    if s.len() == 0 {
        assert(insert_by_name(s, r) =~= s.push(r));
    } else if chars_le(name_key(s.last()), name_key(r)) {
    } else {
        let d = s.drop_last();
        lemma_insert_multiset(d, r);
        assert(d.push(s.last()) =~= s);
    }
}

proof fn lemma_sort_multiset(s: Seq<RecordView>)
    ensures
        sort_by_name(s).to_multiset() =~= s.to_multiset(),
    decreases s.len(),
{
    broadcast use vstd::seq_lib::group_to_multiset_ensures;

    if s.len() > 0 {
        let d = s.drop_last();
        lemma_sort_multiset(d);
        lemma_insert_multiset(sort_by_name(d), s.last());
        assert(d.push(s.last()) =~= s);
    }
}

/// The catalog of a scan is the merged catalog reordered: it holds the same
/// records, every record's lower-case name is at most every later one's, and the
/// records with one lower-case name come in the order in which their ids were
/// first inserted.
pub proof fn lemma_scan_sorted_stable(
    ss: Seq<StartMenuSource>,
    rs: Seq<RegistrySource>,
    env: Seq<(String, String)>,
    now: u64,
)
    ensures
        scan_result(ss, rs, env, now).to_multiset() == merged(
            crate::scan::all_candidates(ss, rs, env, now),
        ).to_multiset(),
        forall|i: int, j: int|
            0 <= i < j < scan_result(ss, rs, env, now).len() ==> chars_le(
                name_key(#[trigger] scan_result(ss, rs, env, now)[i]),
                name_key(#[trigger] scan_result(ss, rs, env, now)[j]),
            ),
        forall|k: Seq<char>|
            #[trigger] with_key(scan_result(ss, rs, env, now), k) == with_key(
                merged(crate::scan::all_candidates(ss, rs, env, now)),
                k,
            ),
{
    let m = merged(crate::scan::all_candidates(ss, rs, env, now));
    lemma_sort_multiset(m);
    lemma_sort_stable(m);
    lemma_sorted_all_pairs(sort_by_name(m));
}

/// In the catalog of a scan the later candidate wins on an id collision: each
/// candidate that no later candidate shares an id with is in the catalog, it is
/// the only record there with its id, and every record is such a candidate.
pub proof fn lemma_scan_last_wins(
    ss: Seq<StartMenuSource>,
    rs: Seq<RegistrySource>,
    env: Seq<(String, String)>,
    now: u64,
)
    ensures
        ids_unique(scan_result(ss, rs, env, now)),
        forall|i: int|
            #[trigger] is_last_of_id(crate::scan::all_candidates(ss, rs, env, now), i) ==> holds(
                scan_result(ss, rs, env, now),
                crate::scan::all_candidates(ss, rs, env, now)[i],
            ),
        forall|k: int|
            0 <= k < scan_result(ss, rs, env, now).len() ==> is_last_candidate(
                crate::scan::all_candidates(ss, rs, env, now),
                #[trigger] scan_result(ss, rs, env, now)[k],
            ),
{
    broadcast use vstd::seq_lib::group_to_multiset_ensures;

    let c = crate::scan::all_candidates(ss, rs, env, now);
    let m = merged(c);
    let out = scan_result(ss, rs, env, now);
    lemma_merge_last_wins(c);
    lemma_catalog_ids_unique(ss, rs, env, now);
    lemma_sort_multiset(m);
    lemma_sort_members(m);
    assert forall|i: int| #[trigger] is_last_of_id(c, i) implies holds(out, c[i]) by {
        assert(holds(m, c[i]));
        let k = choose|k: int| 0 <= k < m.len() && m[k] == c[i];
        assert(m.contains(c[i]));
        assert(m.to_multiset().count(c[i]) > 0);
        assert(out.contains(c[i]));
    }
    assert forall|k: int| 0 <= k < out.len() implies is_last_candidate(c, #[trigger] out[k]) by {
        assert(holds(m, out[k]));
        let p = choose|p: int| 0 <= p < m.len() && m[p] == out[k];
        assert(is_last_candidate(c, m[p]));
    }
}


/// Records of `out` with equal lower-case names come in their order in `s`.
pub open spec fn keeps_order_of(out: Seq<RecordView>, s: Seq<RecordView>) -> bool {
    forall|a: int, b: int|
        0 <= a < b < out.len() && name_key(out[a]) == name_key(out[b]) ==> exists|p: int, q: int|
            0 <= p < q < s.len() && #[trigger] s[p] == out[a] && #[trigger] s[q] == out[b]
}

proof fn lemma_insert_split(s: Seq<RecordView>, r: RecordView) -> (j: int)
    ensures
        0 <= j <= s.len(),
        insert_by_name(s, r) == s.take(j) + seq![r] + s.skip(j),
        forall|x: int| j <= x < s.len() ==> !chars_le(name_key(#[trigger] s[x]), name_key(r)),
    decreases s.len(),
{
    if s.len() == 0 {
        assert(insert_by_name(s, r) =~= s.take(0) + seq![r] + s.skip(0));
        0
    } else if chars_le(name_key(s.last()), name_key(r)) {
        assert(insert_by_name(s, r) =~= s.take(s.len() as int) + seq![r] + s.skip(s.len() as int));
        s.len() as int
    } else {
        let d = s.drop_last();
        let j = lemma_insert_split(d, r);
        assert(insert_by_name(s, r) =~= s.take(j) + seq![r] + s.skip(j));
        assert forall|x: int| j <= x < s.len() implies !chars_le(name_key(#[trigger] s[x]), name_key(r)) by {
            if x < d.len() {
                assert(d[x] == s[x]);
            }
        }
        j
    }
}

proof fn lemma_sort_keeps_order(s: Seq<RecordView>)
    ensures
        keeps_order_of(sort_by_name(s), s),
    decreases s.len(),
{
    if s.len() > 0 {
        let d = s.drop_last();
        let r = s.last();
        let t = sort_by_name(d);
        lemma_sort_keeps_order(d);
        lemma_sort_members(d);
        lemma_chars_le_refl(name_key(r));
        let j = lemma_insert_split(t, r);
        let u = insert_by_name(t, r);
        assert(u.len() == t.len() + 1);
        assert forall|a: int, b: int|
            0 <= a < b < u.len() && name_key(u[a]) == name_key(u[b]) implies exists|p: int, q: int|
                0 <= p < q < s.len() && #[trigger] s[p] == u[a] && #[trigger] s[q] == u[b] by {
            if a == j {
                assert(u[b] == t[b - 1]);
                assert(!chars_le(name_key(t[b - 1]), name_key(r)));
            } else if b == j {
                assert(u[a] == t[a]);
                assert(holds(d, t[a]));
                let p = choose|p: int| 0 <= p < d.len() && d[p] == t[a];
                assert(s[p] == d[p]);
                assert(s[s.len() - 1] == u[b]);
            } else {
                let a2 = if a < j { a } else { a - 1 };
                let b2 = if b < j { b } else { b - 1 };
                assert(u[a] == t[a2]);
                assert(u[b] == t[b2]);
                assert(a2 < b2);
                let (p, q) = choose|p: int, q: int|
                    0 <= p < q < d.len() && #[trigger] d[p] == t[a2] && #[trigger] d[q] == t[b2];
                assert(s[p] == d[p] && s[q] == d[q]);
            }
        }
    }
}

/// Records of a scan's catalog with equal lower-case names keep the order of the
/// merged catalog, which is the order in which their ids were first inserted.
pub proof fn lemma_scan_ties_keep_order(
    ss: Seq<StartMenuSource>,
    rs: Seq<RegistrySource>,
    env: Seq<(String, String)>,
    now: u64,
)
    ensures
        keeps_order_of(
            scan_result(ss, rs, env, now),
            merged(crate::scan::all_candidates(ss, rs, env, now)),
        ),
{
    lemma_sort_keeps_order(merged(crate::scan::all_candidates(ss, rs, env, now)));
}


/// Every shortcut file under every root has a readable modification time.
pub open spec fn all_times_known(ss: Seq<StartMenuSource>) -> bool {
    forall|i: int, j: int|
        0 <= i < ss.len() && 0 <= j < ss[i].files@.len() ==> (#[trigger] ss[i].files@[j]).modified is Some
}

proof fn lemma_files_time_free(fs: Seq<ShortcutFile>, src: Seq<char>, env: Seq<(String, String)>, n1: u64, n2: u64)
    requires
        forall|j: int| 0 <= j < fs.len() ==> (#[trigger] fs[j]).modified is Some,
    ensures
        files_candidates(fs, src, env, n1) == files_candidates(fs, src, env, n2),
    decreases fs.len(),
{
    if fs.len() > 0 {
        let d = fs.drop_last();
        assert forall|j: int| 0 <= j < d.len() implies (#[trigger] d[j]).modified is Some by {
            assert(d[j] == fs[j]);
        }
        lemma_files_time_free(d, src, env, n1, n2);
        assert(fs[fs.len() - 1].modified is Some);
    }
}

proof fn lemma_start_menu_time_free(ss: Seq<StartMenuSource>, env: Seq<(String, String)>, n1: u64, n2: u64)
    requires
        all_times_known(ss),
    ensures
        all_start_menu(ss, env, n1) == all_start_menu(ss, env, n2),
    decreases ss.len(),
{
    if ss.len() > 0 {
        let d = ss.drop_last();
        assert forall|i: int, j: int| 0 <= i < d.len() && 0 <= j < d[i].files@.len() implies (
        #[trigger] d[i].files@[j]).modified is Some by {
            assert(d[i] == ss[i]);
        }
        lemma_start_menu_time_free(d, env, n1, n2);
        let l = ss.last();
        assert forall|j: int| 0 <= j < l.files@.len() implies (#[trigger] l.files@[j]).modified is Some by {
            assert(ss[ss.len() - 1].files@[j] == l.files@[j]);
        }
        lemma_files_time_free(l.files@, crate::paths::normalized(l.root@), env, n1, n2);
    }
}

/// Where every shortcut file has a readable modification time, the records of the
/// start-menu sources do not depend on the scan time: a rescan of start-menu
/// sources alone gives the very same catalog, time stamps included.
pub proof fn lemma_rescan_keeps_file_times(
    ss: Seq<StartMenuSource>,
    rs: Seq<RegistrySource>,
    env: Seq<(String, String)>,
    now1: u64,
    now2: u64,
)
    requires
        all_times_known(ss),
    ensures
        all_start_menu(ss, env, now1) == all_start_menu(ss, env, now2),
        rs.len() == 0 ==> scan_result(ss, rs, env, now1) == scan_result(ss, rs, env, now2),
{
    lemma_start_menu_time_free(ss, env, now1, now2);
    if rs.len() == 0 {
        assert(all_registry(rs, env, now1) == Seq::<RecordView>::empty());
        assert(all_registry(rs, env, now2) == Seq::<RecordView>::empty());
    }
}

} // verus!
