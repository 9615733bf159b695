//! Path-string normalization.
use vstd::prelude::*;
use crate::envvars::{expand, expand_chars};
use crate::text::{
    chars_of, eq_ignore_case, push_all, seq_eq_ci, slice_chars, string_from_chars, trim_chars,
    trim_quotes, trim_ws,
};

verus! {

/// `c` with a backslash turned into a forward slash.
pub open spec fn slash_of(c: char) -> char {
    if c == '\\' { '/' } else { c }
}

/// `p` with every backslash replaced by a forward slash.
pub open spec fn normalized(p: Seq<char>) -> Seq<char> {
    p.map_values(|c: char| slash_of(c))
}

/// Replaces every backslash of `path` with a forward slash; touches no file system.
pub fn normalize_path(path: &str) -> (r: String)
    ensures
        r@ == normalized(path@),
{
    let cs = chars_of(path);
    let mut out: Vec<char> = Vec::new();
    let mut i: usize = 0;
    while i < cs.len()
        invariant
            i <= cs@.len(),
            cs@ == path@,
            out@ == normalized(cs@.take(i as int)),
        decreases cs@.len() - i,
    {
        let c = cs[i];
        out.push(if c == '\\' { '/' } else { c });
        i = i + 1;
        assert(cs@.take(i as int) == cs@.take(i - 1).push(c));
        assert(out@ =~= normalized(cs@.take(i as int)));
    }
    assert(cs@.take(cs@.len() as int) == cs@);
    string_from_chars(&out)
}


/// A path separator: either slash.
pub open spec fn is_sep(c: char) -> bool {
    c == '/' || c == '\\'
}

/// The characters searched for: a dot, or a separator.
pub open spec fn marks(c: char, dot: bool) -> bool {
    if dot {
        c == '.'
    } else {
        is_sep(c)
    }
}

/// Index of the last character of `p` that `dot` selects, or -1.
pub open spec fn last_mark(p: Seq<char>, dot: bool) -> int
    decreases p.len(),
{
    if p.len() == 0 {
        -1
    } else if marks(p.last(), dot) {
        p.len() - 1
    } else {
        last_mark(p.drop_last(), dot)
    }
}

proof fn lemma_last_mark_bounds(p: Seq<char>, dot: bool)
    ensures
        -1 <= last_mark(p, dot) < p.len(),
        last_mark(p, dot) >= 0 ==> marks(p[last_mark(p, dot)], dot),
    decreases p.len(),
{
    if p.len() > 0 && !marks(p.last(), dot) {
        lemma_last_mark_bounds(p.drop_last(), dot);
    }
}

/// The last component of `p`, trailing separators aside: what follows its last
/// separator; empty where `p` is only separators or a drive.
pub open spec fn file_name(p: Seq<char>) -> Seq<char> {
    let q = trim_trailing_seps(p);
    if is_drive(q) {
        seq![]
    } else {
        q.subrange(last_mark(q, false) + 1, q.len() as int)
    }
}

/// What follows the last dot of the file name, where that dot is not its first character.
pub open spec fn extension(p: Seq<char>) -> Option<Seq<char>> {
    let n = file_name(p);
    let d = last_mark(n, true);
    if d > 0 {
        Some(n.subrange(d + 1, n.len() as int))
    } else {
        None
    }
}

/// The file name without its extension; none where the file name is empty.
pub open spec fn file_stem(p: Seq<char>) -> Option<Seq<char>> {
    let n = file_name(p);
    let d = last_mark(n, true);
    if n.len() == 0 {
        None
    } else if d > 0 {
        Some(n.subrange(0, d))
    } else {
        Some(n)
    }
}

/// An ASCII letter.
pub open spec fn is_ascii_alpha(c: char) -> bool {
    ('A' <= c && c <= 'Z') || ('a' <= c && c <= 'z')
}

/// `s` starts with a drive designator: a letter and a colon (`C:`).
pub open spec fn has_drive(s: Seq<char>) -> bool {
    s.len() >= 2 && is_ascii_alpha(s[0]) && s[1] == ':'
}

/// A drive designator and nothing else.
pub open spec fn is_drive(s: Seq<char>) -> bool {
    s.len() == 2 && has_drive(s)
}

/// `p` without its trailing separators.
pub open spec fn trim_trailing_seps(p: Seq<char>) -> Seq<char>
    decreases p.len(),
{
    if p.len() > 0 && is_sep(p.last()) {
        trim_trailing_seps(p.drop_last())
    } else {
        p
    }
}

/// The directory that holds `p`, trailing separators aside: what precedes its
/// last separator, keeping that separator where it is a root (`/`, `C:/`); empty
/// for a bare file name; none for a path that is empty, a root or a drive.
pub open spec fn parent(p: Seq<char>) -> Option<Seq<char>> {
    let q = trim_trailing_seps(p);
    let k = last_mark(q, false);
    if q.len() == 0 || is_drive(q) {
        None
    } else if k < 0 {
        Some(seq![])
    } else if k == 0 || is_drive(q.subrange(0, k)) {
        Some(q.subrange(0, k + 1))
    } else {
        Some(q.subrange(0, k))
    }
}

/// A path that names its location fully: a drive with a root (`C:\`), or a share (`\\`).
pub open spec fn is_absolute(p: Seq<char>) -> bool {
    (has_drive(p) && p.len() >= 3 && is_sep(p[2])) || (p.len() >= 2 && is_sep(p[0]) && is_sep(
        p[1],
    ))
}

/// The first position at or after `i` that holds a separator, or the length of `s`.
pub open spec fn next_sep(s: Seq<char>, i: int) -> int
    decreases s.len() - i,
{
    if i < 0 || i >= s.len() {
        s.len() as int
    } else if is_sep(s[i]) {
        i
    } else {
        next_sep(s, i + 1)
    }
}

/// The length of the prefix of `p`: 2 for a drive (`C:`), the length of
/// `\\server\share` for a share, otherwise 0 (also for the verbatim `\\?\` and
/// device `\\.\` forms, which are not taken apart).
pub open spec fn prefix_len(p: Seq<char>) -> int {
    if has_drive(p) {
        2
    } else if p.len() >= 3 && is_sep(p[0]) && is_sep(p[1]) && p[2] != '?' && p[2] != '.' {
        let s1 = next_sep(p, 2);
        let s2 = next_sep(p, s1 + 1);
        if 2 < s1 < p.len() && s2 > s1 + 1 {
            s2
        } else {
            0
        }
    } else {
        0
    }
}

/// `rel` placed under the directory `dir`, as a Windows path is pushed onto
/// another: a `rel` with a prefix replaces `dir`; a `rel` that starts at a root
/// keeps only the prefix of `dir`; otherwise a separator joins them unless `dir`
/// is empty, ends in a separator, or is a bare drive.
pub open spec fn join(dir: Seq<char>, rel: Seq<char>) -> Seq<char> {
    if prefix_len(rel) > 0 {
        rel
    } else if rel.len() > 0 && is_sep(rel[0]) {
        dir.take(prefix_len(dir)) + rel
    } else if dir.len() == 0 || is_sep(dir.last()) || is_drive(dir) {
        dir + rel
    } else {
        dir + seq!['\\'] + rel
    }
}

/// `candidate`, expanded, taken relative to the directory of the file `base` unless
/// it is absolute, and normalized.
pub open spec fn resolved(base: Seq<char>, candidate: Seq<char>, env: Seq<(String, String)>) -> Seq<
    char,
> {
    let e = expand(candidate, env);
    if is_absolute(e) {
        normalized(e)
    } else {
        match parent(base) {
            Some(d) => normalized(join(d, e)),
            None => normalized(e),
        }
    }
}

/// Extensions of launchable files.
pub open spec fn is_executable(p: Seq<char>) -> bool {
    match extension(p) {
        Some(e) => seq_eq_ci(e, "exe"@) || seq_eq_ci(e, "lnk"@) || seq_eq_ci(e, "bat"@) || seq_eq_ci(
            e,
            "cmd"@,
        ),
        None => false,
    }
}

/// A shortcut file: its extension is `lnk` in any case.
pub open spec fn is_shortcut(p: Seq<char>) -> bool {
    match extension(p) {
        Some(e) => seq_eq_ci(e, "lnk"@),
        None => false,
    }
}

fn is_mark(c: char, dot: bool) -> (r: bool)
    ensures
        r == marks(c, dot),
{
    if dot {
        c == '.'
    } else {
        c == '/' || c == '\\'
    }
}

fn find_last_mark(p: &Vec<char>, dot: bool) -> (r: Option<usize>)
    ensures
        match r {
            Some(k) => last_mark(p@, dot) == k as int,
            None => last_mark(p@, dot) == -1,
        },
{
    let mut j: usize = p.len();
    assert(p@.take(j as int) =~= p@);
    while j > 0
        invariant
            j <= p@.len(),
            last_mark(p@, dot) == last_mark(p@.take(j as int), dot),
        decreases j,
    {
        let ghost t = p@.take(j as int);
        assert(t.last() == p@[j - 1]);
        if is_mark(p[j - 1], dot) {
            return Some(j - 1);
        }
        assert(t.drop_last() =~= p@.take(j - 1));
        j = j - 1;
    }
    None
}

/// Length of `p` without its trailing separators.
fn trimmed_len(p: &Vec<char>) -> (r: usize)
    ensures
        r <= p@.len(),
        p@.take(r as int) == trim_trailing_seps(p@),
{
    let mut n = p.len();
    assert(p@.take(n as int) =~= p@);
    while n > 0 && is_mark(p[n - 1], false)
        invariant
            n <= p@.len(),
            trim_trailing_seps(p@) == trim_trailing_seps(p@.take(n as int)),
        decreases n,
    {
        assert(p@.take(n as int).drop_last() =~= p@.take(n - 1));
        n = n - 1;
    }
    assert(trim_trailing_seps(p@.take(n as int)) == p@.take(n as int));
    n
}

fn is_letter(c: char) -> (r: bool)
    ensures
        r == is_ascii_alpha(c),
{
    ('A' <= c && c <= 'Z') || ('a' <= c && c <= 'z')
}

/// Whether `p` starts with a drive designator.
fn starts_with_drive(p: &Vec<char>) -> (r: bool)
    ensures
        r == has_drive(p@),
{
    p.len() >= 2 && is_letter(p[0]) && p[1] == ':'
}

/// The file name of `p`.
fn file_name_of(p: &Vec<char>) -> (r: Vec<char>)
    ensures
        r@ == file_name(p@),
{
    let n = trimmed_len(p);
    let q = slice_chars(p, 0, n);
    assert(q@ =~= p@.take(n as int));
    if n == 2 && starts_with_drive(&q) {
        return Vec::new();
    }
    proof {
        lemma_last_mark_bounds(q@, false);
    }
    let start = match find_last_mark(&q, false) {
        Some(k) => k + 1,
        None => 0,
    };
    slice_chars(&q, start, n)
}

/// The extension of the path `p`, if it has one.
pub fn extension_of(p: &Vec<char>) -> (r: Option<Vec<char>>)
    ensures
        match r {
            Some(e) => extension(p@) == Some(e@),
            None => extension(p@).is_none(),
        },
{
    let n = file_name_of(p);
    let nl = n.len();
    proof {
        lemma_last_mark_bounds(n@, true);
    }
    match find_last_mark(&n, true) {
        Some(d) => {
            assert(d < nl);
            if d > 0 {
                Some(slice_chars(&n, d + 1, n.len()))
            } else {
                None
            }
        },
        None => None,
    }
}

/// The file stem of the path `p`, if it has a file name.
pub fn file_stem_of(p: &Vec<char>) -> (r: Option<Vec<char>>)
    ensures
        match r {
            Some(e) => file_stem(p@) == Some(e@),
            None => file_stem(p@).is_none(),
        },
{
    let n = file_name_of(p);
    if n.len() == 0 {
        return None;
    }
    proof {
        lemma_last_mark_bounds(n@, true);
    }
    match find_last_mark(&n, true) {
        Some(d) => {
            if d > 0 {
                Some(slice_chars(&n, 0, d))
            } else {
                Some(n)
            }
        },
        None => Some(n),
    }
}

/// The directory that holds the path `p`, if any.
pub fn parent_of(p: &Vec<char>) -> (r: Option<Vec<char>>)
    ensures
        match r {
            Some(d) => parent(p@) == Some(d@),
            None => parent(p@).is_none(),
        },
{
    let n = trimmed_len(p);
    let q = slice_chars(p, 0, n);
    assert(q@ =~= p@.take(n as int));
    if n == 0 || (n == 2 && starts_with_drive(&q)) {
        return None;
    }
    proof {
        lemma_last_mark_bounds(q@, false);
    }
    match find_last_mark(&q, false) {
        None => Some(Vec::new()),
        Some(k) => {
            let head = slice_chars(&q, 0, k);
            if k == 0 || (k == 2 && starts_with_drive(&head)) {
                Some(slice_chars(&q, 0, k + 1))
            } else {
                Some(slice_chars(&q, 0, k))
            }
        },
    }
}

/// Whether the path `p` is absolute.
pub fn is_absolute_path(p: &Vec<char>) -> (r: bool)
    ensures
        r == is_absolute(p@),
{
    (starts_with_drive(p) && p.len() >= 3 && is_mark(p[2], false)) || (p.len() >= 2 && is_mark(
        p[0],
        false,
    ) && is_mark(p[1], false))
}

/// The first position at or after `i` that holds a separator, or the length of `p`.
fn find_next_sep(p: &Vec<char>, i: usize) -> (r: usize)
    requires
        i <= p@.len(),
    ensures
        r as int == next_sep(p@, i as int),
        i <= r <= p@.len(),
{
    let mut k = i;
    while k < p.len() && !is_mark(p[k], false)
        invariant
            i <= k <= p@.len(),
            next_sep(p@, i as int) == next_sep(p@, k as int),
        decreases p@.len() - k,
    {
        k = k + 1;
    }
    k
}

/// The length of the prefix of `p`.
fn prefix_length(p: &Vec<char>) -> (r: usize)
    ensures
        r as int == prefix_len(p@),
        r <= p@.len(),
{
    if starts_with_drive(p) {
        return 2;
    }
    if p.len() >= 3 && is_mark(p[0], false) && is_mark(p[1], false) && p[2] != '?' && p[2] != '.' {
        let s1 = find_next_sep(p, 2);
        if 2 < s1 && s1 < p.len() {
            let s2 = find_next_sep(p, s1 + 1);
            if s2 > s1 + 1 {
                return s2;
            }
        }
    }
    0
}

/// `rel` placed under the directory `dir`.
pub fn join_path(dir: &Vec<char>, rel: &Vec<char>) -> (r: Vec<char>)
    ensures
        r@ == join(dir@, rel@),
{
    if prefix_length(rel) > 0 {
        return slice_chars(rel, 0, rel.len());
    }
    let mut out: Vec<char> = Vec::new();
    if rel.len() > 0 && is_mark(rel[0], false) {
        let keep = prefix_length(dir);
        out = slice_chars(dir, 0, keep);
        assert(out@ =~= dir@.take(keep as int));
    } else {
        push_all(&mut out, dir);
        if dir.len() > 0 && !is_mark(dir[dir.len() - 1], false) && !(dir.len() == 2
            && starts_with_drive(dir)) {
            out.push('\\');
        }
    }
    push_all(&mut out, rel);
    assert(out@ =~= join(dir@, rel@));
    out
}

/// `p` with every backslash replaced by a forward slash.
pub fn normalize_chars(p: &Vec<char>) -> (r: Vec<char>)
    ensures
        r@ == normalized(p@),
{
    let mut out: Vec<char> = Vec::new();
    let mut i: usize = 0;
    while i < p.len()
        invariant
            i <= p@.len(),
            out@ == normalized(p@.take(i as int)),
        decreases p@.len() - i,
    {
        let c = p[i];
        out.push(if c == '\\' { '/' } else { c });
        i = i + 1;
        assert(p@.take(i as int) == p@.take(i - 1).push(c));
        assert(out@ =~= normalized(p@.take(i as int)));
    }
    assert(p@.take(p@.len() as int) == p@);
    out
}

/// Resolves `candidate` against the directory of the file `base`: it is expanded,
/// joined under that directory unless absolute, and normalized.
pub fn resolve_relative_path(base: &Vec<char>, candidate: &Vec<char>, env: &Vec<(String, String)>) -> (r: Vec<char>)
    ensures
        r@ == resolved(base@, candidate@, env@),
{
    let e = expand_chars(candidate, env);
    if is_absolute_path(&e) {
        normalize_chars(&e)
    } else {
        match parent_of(base) {
            Some(d) => {
                let j = join_path(&d, &e);
                normalize_chars(&j)
            },
            None => normalize_chars(&e),
        }
    }
}

/// Whether `path` names a launchable file: its extension is `exe`, `lnk`, `bat` or
/// `cmd`, in any case.
pub fn is_executable_candidate(path: &str) -> (r: bool)
    ensures
        r == is_executable(path@),
{
    let cs = chars_of(path);
    match extension_of(&cs) {
        Some(e) => eq_ignore_case(&e, "exe") || eq_ignore_case(&e, "lnk") || eq_ignore_case(&e, "bat")
            || eq_ignore_case(&e, "cmd"),
        None => false,
    }
}

/// Whether `path` names a shortcut file: its extension is `lnk`, in any case.
pub fn is_shortcut_file(path: &str) -> (r: bool)
    ensures
        r == is_shortcut(path@),
{
    let cs = chars_of(path);
    match extension_of(&cs) {
        Some(e) => eq_ignore_case(&e, "lnk"),
        None => false,
    }
}


/// What precedes the first comma of `s` (all of `s` where it has none).
pub open spec fn before_comma(s: Seq<char>) -> Seq<char>
    decreases s.len(),
{
    if s.len() == 0 || s[0] == ',' {
        seq![]
    } else {
        seq![s[0]] + before_comma(s.drop_first())
    }
}

/// The primary path of a location such as `"C:\App\app.exe",0`: what precedes the
/// first comma, without surrounding white space and quotes; none where that is empty.
pub open spec fn cleaned(s: Seq<char>) -> Option<Seq<char>> {
    let t = trim_ws(trim_quotes(trim_ws(before_comma(s))));
    if t.len() == 0 {
        None
    } else {
        Some(t)
    }
}

/// The primary path of a location that may carry a `,<index>` suffix and quotes.
pub fn clean_path_candidate(input: &Vec<char>) -> (r: Option<Vec<char>>)
    ensures
        match r {
            Some(c) => cleaned(input@) == Some(c@),
            None => cleaned(input@).is_none(),
        },
{
    let mut i: usize = 0;
    assert(input@.skip(0) =~= input@);
    while i < input.len() && input[i] != ','
        invariant
            i <= input@.len(),
            before_comma(input@) == input@.take(i as int) + before_comma(input@.skip(i as int)),
        decreases input@.len() - i,
    {
        let ghost t = input@.skip(i as int);
        assert(t.drop_first() =~= input@.skip(i + 1));
        assert(input@.take(i + 1) =~= input@.take(i as int) + seq![t[0]]);
        i = i + 1;
    }
    assert(before_comma(input@.skip(i as int)) =~= seq![]);
    assert(input@.take(i as int) + seq![] =~= input@.take(i as int));
    let primary = slice_chars(input, 0, i);
    let a = trim_chars(&primary, false);
    let b = trim_chars(&a, true);
    let c = trim_chars(&b, false);
    if c.len() == 0 {
        None
    } else {
        Some(c)
    }
}


/// `p` with every forward slash replaced by a backslash.
pub open spec fn backslashed(p: Seq<char>) -> Seq<char> {
    p.map_values(|c: char| if c == '/' { '\\' } else { c })
}

/// The file that an icon location names, in the shell's form: what precedes the
/// first comma, trimmed, expanded, with backslashes.
pub open spec fn shell_icon(s: Seq<char>, env: Seq<(String, String)>) -> Seq<char> {
    backslashed(expand(trim_ws(before_comma(s)), env))
}

/// The file that the icon location `icon_path` (`path` or `path,index`) names,
/// expanded and written with backslashes.
pub fn shell_icon_path(icon_path: &str, env: &Vec<(String, String)>) -> (r: String)
    ensures
        r@ == shell_icon(icon_path@, env@),
{
    let input = chars_of(icon_path);
    let mut i: usize = 0;
    assert(input@.skip(0) =~= input@);
    while i < input.len() && input[i] != ','
        invariant
            i <= input@.len(),
            before_comma(input@) == input@.take(i as int) + before_comma(input@.skip(i as int)),
        decreases input@.len() - i,
    {
        let ghost t = input@.skip(i as int);
        assert(t.drop_first() =~= input@.skip(i + 1));
        assert(input@.take(i + 1) =~= input@.take(i as int) + seq![t[0]]);
        i = i + 1;
    }
    assert(before_comma(input@.skip(i as int)) =~= seq![]);
    assert(input@.take(i as int) + seq![] =~= input@.take(i as int));
    let primary = slice_chars(&input, 0, i);
    let t = trim_chars(&primary, false);
    let e = expand_chars(&t, env);
    let mut out: Vec<char> = Vec::new();
    let mut k: usize = 0;
    while k < e.len()
        invariant
            k <= e@.len(),
            out@ == backslashed(e@.take(k as int)),
        decreases e@.len() - k,
    {
        let c = e[k];
        out.push(if c == '/' { '\\' } else { c });
        k = k + 1;
        assert(e@.take(k as int) == e@.take(k - 1).push(c));
        assert(out@ =~= backslashed(e@.take(k as int)));
    }
    assert(e@.take(e@.len() as int) == e@);
    string_from_chars(&out)
}

} // verus!
