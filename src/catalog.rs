//! Catalog records, the identity-keyed merge of candidates, and the stable
//! name order of the final list.
use vstd::prelude::*;
use crate::text::{chars_at_most, chars_le, chars_of, lower_of, to_lower};

verus! {

/// One launchable application of the catalog.
#[derive(Debug)]
pub struct AppRecord {
    pub id: String,
    pub name: String,
    pub launch_path: String,
    pub working_directory: Option<String>,
    pub icon_path: Option<String>,
    pub source: String,
    pub last_modified: u64,
}

/// The contents of an `AppRecord`, as character sequences.
pub struct RecordView {
    pub id: Seq<char>,
    pub name: Seq<char>,
    pub launch_path: Seq<char>,
    pub working_directory: Option<Seq<char>>,
    pub icon_path: Option<Seq<char>>,
    pub source: Seq<char>,
    pub last_modified: u64,
}

/// The characters of an optional string.
pub open spec fn opt_view(o: Option<String>) -> Option<Seq<char>> {
    match o {
        Some(s) => Some(s@),
        None => None,
    }
}

impl View for AppRecord {
    type V = RecordView;

    open spec fn view(&self) -> RecordView {
        RecordView {
            id: self.id@,
            name: self.name@,
            launch_path: self.launch_path@,
            working_directory: opt_view(self.working_directory),
            icon_path: opt_view(self.icon_path),
            source: self.source@,
            last_modified: self.last_modified,
        }
    }
}

/// The contents of a list of records.
pub open spec fn views(s: Seq<AppRecord>) -> Seq<RecordView> {
    s.map_values(|r: AppRecord| r@)
}

/// Index of the last record of `s` whose id is `id`, or -1.
pub open spec fn id_index(s: Seq<RecordView>, id: Seq<char>) -> int
    decreases s.len(),
{
    if s.len() == 0 {
        -1
    } else if s.last().id == id {
        s.len() - 1
    } else {
        id_index(s.drop_last(), id)
    }
}

/// `s` after inserting `r`: a record with the same id is replaced in place,
/// otherwise `r` is appended.
pub open spec fn upsert(s: Seq<RecordView>, r: RecordView) -> Seq<RecordView> {
    let k = id_index(s, r.id);
    if k >= 0 {
        s.update(k, r)
    } else {
        s.push(r)
    }
}

/// The catalog that inserting the candidates in order builds from nothing.
pub open spec fn merged(cands: Seq<RecordView>) -> Seq<RecordView>
    decreases cands.len(),
{
    if cands.len() == 0 {
        seq![]
    } else {
        upsert(merged(cands.drop_last()), cands.last())
    }
}

/// No two records share an id.
pub open spec fn ids_unique(s: Seq<RecordView>) -> bool {
    forall|i: int, j: int| 0 <= i < s.len() && 0 <= j < s.len() && i != j ==> s[i].id != s[j].id
}

/// The sort key of a record: its name in lower case.
pub open spec fn name_key(r: RecordView) -> Seq<char> {
    lower_of(r.name)
}

/// `r` placed into `s` after every record whose key is at most its own, scanning
/// from the end.
pub open spec fn insert_by_name(s: Seq<RecordView>, r: RecordView) -> Seq<RecordView>
    decreases s.len(),
{
    if s.len() == 0 {
        seq![r]
    } else if chars_le(name_key(s.last()), name_key(r)) {
        s.push(r)
    } else {
        insert_by_name(s.drop_last(), r).push(s.last())
    }
}

/// `s` in the order of its lower-case names, equal names in their order in `s`.
pub open spec fn sort_by_name(s: Seq<RecordView>) -> Seq<RecordView>
    decreases s.len(),
{
    if s.len() == 0 {
        s
    } else {
        insert_by_name(sort_by_name(s.drop_last()), s.last())
    }
}

proof fn lemma_id_index_bounds(s: Seq<RecordView>, id: Seq<char>)
    ensures
        -1 <= id_index(s, id) < s.len(),
        id_index(s, id) >= 0 ==> s[id_index(s, id)].id == id,
        id_index(s, id) < 0 ==> forall|t: int| 0 <= t < s.len() ==> s[t].id != id,
    decreases s.len(),
{
    if s.len() > 0 && s.last().id != id {
        let d = s.drop_last();
        lemma_id_index_bounds(d, id);
        assert forall|t: int| 0 <= t < d.len() implies d[t] == s[t] by {}
    }
}

proof fn lemma_insert_at(s: Seq<RecordView>, r: RecordView, j: int)
    requires
        0 <= j <= s.len(),
        j > 0 ==> chars_le(name_key(s[j - 1]), name_key(r)),
        forall|t: int| j <= t < s.len() ==> !chars_le(name_key(#[trigger] s[t]), name_key(r)),
    ensures
        insert_by_name(s, r) == s.take(j) + seq![r] + s.skip(j),
    decreases s.len(),
{
    if s.len() == j {
        assert(s.take(j) =~= s);
        assert(s.skip(j) =~= seq![]);
        if j == 0 {
            assert(seq![r] =~= s.take(j) + seq![r] + s.skip(j));
        } else {
            assert(s.push(r) =~= s.take(j) + seq![r] + s.skip(j));
        }
    } else {
        let d = s.drop_last();
        assert(!chars_le(name_key(s[s.len() - 1]), name_key(r)));
        lemma_insert_at(d, r, j);
        assert((d.take(j) + seq![r] + d.skip(j)).push(s.last()) =~= s.take(j) + seq![r] + s.skip(
            j,
        ));
    }
}

proof fn lemma_upsert_keeps_unique(s: Seq<RecordView>, r: RecordView)
    requires
        ids_unique(s),
    ensures
        ids_unique(upsert(s, r)),
{
    lemma_id_index_bounds(s, r.id);
    let x = id_index(s, r.id);
    let n = upsert(s, r);
    assert forall|a: int, b: int| 0 <= a < n.len() && 0 <= b < n.len() && a != b implies n[a].id
        != n[b].id by {
        if x >= 0 {
            if a == x {
                assert(s[b].id != s[x].id);
            } else if b == x {
                assert(s[a].id != s[x].id);
            }
        } else {
            if a == s.len() {
                assert(s[b].id != r.id);
            } else if b == s.len() {
                assert(s[a].id != r.id);
            }
        }
    }
}

/// Records merged by id, in order of first insertion.
pub struct Catalog {
    records: Vec<AppRecord>,
}

impl View for Catalog {
    type V = Seq<RecordView>;

    closed spec fn view(&self) -> Seq<RecordView> {
        views(self.records@)
    }
}

impl Catalog {
    /// No two records of the catalog share an id.
    pub open spec fn wf(&self) -> bool {
        ids_unique(self@)
    }

    /// An empty catalog.
    pub fn new() -> (r: Catalog)
        ensures
            r@ == Seq::<RecordView>::empty(),
            r.wf(),
    {
        let r = Catalog { records: Vec::new() };
        assert(r@ =~= Seq::<RecordView>::empty());
        r
    }

    /// Index of the last record whose id is `id`.
    fn find_id(&self, id: &String) -> (r: Option<usize>)
        ensures
            match r {
                Some(k) => id_index(self@, id@) == k as int,
                None => id_index(self@, id@) == -1,
            },
    {
        let ghost s = self@;
        let mut j: usize = self.records.len();
        assert(s.take(j as int) =~= s);
        while j > 0
            invariant
                j <= self.records@.len(),
                self@ == s,
                id_index(s, id@) == id_index(s.take(j as int), id@),
            decreases j,
        {
            let ghost t = s.take(j as int);
            assert(t.last() == s[j - 1]);
            assert(s[j - 1].id == self.records@[j - 1].id@);
            if self.records[j - 1].id == *id {
                return Some(j - 1);
            }
            assert(t.drop_last() =~= s.take(j - 1));
            j = j - 1;
        }
        None
    }

    /// Inserts `record`; one with the same id is overwritten in place.
    pub fn insert(&mut self, record: AppRecord)
        ensures
            final(self)@ == upsert(old(self)@, record@),
            old(self).wf() ==> final(self).wf(),
    {
        let ghost s = self@;
        proof {
            if ids_unique(s) {
                lemma_upsert_keeps_unique(s, record@);
            }
        }
        match self.find_id(&record.id) {
            Some(k) => {
                proof {
                    lemma_id_index_bounds(s, record@.id);
                }
                self.records.set(k, record);
                assert(self@ =~= s.update(k as int, record@));
            },
            None => {
                self.records.push(record);
                assert(self@ =~= s.push(record@));
            },
        }
    }

    /// The records in the order of their lower-case names; records with equal
    /// names keep their order in the catalog.
    pub fn into_sorted(self) -> (r: Vec<AppRecord>)
        ensures
            views(r@) == sort_by_name(self@),
    {
        let ghost s = self@;
        let mut rest = self.records;
        let n: usize = rest.len();
        let mut out: Vec<AppRecord> = Vec::new();
        let mut keys: Vec<Vec<char>> = Vec::new();
        let mut i: usize = 0;
        assert(s.take(0) =~= Seq::<RecordView>::empty());
        assert(s.skip(0) =~= s);
        while rest.len() > 0
            invariant
                i <= n == s.len(),
                views(rest@) == s.skip(i as int),
                views(out@) == sort_by_name(s.take(i as int)),
                keys@.len() == out@.len(),
                forall|t: int| 0 <= t < keys@.len() ==> keys@[t]@ == name_key(#[trigger] out@[t]@),
            decreases rest@.len(),
        {
            assert(views(rest@).len() == rest@.len());
            assert(i < n);
            assert(views(rest@)[0] == s.skip(i as int)[0]);
            let ghost before = rest@;
            let r = rest.remove(0);
            assert(r == before[0]);
            assert(rest@ =~= before.skip(1));
            let k = chars_of(to_lower(r.name.as_str()).as_str());
            let ghost rv = r@;
            assert forall|t: int| 0 <= t < rest@.len() implies views(rest@)[t] == s.skip(i + 1)[t] by {
                assert(views(rest@)[t] == rest@[t]@);
                assert(rest@[t] == before[t + 1]);
                assert(views(before)[t + 1] == s.skip(i as int)[t + 1]);
            }
            assert(views(rest@) =~= s.skip(i + 1));
            let ghost o = views(out@);
            let mut j: usize = out.len();
            while j > 0 && !chars_at_most(&keys[j - 1], &k)
                invariant
                    j <= out@.len() == keys@.len(),
                    o == views(out@),
                    k@ == name_key(rv),
                    forall|t: int| 0 <= t < keys@.len() ==> keys@[t]@ == name_key(#[trigger] out@[t]@),
                    forall|t: int| j <= t < o.len() ==> !chars_le(name_key(#[trigger] o[t]), name_key(rv)),
                decreases j,
            {
                j = j - 1;
            }
            proof {
                if j > 0 {
                    assert(keys@[j - 1]@ == name_key(o[j - 1]));
                }
                lemma_insert_at(o, rv, j as int);
                assert(s.take(i + 1).drop_last() =~= s.take(i as int));
            }
            out.insert(j, r);
            keys.insert(j, k);
            assert(views(out@) =~= o.take(j as int) + seq![rv] + o.skip(j as int));
            i = i + 1;
        }
        assert(i == n) by {
            assert(views(rest@).len() == 0);
        }
        assert(s.take(n as int) =~= s);
        out
    }
}

} // verus!
