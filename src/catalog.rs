//! Choosing and ordering the candidate source files among a directory's entries.
use vstd::prelude::*;

verus! {

/// The extension that source files carry.
pub const EXTENSION: &'static str = "csv";

/// A source file that may be ingested, with its creation time in nanoseconds
/// since 1970-01-01T00:00:00 UTC.
#[derive(Debug, Clone, PartialEq, Eq)]
pub struct CandidateFile {
    pub path: String,
    pub created: u128,
}

/// An entry of the storage directory as the file system reported it: its
/// extension, if it has one, and its creation time, where that was readable.
pub struct ListedEntry {
    pub path: String,
    pub extension: Option<String>,
    pub created: Option<u128>,
}

/// A candidate in the abstract: its path and creation time.
pub type FileView = (Seq<char>, u128);

impl View for CandidateFile {
    type V = FileView;

    open spec fn view(&self) -> FileView {
        (self.path@, self.created)
    }
}

pub open spec fn is_candidate(e: ListedEntry) -> bool {
    &&& e.extension matches Some(x) && x@ == EXTENSION@
    &&& e.created is Some
}

/// The entries that are source files with a readable creation time, in
/// their order.
pub open spec fn kept(es: Seq<ListedEntry>) -> Seq<FileView>
    decreases es.len(),
{
    if es.len() == 0 {
        Seq::empty()
    } else if is_candidate(es.last()) {
        kept(es.drop_last()).push((es.last().path@, es.last().created.unwrap()))
    } else {
        kept(es.drop_last())
    }
}

/// `x` placed after every leading entry created no earlier than it.
pub open spec fn insert_desc(s: Seq<FileView>, x: FileView) -> Seq<FileView>
    decreases s.len(),
{
    if s.len() == 0 {
        seq![x]
    } else if s[0].1 >= x.1 {
        seq![s[0]] + insert_desc(s.drop_first(), x)
    } else {
        seq![x] + s
    }
}

/// Newest first; entries created at the same time keep their order.
pub open spec fn newest_first(s: Seq<FileView>) -> Seq<FileView>
    decreases s.len(),
{
    if s.len() == 0 {
        Seq::empty()
    } else {
        insert_desc(newest_first(s.drop_last()), s.last())
    }
}

pub open spec fn is_desc(s: Seq<FileView>) -> bool {
    forall|i: int, j: int| 0 <= i < j < s.len() ==> s[i].1 >= s[j].1
}

/// The first position from `i` on of an entry created before `t`.
pub open spec fn first_older(s: Seq<FileView>, t: u128, i: int) -> int
    decreases s.len() - i,
{
    if i < 0 || i >= s.len() {
        s.len() as int
    } else if s[i].1 < t {
        i
    } else {
        first_older(s, t, i + 1)
    }
}

proof fn lemma_insert_at(s: Seq<FileView>, x: FileView)
    ensures
        insert_desc(s, x) == s.insert(first_older(s, x.1, 0), x),
        0 <= first_older(s, x.1, 0) <= s.len(),
    decreases s.len(),
{
    if s.len() > 0 {
        lemma_insert_at(s.drop_first(), x);
        lemma_first_older_shift(s, x.1, 0);
        let p = first_older(s, x.1, 0);
        if s[0].1 >= x.1 {
            assert(insert_desc(s, x) =~= s.insert(p, x));
        } else {
            assert(insert_desc(s, x) =~= s.insert(p, x));
        }
    }
}

proof fn lemma_first_older_shift(s: Seq<FileView>, t: u128, i: int)
    requires
        0 <= i <= s.len(),
        s.len() > 0,
    ensures
        s[0].1 >= t ==> first_older(s, t, i + 1) == first_older(s.drop_first(), t, i) + 1,
        0 <= first_older(s, t, i) <= s.len(),
        first_older(s, t, i) >= i || first_older(s, t, i) == s.len(),
    decreases s.len() - i,
{
    if i < s.len() {
        lemma_first_older_shift(s, t, i + 1);
    }
}

proof fn lemma_insert_desc(s: Seq<FileView>, x: FileView)
    requires
        is_desc(s),
    ensures
        is_desc(insert_desc(s, x)),
        insert_desc(s, x).len() == s.len() + 1,
        forall|y: FileView| #[trigger]
            insert_desc(s, x).contains(y) <==> (s.contains(y) || y == x),
    decreases s.len(),
{
    let r = insert_desc(s, x);
    if s.len() > 0 {
        let t = s.drop_first();
        assert(is_desc(t));
        lemma_insert_desc(t, x);
        let rt = insert_desc(t, x);
        if s[0].1 >= x.1 {
            assert(r =~= seq![s[0]] + rt);
            assert forall|j: int| 0 <= j < rt.len() implies rt[j].1 <= s[0].1 by {
                assert(rt.contains(rt[j]));
                if !(rt[j] == x) {
                    let k = choose|k: int| 0 <= k < t.len() && t[k] == rt[j];
                    assert(s[k + 1] == t[k]);
                }
            }
            assert forall|i: int, j: int| 0 <= i < j < r.len() implies r[i].1 >= r[j].1 by {
                if i > 0 {
                    assert(r[i] == rt[i - 1]);
                }
                assert(r[j] == rt[j - 1]);
            }
            assert forall|y: FileView| #[trigger] r.contains(y) <==> (s.contains(y) || y == x) by {
                if r.contains(y) {
                    let k = choose|k: int| 0 <= k < r.len() && r[k] == y;
                    if k > 0 {
                        assert(rt[k - 1] == y);
                        assert(rt.contains(y));
                        if t.contains(y) {
                            let m = choose|m: int| 0 <= m < t.len() && t[m] == y;
                            assert(s[m + 1] == y);
                        }
                    }
                }
                if s.contains(y) {
                    let k = choose|k: int| 0 <= k < s.len() && s[k] == y;
                    if k > 0 {
                        assert(t[k - 1] == y);
                        assert(t.contains(y));
                        assert(rt.contains(y));
                        let m = choose|m: int| 0 <= m < rt.len() && rt[m] == y;
                        assert(r[m + 1] == y);
                    } else {
                        assert(r[0] == y);
                    }
                }
                if y == x {
                    assert(rt.contains(x));
                    let m = choose|m: int| 0 <= m < rt.len() && rt[m] == x;
                    assert(r[m + 1] == x);
                }
            }
        } else {
            assert(r =~= seq![x] + s);
            assert forall|y: FileView| #[trigger] r.contains(y) <==> (s.contains(y) || y == x) by {
                if r.contains(y) {
                    let k = choose|k: int| 0 <= k < r.len() && r[k] == y;
                    if k > 0 {
                        assert(s[k - 1] == y);
                    }
                }
                if s.contains(y) {
                    let k = choose|k: int| 0 <= k < s.len() && s[k] == y;
                    assert(r[k + 1] == y);
                }
                if y == x {
                    assert(r[0] == x);
                }
            }
        }
    } else {
        assert(r =~= seq![x]);
        assert(r[0] == x);
    }
}

proof fn lemma_kept_from(es: Seq<ListedEntry>)
    ensures
        kept(es).len() <= es.len(),
        forall|y: FileView| #[trigger]
            kept(es).contains(y) ==> exists|j: int|
                0 <= j < es.len() && is_candidate(#[trigger] es[j]) && y == (
                    es[j].path@,
                    es[j].created.unwrap(),
                ),
    decreases es.len(),
{
    if es.len() > 0 {
        let d = es.drop_last();
        lemma_kept_from(d);
        assert forall|y: FileView| #[trigger] kept(es).contains(y) implies exists|j: int|
            0 <= j < es.len() && is_candidate(#[trigger] es[j]) && y == (
                es[j].path@,
                es[j].created.unwrap(),
            ) by {
            let k = choose|k: int| 0 <= k < kept(es).len() && kept(es)[k] == y;
            if k < kept(d).len() {
                assert(kept(d)[k] == y);
                assert(kept(d).contains(y));
                let j = choose|j: int|
                    0 <= j < d.len() && is_candidate(#[trigger] d[j]) && y == (
                        d[j].path@,
                        d[j].created.unwrap(),
                    );
                assert(es[j] == d[j]);
            } else {
                assert(es[es.len() - 1] == es.last());
            }
        }
    }
}

proof fn lemma_newest_first(s: Seq<FileView>)
    ensures
        is_desc(newest_first(s)),
        newest_first(s).len() == s.len(),
        forall|y: FileView| #[trigger] newest_first(s).contains(y) <==> s.contains(y),
    decreases s.len(),
{
    if s.len() > 0 {
        let d = s.drop_last();
        lemma_newest_first(d);
        lemma_insert_desc(newest_first(d), s.last());
        assert forall|y: FileView| #[trigger] newest_first(s).contains(y) <==> s.contains(y) by {
            if d.contains(y) {
                let k = choose|k: int| 0 <= k < d.len() && d[k] == y;
                assert(s[k] == y);
            }
            if s.contains(y) {
                let k = choose|k: int| 0 <= k < s.len() && s[k] == y;
                if k < d.len() {
                    assert(d[k] == y);
                }
            }
            if y == s.last() {
                assert(s[s.len() - 1] == y);
            }
        }
    }
}

/// The listing holds only entries that carry the source extension and a
/// readable creation time, one for each such entry, newest first; no entries
/// give an empty listing.
pub proof fn lemma_listing(entries: Seq<ListedEntry>)
    ensures
        is_desc(newest_first(kept(entries))),
        newest_first(kept(entries)).len() == kept(entries).len(),
        forall|y: FileView| #[trigger]
            newest_first(kept(entries)).contains(y) ==> exists|j: int|
                0 <= j < entries.len() && is_candidate(#[trigger] entries[j]) && y == (
                    entries[j].path@,
                    entries[j].created.unwrap(),
                ),
        entries.len() == 0 ==> newest_first(kept(entries)).len() == 0,
{
    let s = kept(entries);
    lemma_kept_from(entries);
    lemma_newest_first(s);
}

pub open spec fn files_view(v: Seq<CandidateFile>) -> Seq<FileView> {
    v.map_values(|f: CandidateFile| f@)
}

/// The entries that carry the source extension and a readable creation
/// time, newest first; entries created at the same time keep their order.
pub fn get_sorted_csv_files(entries: &Vec<ListedEntry>) -> (r: Vec<CandidateFile>)
    ensures
        files_view(r@) == newest_first(kept(entries@)),
{
    let want = EXTENSION.to_owned();
    let mut out: Vec<CandidateFile> = Vec::new();
    let mut i: usize = 0;
    while i < entries.len()
        invariant
            i <= entries@.len(),
            want@ == EXTENSION@,
            files_view(out@) == newest_first(kept(entries@.take(i as int))),
        decreases entries.len() - i,
    {
        let e = &entries[i];
        assert(entries@.take(i + 1).drop_last() =~= entries@.take(i as int));
        assert(entries@.take(i + 1).last() == entries@[i as int]);
        let ext_ok = match &e.extension {
            Some(x) => *x == want,
            None => false,
        };
        if ext_ok && e.created.is_some() {
            let t = match e.created {
                Some(c) => c,
                None => 0,
            };
            let ghost ov = files_view(out@);
            let ghost x: FileView = (e.path@, t);
            let mut p: usize = 0;
            while p < out.len() && out[p].created >= t
                invariant
                    p <= out@.len(),
                    ov == files_view(out@),
                    first_older(ov, t, 0) == first_older(ov, t, p as int),
                decreases out.len() - p,
            {
                p = p + 1;
            }
            proof {
                lemma_insert_at(ov, x);
            }
            let f = CandidateFile { path: e.path.clone(), created: t };
            out.insert(p, f);
            assert(files_view(out@) =~= ov.insert(p as int, x));
            assert(first_older(ov, t, p as int) == p);
            assert(kept(entries@.take(i + 1)) == kept(entries@.take(i as int)).push(x));
            assert(kept(entries@.take(i as int)).push(x).drop_last() =~= kept(
                entries@.take(i as int),
            ));
        } else {
            assert(!is_candidate(entries@[i as int]));
            assert(kept(entries@.take(i + 1)) == kept(entries@.take(i as int)));
        }
        i = i + 1;
    }
    assert(entries@.take(i as int) =~= entries@);
    out
}

} // verus!
