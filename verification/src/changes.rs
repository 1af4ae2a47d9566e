//! Lists of changed files keyed by path, paths being compared as `Path`s
//! (component by component), as `PathBuf` keys of a map or set compare.
//! A path equal to one listed updates that entry, whose text stays as
//! first recorded.

use vstd::prelude::*;

use crate::paths::{paths_equal, same_path};
use crate::watcher::ChangeKind;

verus! {

/// A list of changed files with their change kinds, as character sequences.
pub open spec fn changes_view(v: Seq<(String, ChangeKind)>) -> Seq<(Seq<char>, ChangeKind)> {
    v.map_values(|e: (String, ChangeKind)| (e.0@, e.1))
}

/// Where the first entry whose path is the same path as `p` stands, or -1.
pub open spec fn path_index(files: Seq<(Seq<char>, ChangeKind)>, p: Seq<char>) -> int
    decreases files.len(),
{
    if files.len() == 0 {
        -1
    } else {
        let r = path_index(files.drop_last(), p);
        if r >= 0 {
            r
        } else if same_path(files.last().0, p) {
            files.len() - 1
        } else {
            -1
        }
    }
}

/// Whether some entry of `files` has the same path as `p`.
pub open spec fn covers(files: Seq<(Seq<char>, ChangeKind)>, p: Seq<char>) -> bool {
    exists|j: int| 0 <= j < files.len() && same_path(#[trigger] files[j].0, p)
}

/// Whether no entry has the same path as an earlier one.
pub open spec fn apart(files: Seq<(Seq<char>, ChangeKind)>) -> bool {
    forall|a: int, b: int| 0 <= a < b < files.len() ==> !same_path(#[trigger] files[a].0, #[trigger] files[b].0)
}

pub proof fn lemma_path_index(files: Seq<(Seq<char>, ChangeKind)>, p: Seq<char>)
    ensures
        -1 <= path_index(files, p) < files.len(),
        path_index(files, p) == -1 <==> !covers(files, p),
        path_index(files, p) >= 0 ==> same_path(files[path_index(files, p)].0, p)
            && forall|j: int| 0 <= j < path_index(files, p) ==> !same_path(#[trigger] files[j].0, p),
    decreases files.len(),
{
    if files.len() > 0 {
        let prev = files.drop_last();
        lemma_path_index(prev, p);
        assert forall|j: int| 0 <= j < prev.len() implies prev[j] == files[j] by {}
        if covers(prev, p) {
            let j = choose|j: int| 0 <= j < prev.len() && same_path(#[trigger] prev[j].0, p);
            assert(same_path(files[j].0, p));
        }
        if covers(files, p) && !covers(prev, p) {
            let j = choose|j: int| 0 <= j < files.len() && same_path(#[trigger] files[j].0, p);
            if j < prev.len() {
                assert(same_path(prev[j].0, p));
            }
        }
    }
}

/// `files` after recording that `p` changed by `k`: the first entry with
/// the same path takes the kind `k` and keeps its text; without one, the
/// change is added at the end.
pub open spec fn record_change(files: Seq<(Seq<char>, ChangeKind)>, p: Seq<char>, k: ChangeKind) -> Seq<(Seq<char>, ChangeKind)> {
    let j = path_index(files, p);
    if j >= 0 {
        files.update(j, (files[j].0, k))
    } else {
        files.push((p, k))
    }
}

/// `files` after recording each of `changes` in order.
pub open spec fn record_all(files: Seq<(Seq<char>, ChangeKind)>, changes: Seq<(Seq<char>, ChangeKind)>) -> Seq<(Seq<char>, ChangeKind)>
    decreases changes.len(),
{
    if changes.len() == 0 {
        files
    } else {
        let prev = record_all(files, changes.drop_last());
        record_change(prev, changes.last().0, changes.last().1)
    }
}

/// Recording keeps every entry's path text and place, adds at most one
/// entry, leaves the recorded path covered, keeps covered paths covered,
/// and keeps the entries apart.
pub proof fn lemma_record_change(files: Seq<(Seq<char>, ChangeKind)>, p: Seq<char>, k: ChangeKind)
    ensures
        files.len() <= record_change(files, p, k).len() <= files.len() + 1,
        forall|j: int| 0 <= j < files.len() ==> (#[trigger] record_change(files, p, k)[j]).0 == files[j].0,
        covers(record_change(files, p, k), p),
        forall|q: Seq<char>| covers(files, q) ==> #[trigger] covers(record_change(files, p, k), q),
        apart(files) ==> apart(record_change(files, p, k)),
        record_change(files, p, k).len() == files.len() + 1 ==> !covers(files, p)
            && record_change(files, p, k).last() == (p, k),
{
    lemma_path_index(files, p);
    let r = record_change(files, p, k);
    let j = path_index(files, p);
    if j >= 0 {
        assert(same_path(r[j].0, p));
    } else {
        assert(same_path(r[files.len() as int].0, p));
    }
    assert forall|q: Seq<char>| covers(files, q) implies #[trigger] covers(r, q) by {
        let a = choose|a: int| 0 <= a < files.len() && same_path(#[trigger] files[a].0, q);
        assert(r[a].0 == files[a].0);
    }
    if apart(files) && j < 0 {
        assert forall|a: int, b: int| 0 <= a < b < r.len() implies !same_path(#[trigger] r[a].0, #[trigger] r[b].0) by {
            if b == files.len() {
                assert(r[a].0 == files[a].0);
                if same_path(files[a].0, p) {
                    assert(covers(files, p));
                }
            } else {
                assert(r[a] == files[a] && r[b] == files[b]);
            }
        }
    }
    if apart(files) && j >= 0 {
        assert forall|a: int, b: int| 0 <= a < b < r.len() implies !same_path(#[trigger] r[a].0, #[trigger] r[b].0) by {
            assert(r[a].0 == files[a].0 && r[b].0 == files[b].0);
        }
    }
}

/// Recording several changes keeps every entry's path text and place,
/// and covers every recorded path and every path covered before.
pub proof fn lemma_record_all(files: Seq<(Seq<char>, ChangeKind)>, changes: Seq<(Seq<char>, ChangeKind)>)
    ensures
        files.len() <= record_all(files, changes).len(),
        forall|j: int| 0 <= j < files.len() ==> (#[trigger] record_all(files, changes)[j]).0 == files[j].0,
        forall|i: int| 0 <= i < changes.len() ==> covers(record_all(files, changes), #[trigger] changes[i].0),
        forall|q: Seq<char>| covers(files, q) ==> #[trigger] covers(record_all(files, changes), q),
        apart(files) ==> apart(record_all(files, changes)),
    decreases changes.len(),
{
    if changes.len() > 0 {
        let prev_changes = changes.drop_last();
        lemma_record_all(files, prev_changes);
        let prev = record_all(files, prev_changes);
        let e = changes.last();
        lemma_record_change(prev, e.0, e.1);
        assert forall|j: int| 0 <= j < files.len() implies (#[trigger] record_all(files, changes)[j]).0 == files[j].0 by {
            assert(record_change(prev, e.0, e.1)[j].0 == prev[j].0);
        }
        assert forall|i: int| 0 <= i < changes.len() implies covers(record_all(files, changes), #[trigger] changes[i].0) by {
            if i < prev_changes.len() {
                assert(covers(prev, prev_changes[i].0));
            }
        }
    }
}

/// Where `p` stands in `entries` (compared as paths), if it does.
pub fn find_same_path(entries: &Vec<(String, ChangeKind)>, p: &str) -> (r: Option<usize>)
    ensures
        match r {
            Some(j) => j as int == path_index(changes_view(entries@), p@),
            None => path_index(changes_view(entries@), p@) == -1,
        },
{
    let ghost fs = changes_view(entries@);
    proof { lemma_path_index(fs, p@); }
    let n = entries.len();
    let mut j: usize = 0;
    while j < n
        invariant
            n == entries@.len(),
            fs == changes_view(entries@),
            j <= n,
            forall|a: int| 0 <= a < j ==> !same_path(#[trigger] fs[a].0, p@),
        decreases n - j,
    {
        if paths_equal(entries[j].0.as_str(), p) {
            assert(same_path(fs[j as int].0, p@));
            assert(covers(fs, p@));
            proof {
                lemma_path_index(fs, p@);
                let pi = path_index(fs, p@);
                if pi < j as int {
                    assert(!same_path(fs[pi].0, p@));
                }
                if pi > j as int {
                    assert(!same_path(fs[j as int].0, p@));
                }
            }
            return Some(j);
        }
        j = j + 1;
    }
    assert(!covers(fs, p@));
    None
}

/// Records that `p` changed by `k`; tells whether `p` was new.
pub fn record_change_in(entries: &mut Vec<(String, ChangeKind)>, p: &String, k: ChangeKind) -> (r: bool)
    ensures
        changes_view(final(entries)@) == record_change(changes_view(old(entries)@), p@, k),
        r == (path_index(changes_view(old(entries)@), p@) == -1),
{
    let ghost prev = changes_view(entries@);
    proof { lemma_path_index(prev, p@); }
    match find_same_path(entries, p.as_str()) {
        Some(j) => {
            let key = entries[j].0.clone();
            entries.set(j, (key, k));
            assert(changes_view(entries@) =~= prev.update(j as int, (prev[j as int].0, k)));
            false
        },
        None => {
            entries.push((p.clone(), k));
            assert(changes_view(entries@) =~= prev.push((p@, k)));
            true
        },
    }
}

} // verus!
