//! Reconciliation of the stored records against the scanned source files,
//! by the identity of their paths.

use vstd::prelude::*;

use crate::gallery::Picture;

verus! {

/// Whether some record of `pics` resolves its source image to `path`.
pub open spec fn tracks(pics: Seq<Picture>, path: Seq<char>) -> bool {
    exists|i: int| 0 <= i < pics.len() && #[trigger] pics[i].original.deep_view() == Some(path)
}

/// Whether the source image of `p` is among the `scanned` paths.
pub open spec fn is_scanned(scanned: Seq<String>, p: Picture) -> bool {
    exists|j: int|
        0 <= j < scanned.len() && p.original.deep_view() == Some(#[trigger] scanned[j]@)
}

/// The scanned paths that no record tracks, in scan order.
pub open spec fn untracked(pics: Seq<Picture>, scanned: Seq<String>) -> Seq<String>
    decreases scanned.len(),
{
    if scanned.len() == 0 {
        Seq::empty()
    } else {
        let rest = untracked(pics, scanned.drop_last());
        if tracks(pics, scanned.last()@) {
            rest
        } else {
            rest.push(scanned.last())
        }
    }
}

/// The records whose source image was scanned, in stored order.
pub open spec fn kept_of(pics: Seq<Picture>, scanned: Seq<String>) -> Seq<Picture>
    decreases pics.len(),
{
    if pics.len() == 0 {
        Seq::empty()
    } else {
        let rest = kept_of(pics.drop_last(), scanned);
        if is_scanned(scanned, pics.last()) {
            rest.push(pics.last())
        } else {
            rest
        }
    }
}

/// The records whose source image was not scanned, in stored order.
pub open spec fn removed_of(pics: Seq<Picture>, scanned: Seq<String>) -> Seq<Picture>
    decreases pics.len(),
{
    if pics.len() == 0 {
        Seq::empty()
    } else {
        let rest = removed_of(pics.drop_last(), scanned);
        if is_scanned(scanned, pics.last()) {
            rest
        } else {
            rest.push(pics.last())
        }
    }
}

/// The outcome of a reconciliation.
pub struct Reconciliation {
    /// Records whose source image is still there.
    pub kept: Vec<Picture>,
    /// Scanned paths that no record tracks yet.
    pub to_add: Vec<String>,
    /// Records whose source image is gone.
    pub to_remove: Vec<Picture>,
}

/// Whether some record of `pics` resolves its source image to `path`.
pub fn is_tracked(pics: &Vec<Picture>, path: &String) -> (r: bool)
    ensures
        r == tracks(pics@, path@),
{
    let mut i: usize = 0;
    while i < pics.len()
        invariant
            i <= pics.len(),
            forall|k: int| 0 <= k < i ==> pics@[k].original.deep_view() != Some(path@),
        decreases pics.len() - i,
    {
        match &pics[i].original {
            Some(o) => {
                if *o == *path {
                    assert(pics@[i as int].original.deep_view() == Some(path@));
                    return true;
                }
            },
            None => {},
        }
        i = i + 1;
    }
    false
}

/// Whether the source image of `p` is among the `scanned` paths.
pub fn in_scan(scanned: &Vec<String>, p: &Picture) -> (r: bool)
    ensures
        r == is_scanned(scanned@, *p),
{
    let o = match &p.original {
        None => {
            return false;
        },
        Some(o) => o,
    };
    let mut j: usize = 0;
    while j < scanned.len()
        invariant
            j <= scanned.len(),
            p.original.deep_view() == Some(o@),
            forall|k: int| 0 <= k < j ==> scanned@[k]@ != o@,
        decreases scanned.len() - j,
    {
        if *o == scanned[j] {
            assert(p.original.deep_view() == Some(scanned@[j as int]@));
            return true;
        }
        j = j + 1;
    }
    false
}

/// Splits the stored records `pictures` by whether their resolved source
/// image is among the `scanned` paths, and lists the scanned paths that no
/// record tracks.
pub fn reconcile(pictures: Vec<Picture>, scanned: &Vec<String>) -> (r: Reconciliation)
    ensures
        r.to_add@ == untracked(pictures@, scanned@),
        r.kept@ == kept_of(pictures@, scanned@),
        r.to_remove@ == removed_of(pictures@, scanned@),
{
    let mut to_add: Vec<String> = Vec::new();
    let mut i: usize = 0;
    while i < scanned.len()
        invariant
            i <= scanned.len(),
            to_add@ == untracked(pictures@, scanned@.take(i as int)),
        decreases scanned.len() - i,
    {
        assert(scanned@.take(i + 1).drop_last() =~= scanned@.take(i as int));
        if !is_tracked(&pictures, &scanned[i]) {
            to_add.push(scanned[i].clone());
        }
        i = i + 1;
    }
    assert(scanned@.take(scanned.len() as int) =~= scanned@);
    let ghost all = pictures@;
    let mut kept: Vec<Picture> = Vec::new();
    let mut to_remove: Vec<Picture> = Vec::new();
    for p in it: pictures.into_iter()
        invariant
            it.seq() == all,
            kept@ == kept_of(all.take(it.index() as int), scanned@),
            to_remove@ == removed_of(all.take(it.index() as int), scanned@),
    {
        assert(all.take(it.index() + 1).drop_last() =~= all.take(it.index() as int));
        if in_scan(scanned, &p) {
            kept.push(p);
        } else {
            to_remove.push(p);
        }
    }
    assert(all.take(all.len() as int) =~= all);
    Reconciliation { kept, to_add, to_remove }
}

/// Whether the records `pics` and the scanned paths `scanned` agree: each
/// record's source image was scanned and each scanned path is tracked.
pub open spec fn in_step(pics: Seq<Picture>, scanned: Seq<String>) -> bool {
    &&& forall|i: int| 0 <= i < pics.len() ==> is_scanned(scanned, #[trigger] pics[i])
    &&& forall|j: int| 0 <= j < scanned.len() ==> tracks(pics, #[trigger] scanned[j]@)
}

/// Whether no two scanned paths are equal.
pub open spec fn distinct_paths(scanned: Seq<String>) -> bool {
    forall|a: int, b: int| 0 <= a < b < scanned.len() ==> scanned[a]@ != scanned[b]@
}

/// Whether no two records resolve their source image to the same path.
pub open spec fn distinct_originals(pics: Seq<Picture>) -> bool {
    forall|a: int, b: int|
        0 <= a < b < pics.len() && pics[a].original is Some ==> pics[a].original.deep_view()
            != pics[b].original.deep_view()
}

proof fn lemma_untracked_none(pics: Seq<Picture>, s: Seq<String>)
    requires
        forall|j: int| 0 <= j < s.len() ==> tracks(pics, #[trigger] s[j]@),
    ensures
        untracked(pics, s) == Seq::<String>::empty(),
    decreases s.len(),
{
    if s.len() > 0 {
        assert(tracks(pics, s[s.len() - 1]@));
        lemma_untracked_none(pics, s.drop_last());
    }
}

proof fn lemma_untracked_single(pics: Seq<Picture>, s: Seq<String>, j0: int)
    requires
        0 <= j0 < s.len(),
        !tracks(pics, s[j0]@),
        forall|j: int| 0 <= j < s.len() && j != j0 ==> tracks(pics, #[trigger] s[j]@),
    ensures
        untracked(pics, s) == seq![s[j0]],
    decreases s.len(),
{
    if j0 == s.len() - 1 {
        lemma_untracked_none(pics, s.drop_last());
    } else {
        assert(tracks(pics, s[s.len() - 1]@));
        lemma_untracked_single(pics, s.drop_last(), j0);
    }
}

proof fn lemma_removed_none(pics: Seq<Picture>, s: Seq<String>)
    requires
        forall|i: int| 0 <= i < pics.len() ==> is_scanned(s, #[trigger] pics[i]),
    ensures
        removed_of(pics, s) == Seq::<Picture>::empty(),
        kept_of(pics, s) == pics,
    decreases pics.len(),
{
    if pics.len() > 0 {
        assert(is_scanned(s, pics[pics.len() - 1]));
        lemma_removed_none(pics.drop_last(), s);
        assert(pics.drop_last().push(pics.last()) =~= pics);
    }
}

proof fn lemma_removed_single(pics: Seq<Picture>, s: Seq<String>, i0: int)
    requires
        0 <= i0 < pics.len(),
        !is_scanned(s, pics[i0]),
        forall|i: int| 0 <= i < pics.len() && i != i0 ==> is_scanned(s, #[trigger] pics[i]),
    ensures
        removed_of(pics, s) == seq![pics[i0]],
        kept_of(pics, s) == pics.remove(i0),
    decreases pics.len(),
{
    if i0 == pics.len() - 1 {
        lemma_removed_none(pics.drop_last(), s);
        assert(pics.remove(i0) =~= pics.drop_last());
    } else {
        assert(is_scanned(s, pics[pics.len() - 1]));
        lemma_removed_single(pics.drop_last(), s, i0);
        assert(pics.drop_last().remove(i0).push(pics.last()) =~= pics.remove(i0));
    }
}

proof fn lemma_untracked_member(pics: Seq<Picture>, s: Seq<String>, k: int)
    requires
        0 <= k < untracked(pics, s).len(),
    ensures
        !tracks(pics, untracked(pics, s)[k]@),
        exists|j: int| 0 <= j < s.len() && s[j] == untracked(pics, s)[k],
    decreases s.len(),
{
    if s.len() > 0 {
        let rest = untracked(pics, s.drop_last());
        if k < rest.len() {
            lemma_untracked_member(pics, s.drop_last(), k);
            let j = choose|j: int| 0 <= j < s.drop_last().len() && s.drop_last()[j] == rest[k];
            assert(s[j] == s.drop_last()[j]);
        } else {
            assert(s[s.len() - 1] == untracked(pics, s)[k]);
        }
    }
}

proof fn lemma_untracked_complete(pics: Seq<Picture>, s: Seq<String>, j: int)
    requires
        0 <= j < s.len(),
        !tracks(pics, s[j]@),
    ensures
        exists|k: int| 0 <= k < untracked(pics, s).len() && untracked(pics, s)[k] == s[j],
    decreases s.len(),
{
    if j < s.len() - 1 {
        lemma_untracked_complete(pics, s.drop_last(), j);
        let rest = untracked(pics, s.drop_last());
        let k = choose|k: int| 0 <= k < rest.len() && rest[k] == s.drop_last()[j];
        assert(untracked(pics, s)[k] == rest[k]);
    } else {
        let rest = untracked(pics, s.drop_last());
        assert(untracked(pics, s)[rest.len() as int] == s[j]);
    }
}

proof fn lemma_kept_member(pics: Seq<Picture>, s: Seq<String>, k: int)
    requires
        0 <= k < kept_of(pics, s).len(),
    ensures
        is_scanned(s, kept_of(pics, s)[k]),
    decreases pics.len(),
{
    if pics.len() > 0 {
        let rest = kept_of(pics.drop_last(), s);
        if k < rest.len() {
            lemma_kept_member(pics.drop_last(), s, k);
        }
    }
}

proof fn lemma_kept_complete(pics: Seq<Picture>, s: Seq<String>, i: int)
    requires
        0 <= i < pics.len(),
        is_scanned(s, pics[i]),
    ensures
        exists|k: int| 0 <= k < kept_of(pics, s).len() && kept_of(pics, s)[k] == pics[i],
    decreases pics.len(),
{
    let rest = kept_of(pics.drop_last(), s);
    if i < pics.len() - 1 {
        lemma_kept_complete(pics.drop_last(), s, i);
        let k = choose|k: int| 0 <= k < rest.len() && rest[k] == pics.drop_last()[i];
        assert(kept_of(pics, s)[k] == rest[k]);
    } else {
        assert(kept_of(pics, s)[rest.len() as int] == pics[i]);
    }
}

/// Each stored record lands in exactly one of the two parts.
pub proof fn lemma_partition_sizes(pics: Seq<Picture>, scanned: Seq<String>)
    ensures
        kept_of(pics, scanned).len() + removed_of(pics, scanned).len() == pics.len(),
    decreases pics.len(),
{
    if pics.len() > 0 {
        lemma_partition_sizes(pics.drop_last(), scanned);
    }
}

/// A second reconciliation over an unchanged tree, after the first one's
/// new paths were each tracked by a new record, adds and removes nothing and
/// keeps every record as it is.
pub proof fn lemma_resync_is_idempotent(
    pics: Seq<Picture>,
    scanned: Seq<String>,
    added: Seq<Picture>,
)
    requires
        added.len() == untracked(pics, scanned).len(),
        forall|k: int|
            0 <= k < added.len() ==> (#[trigger] added[k]).original.deep_view() == Some(
                untracked(pics, scanned)[k]@,
            ),
    ensures
        untracked(kept_of(pics, scanned) + added, scanned) == Seq::<String>::empty(),
        kept_of(kept_of(pics, scanned) + added, scanned) == kept_of(pics, scanned) + added,
        removed_of(kept_of(pics, scanned) + added, scanned) == Seq::<Picture>::empty(),
{
    let kept = kept_of(pics, scanned);
    let stored = kept + added;
    let u = untracked(pics, scanned);
    assert forall|i: int| 0 <= i < stored.len() implies is_scanned(scanned, #[trigger] stored[i]) by {
        if i < kept.len() {
            lemma_kept_member(pics, scanned, i);
        } else {
            let k = i - kept.len();
            assert(added[k] == stored[i]);
            lemma_untracked_member(pics, scanned, k);
            let j = choose|j: int| 0 <= j < scanned.len() && scanned[j] == u[k];
            assert(stored[i].original.deep_view() == Some(scanned[j]@));
        }
    }
    assert forall|j: int| 0 <= j < scanned.len() implies tracks(stored, #[trigger] scanned[j]@) by {
        if tracks(pics, scanned[j]@) {
            let i = choose|i: int|
                0 <= i < pics.len() && #[trigger] pics[i].original.deep_view() == Some(
                    scanned[j]@,
                );
            assert(is_scanned(scanned, pics[i]));
            lemma_kept_complete(pics, scanned, i);
            let k = choose|k: int| 0 <= k < kept.len() && kept[k] == pics[i];
            assert(stored[k] == kept[k]);
        } else {
            lemma_untracked_complete(pics, scanned, j);
            let k = choose|k: int| 0 <= k < u.len() && u[k] == scanned[j];
            assert(stored[kept.len() + k] == added[k]);
        }
    }
    lemma_untracked_none(stored, scanned);
    lemma_removed_none(stored, scanned);
}

/// Over records in step with the tree, a new file that no record tracks is
/// the one path to add, and every record is kept.
pub proof fn lemma_new_file_is_added(pics: Seq<Picture>, scanned: Seq<String>, new: String)
    requires
        in_step(pics, scanned),
        !tracks(pics, new@),
    ensures
        untracked(pics, scanned.push(new)) == seq![new],
        kept_of(pics, scanned.push(new)) == pics,
        removed_of(pics, scanned.push(new)) == Seq::<Picture>::empty(),
{
    let s2 = scanned.push(new);
    assert forall|j: int| 0 <= j < s2.len() && j != scanned.len() implies tracks(
        pics,
        #[trigger] s2[j]@,
    ) by {
        assert(s2[j] == scanned[j]);
    }
    assert(s2[scanned.len() as int] == new);
    lemma_untracked_single(pics, s2, scanned.len() as int);
    assert forall|i: int| 0 <= i < pics.len() implies is_scanned(s2, #[trigger] pics[i]) by {
        assert(is_scanned(scanned, pics[i]));
        let j = choose|j: int|
            0 <= j < scanned.len() && pics[i].original.deep_view() == Some(
                #[trigger] scanned[j]@,
            );
        assert(s2[j] == scanned[j]);
    }
    lemma_removed_none(pics, s2);
}

/// Over records in step with a tree of distinct paths and distinct
/// originals, deleting the file at `scanned[j]` removes exactly the record
/// that tracked it, keeps all others and adds nothing.
pub proof fn lemma_deleted_file_is_removed(pics: Seq<Picture>, scanned: Seq<String>, j: int)
    requires
        in_step(pics, scanned),
        distinct_paths(scanned),
        distinct_originals(pics),
        0 <= j < scanned.len(),
    ensures
        removed_of(pics, scanned.remove(j)).len() == 1,
        removed_of(pics, scanned.remove(j))[0].original.deep_view() == Some(scanned[j]@),
        kept_of(pics, scanned.remove(j)).len() == pics.len() - 1,
        untracked(pics, scanned.remove(j)) == Seq::<String>::empty(),
{
    let s2 = scanned.remove(j);
    assert(tracks(pics, scanned[j]@));
    let i0 = choose|i: int|
        0 <= i < pics.len() && #[trigger] pics[i].original.deep_view() == Some(scanned[j]@);
    assert(!is_scanned(s2, pics[i0])) by {
        if is_scanned(s2, pics[i0]) {
            let q = choose|q: int|
                0 <= q < s2.len() && pics[i0].original.deep_view() == Some(#[trigger] s2[q]@);
            let qq = if q < j { q } else { q + 1 };
            assert(s2[q] == scanned[qq]);
        }
    }
    assert forall|i: int| 0 <= i < pics.len() && i != i0 implies is_scanned(
        s2,
        #[trigger] pics[i],
    ) by {
        assert(is_scanned(scanned, pics[i]));
        let q = choose|q: int|
            0 <= q < scanned.len() && pics[i].original.deep_view() == Some(
                #[trigger] scanned[q]@,
            );
        if q == j {
            if i < i0 {
                assert(pics[i].original is Some);
            } else {
                assert(pics[i0].original is Some);
            }
        }
        let qq = if q < j { q } else { q - 1 };
        assert(s2[qq] == scanned[q]);
    }
    lemma_removed_single(pics, s2, i0);
    assert forall|k: int| 0 <= k < s2.len() implies tracks(pics, #[trigger] s2[k]@) by {
        let kk = if k < j { k } else { k + 1 };
        assert(s2[k] == scanned[kk]);
    }
    lemma_untracked_none(pics, s2);
}

/// Over records in step with a tree of distinct paths and distinct
/// originals, moving the file at `scanned[j]` to a path `new` that no
/// record tracks is one removal, of the record that tracked the old path,
/// and one addition, of the new path.
pub proof fn lemma_rename_is_replace(
    pics: Seq<Picture>,
    scanned: Seq<String>,
    j: int,
    new: String,
)
    requires
        in_step(pics, scanned),
        distinct_paths(scanned),
        distinct_originals(pics),
        0 <= j < scanned.len(),
        !tracks(pics, new@),
    ensures
        untracked(pics, scanned.update(j, new)) == seq![new],
        removed_of(pics, scanned.update(j, new)).len() == 1,
        removed_of(pics, scanned.update(j, new))[0].original.deep_view() == Some(scanned[j]@),
        kept_of(pics, scanned.update(j, new)).len() == pics.len() - 1,
{
    let s2 = scanned.update(j, new);
    assert(tracks(pics, scanned[j]@));
    let i0 = choose|i: int|
        0 <= i < pics.len() && #[trigger] pics[i].original.deep_view() == Some(scanned[j]@);
    assert(!is_scanned(s2, pics[i0])) by {
        if is_scanned(s2, pics[i0]) {
            let q = choose|q: int|
                0 <= q < s2.len() && pics[i0].original.deep_view() == Some(#[trigger] s2[q]@);
            if q == j {
                assert(tracks(pics, new@));
            } else {
                assert(s2[q] == scanned[q]);
            }
        }
    }
    assert forall|i: int| 0 <= i < pics.len() && i != i0 implies is_scanned(
        s2,
        #[trigger] pics[i],
    ) by {
        assert(is_scanned(scanned, pics[i]));
        let q = choose|q: int|
            0 <= q < scanned.len() && pics[i].original.deep_view() == Some(
                #[trigger] scanned[q]@,
            );
        if q == j {
            if i < i0 {
                assert(pics[i].original is Some);
            } else {
                assert(pics[i0].original is Some);
            }
        }
        assert(s2[q] == scanned[q]);
    }
    lemma_removed_single(pics, s2, i0);
    lemma_partition_sizes(pics, s2);
    assert forall|k: int| 0 <= k < s2.len() && k != j implies tracks(pics, #[trigger] s2[k]@) by {
        assert(s2[k] == scanned[k]);
    }
    lemma_untracked_single(pics, s2, j);
}

} // verus!
