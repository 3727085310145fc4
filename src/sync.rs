//! The decisions of one sync run. The caller reads and writes the files;
//! this module says what to read, what to write and what to delete, and
//! keeps the records and the counts.

use vstd::prelude::*;

use crate::common::paths::{compressed, join, medium};
use crate::common::paths::no_separator;
use crate::gallery::{
    Picture, Pictures, compressed_path, lemma_fresh_record_resolves_to_its_file, made_from,
    medium_path, original_path, path_error, resolved, same_record, source_path,
};
use crate::reconcile::{kept_of, reconcile, removed_of, untracked};

verus! {

/// `new` is `old` with each unresolved path filled from the gallery root
/// `root`.
pub open spec fn resolved_from(root: Seq<char>, old: Picture, new: Picture) -> bool {
    &&& same_record(new, old)
    &&& new.compressed.deep_view() == resolved(old.compressed, compressed_path(root, old))
    &&& new.medium.deep_view() == resolved(old.medium, medium_path(root, old))
    &&& new.original.deep_view() == resolved(old.original, original_path(root, old))
}

/// Resolves the paths of every stored record against the gallery root
/// `root`, keeping the records' order.
pub fn resolve_all(stored: Pictures, root: &str) -> (r: Vec<Picture>)
    ensures
        match stored.pictures {
            None => r@.len() == 0,
            Some(v) => r@.len() == v@.len() && forall|i: int|
                0 <= i < v@.len() ==> resolved_from(root@, v@[i], #[trigger] r@[i]),
        },
{
    let v = match stored.pictures {
        None => {
            return Vec::new();
        },
        Some(v) => v,
    };
    let ghost all = v@;
    let mut r: Vec<Picture> = Vec::new();
    for p in it: v.into_iter()
        invariant
            it.seq() == all,
            r@.len() == it.index(),
            forall|i: int| 0 <= i < it.index() ==> resolved_from(root@, all[i], #[trigger] r@[i]),
    {
        let mut p = p;
        p.setup_paths(root);
        r.push(p);
    }
    r
}

/// A thumbnail side: `percent` hundredths of `side`, rounded down.
pub fn scaled(side: u32, percent: u32) -> (r: u32)
    requires
        percent <= 100,
    ensures
        r == side as nat * percent as nat / 100,
{
    assert(side as nat * percent as nat <= side as nat * 100) by (nonlinear_arith)
        requires
            percent <= 100,
    ;
    let wide = side as u64 * percent as u64 / 100;
    assert(side as nat * percent as nat / 100 <= side) by (nonlinear_arith)
        requires
            percent <= 100,
    ;
    wide as u32
}

/// The size of the small artifact: a tenth of each side, rounded down.
pub fn compressed_size(width: u32, height: u32) -> (r: (u32, u32))
    ensures
        r.0 == width / 10,
        r.1 == height / 10,
{
    (scaled(width, 10), scaled(height, 10))
}

/// The size of the medium artifact: three tenths of each side, rounded down.
pub fn medium_size(width: u32, height: u32) -> (r: (u32, u32))
    ensures
        r.0 == width as nat * 3 / 10,
        r.1 == height as nat * 3 / 10,
{
    (scaled(width, 30), scaled(height, 30))
}

/// One sync run between reconciliation and persisting.
pub struct SyncRun {
    /// The gallery root.
    pub root: String,
    /// The records to store: those kept, then those accepted.
    pub pictures: Vec<Picture>,
    /// Scanned paths that no record tracked.
    pub to_add: Vec<String>,
    /// Records whose source image is gone.
    pub to_remove: Vec<Picture>,
    /// How many records were accepted.
    pub added: usize,
    /// How many records were dropped.
    pub removed: usize,
}

impl SyncRun {
    /// Starts a run over the resolved records `resolved` and the `scanned`
    /// source paths of the gallery at `root`.
    pub fn start(resolved: Vec<Picture>, scanned: &Vec<String>, root: &str) -> (r: SyncRun)
        ensures
            r.root@ == root@,
            r.pictures@ == kept_of(resolved@, scanned@),
            r.to_add@ == untracked(resolved@, scanned@),
            r.to_remove@ == removed_of(resolved@, scanned@),
            r.added == 0,
            r.removed == r.to_remove@.len(),
    {
        let rec = reconcile(resolved, scanned);
        let removed = rec.to_remove.len();
        SyncRun {
            root: String::from_str(root),
            pictures: rec.kept,
            to_add: rec.to_add,
            to_remove: rec.to_remove,
            added: 0,
            removed,
        }
    }

    /// Where the two artifacts of `p` are written, and deleted: the small
    /// one first.
    pub fn artifact_paths(&self, p: &Picture) -> (r: (String, String))
        ensures
            r.0@ == compressed_path(self.root@, *p),
            r.1@ == medium_path(self.root@, *p),
    {
        let name = p.to_string();
        let small = join(self.root.as_str(), compressed().as_str());
        let mid = join(self.root.as_str(), medium().as_str());
        (join(small.as_str(), name.as_str()), join(mid.as_str(), name.as_str()))
    }

    /// Accepts a new record whose artifacts were written: its paths are
    /// resolved and it joins the records to store.
    pub fn accept(&mut self, p: Picture)
        requires
            old(self).added < usize::MAX,
        ensures
            final(self).root == old(self).root,
            final(self).to_add == old(self).to_add,
            final(self).to_remove == old(self).to_remove,
            final(self).removed == old(self).removed,
            final(self).added == old(self).added + 1,
            final(self).pictures@.len() == old(self).pictures@.len() + 1,
            final(self).pictures@.drop_last() == old(self).pictures@,
            resolved_from(old(self).root@, p, final(self).pictures@.last()),
    {
        let mut p = p;
        p.setup_paths(self.root.as_str());
        self.pictures.push(p);
        self.added = self.added + 1;
    }

    /// Ends the run with the records to store.
    pub fn finish(self) -> (r: Pictures)
        ensures
            r.pictures == Some(self.pictures),
    {
        Pictures { pictures: Some(self.pictures) }
    }
}

/// A fresh record of an image directly in the source tree, or one
/// directory below it, once accepted with its paths resolved, tracks the
/// image under the very path it was scanned at.
pub proof fn lemma_accepted_record_tracks_its_file(
    root: Seq<char>,
    dir: Option<Seq<char>>,
    file: Seq<char>,
    fresh: Picture,
    accepted: Picture,
    width: u32,
    height: u32,
    color: Seq<char>,
    id: u32,
)
    requires
        no_separator(file),
        match dir {
            Some(d) => no_separator(d) && d.len() > 0,
            None => true,
        },
        path_error(source_path(root, dir, file)) is None,
        made_from(fresh, root, source_path(root, dir, file), width, height, color, id),
        resolved_from(root, fresh, accepted),
    ensures
        accepted.original.deep_view() == Some(source_path(root, dir, file)),
        accepted.id == id,
{
    lemma_fresh_record_resolves_to_its_file(root, dir, file, fresh, width, height, color, id);
}

} // verus!
