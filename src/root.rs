//! The search for the gallery root among the ancestors of a directory.

use vstd::prelude::*;

use crate::common::paths::{pictura, pictura_spec};

verus! {

/// What looking for the marker directory in one candidate directory found.
#[derive(Debug, Clone, Copy, PartialEq, Eq, Structural)]
pub enum Probe {
    /// The candidate holds the marker directory.
    Marker,
    /// The candidate was read and holds no marker directory, or is no directory.
    NoMarker,
    /// The candidate could not be read, for a reason other than permissions.
    Unreadable,
    /// Reading the candidate was refused.
    Denied,
}

/// Why no gallery root was found.
#[derive(Debug, Clone, Copy, PartialEq, Eq, Structural)]
pub enum RootError {
    /// No candidate holds the marker directory.
    NotFound,
    /// Reading a candidate was refused before any root was found.
    PermissionDenied,
}

/// The outcome of the search over `cands` from position `i` on, where
/// `probes[k]` is what the probe of `cands[k]` found.
pub open spec fn search_from(cands: Seq<String>, probes: Seq<Probe>, i: int) -> Result<
    Seq<char>,
    RootError,
>
    decreases probes.len() - i,
{
    if i < 0 || i >= probes.len() || i >= cands.len() {
        Err(RootError::NotFound)
    } else {
        match probes[i] {
            Probe::Marker => Ok(cands[i]@),
            Probe::Denied => Err(RootError::PermissionDenied),
            _ => search_from(cands, probes, i + 1),
        }
    }
}

/// Whether the entry name `name` is the marker directory's.
pub fn is_marker(name: &str) -> (r: bool)
    ensures
        r == (name@ == pictura_spec()),
{
    String::from_str(name) == pictura()
}

/// Whether a probe that found `p` ends the search.
pub fn decides(p: Probe) -> (r: bool)
    ensures
        r == (p == Probe::Marker || p == Probe::Denied),
{
    match p {
        Probe::Marker | Probe::Denied => true,
        _ => false,
    }
}

/// Walks the candidates, nearest first, with what each probe found: the
/// first candidate that holds the marker is the root; a refused read
/// before it ends the search with `PermissionDenied`; any other failure
/// moves on to the next candidate. Candidates left unprobed count as
/// holding no marker.
pub fn get_pictura_root_dir(candidates: &Vec<String>, probes: &Vec<Probe>) -> (r: Result<
    String,
    RootError,
>)
    ensures
        match r {
            Ok(root) => search_from(candidates@, probes@, 0) == Ok::<Seq<char>, RootError>(root@),
            Err(e) => search_from(candidates@, probes@, 0) == Err::<Seq<char>, RootError>(e),
        },
{
    let mut i: usize = 0;
    while i < probes.len() && i < candidates.len()
        invariant
            search_from(candidates@, probes@, i as int) == search_from(candidates@, probes@, 0),
        decreases probes.len() - i,
    {
        match probes[i] {
            Probe::Marker => {
                return Ok(candidates[i].clone());
            },
            Probe::Denied => {
                return Err(RootError::PermissionDenied);
            },
            _ => {},
        }
        i = i + 1;
    }
    Err(RootError::NotFound)
}

} // verus!
