//! Choosing the mesh files among what a walk through a directory tree
//! yields.
//!
//! The walk itself is the caller's: it hands over, for each thing that the
//! walk came upon, its path and extension, or the depth at which the walk
//! could not go on.

use vstd::prelude::*;
use crate::error::Error;
use crate::names::is_mesh_extension;
use crate::names::mesh_extension;

verus! {

/// One thing that a walk through a directory tree came upon.
#[derive(Clone, Debug, PartialEq, Eq)]
pub enum WalkItem {
    /// A file, a directory or something else that has a path, with the
    /// extension of its name if it has one. `is_file` says whether it is a
    /// regular file.
    Entry { path: String, extension: Option<String>, is_file: bool },
    /// A place that could not be read, at this depth below the root of the
    /// walk. Depth 0 is the root itself.
    Unreadable { depth: usize },
}

/// Whether `item` is a file whose extension marks a mesh file. A directory
/// is none, whatever its name.
pub open spec fn is_mesh_entry(item: WalkItem) -> bool {
    item matches WalkItem::Entry { extension: Some(e), is_file, .. } && is_file && e@
        == mesh_extension()
}

/// Whether the walk could not read its root.
pub open spec fn root_unreadable(items: Seq<WalkItem>) -> bool {
    exists|i: int| 0 <= i < items.len() && #[trigger] items[i] == (WalkItem::Unreadable { depth: 0 })
}

/// The paths of the mesh entries among `items`, in the order of the walk.
pub open spec fn mesh_paths(items: Seq<WalkItem>) -> Seq<Seq<char>>
    decreases items.len(),
{
    if items.len() == 0 {
        Seq::empty()
    } else if is_mesh_entry(items.last()) {
        mesh_paths(items.drop_last()).push(items.last()->path@)
    } else {
        mesh_paths(items.drop_last())
    }
}

/// The text of each string of `v`, in order.
pub open spec fn names(v: Seq<String>) -> Seq<Seq<char>> {
    v.map_values(|s: String| s@)
}

/// A walk that came upon no mesh entry yields no path.
pub proof fn lemma_no_mesh_entry_no_path(items: Seq<WalkItem>)
    requires
        forall|i: int| 0 <= i < items.len() ==> !is_mesh_entry(#[trigger] items[i]),
    ensures
        mesh_paths(items) == Seq::<Seq<char>>::empty(),
    decreases items.len(),
{
    if items.len() > 0 {
        let before = items.drop_last();
        assert forall|i: int| 0 <= i < before.len() implies !is_mesh_entry(#[trigger] before[i]) by {
            assert(before[i] == items[i]);
        }
        lemma_no_mesh_entry_no_path(before);
        assert(!is_mesh_entry(items[items.len() - 1]));
    }
}

/// Every path that a walk yields is the path of one of its mesh entries.
pub proof fn lemma_paths_are_of_mesh_entries(items: Seq<WalkItem>, k: int)
    requires
        0 <= k < mesh_paths(items).len(),
    ensures
        exists|i: int|
            0 <= i < items.len() && is_mesh_entry(#[trigger] items[i]) && items[i]->path@
                == mesh_paths(items)[k],
    decreases items.len(),
{
    if items.len() > 0 {
        let before = items.drop_last();
        let last = items.len() - 1;
        if is_mesh_entry(items.last()) && k == mesh_paths(before).len() {
            assert(is_mesh_entry(items[last]) && items[last]->path@ == mesh_paths(items)[k]);
        } else {
            lemma_paths_are_of_mesh_entries(before, k);
            let i = choose|i: int|
                0 <= i < before.len() && is_mesh_entry(#[trigger] before[i]) && before[i]->path@
                    == mesh_paths(before)[k];
            assert(items[i] == before[i]);
        }
    }
}

/// Chooses the mesh files among the items of a walk. Where the root of the
/// walk could not be read, the scan fails. Anything else that could not be
/// read is passed over, and the paths of the entries with the mesh extension
/// are returned in the order of the walk: none, where there is no such entry.
pub fn discover(items: &Vec<WalkItem>) -> (r: Result<Vec<String>, Error>)
    ensures
        root_unreadable(items@) ==> r == Err::<Vec<String>, Error>(Error::PathUnreadable),
        !root_unreadable(items@) ==> (r matches Ok(found) && names(found@) == mesh_paths(items@)),
        !root_unreadable(items@) && (forall|i: int|
            0 <= i < items@.len() ==> !is_mesh_entry(#[trigger] items@[i])) ==> (r matches Ok(found)
            && found@.len() == 0),
{
    let mut found: Vec<String> = Vec::new();
    let mut i: usize = 0;
    proof {
        assert(names(found@) =~= mesh_paths(items@.take(0)));
    }
    while i < items.len()
        invariant
            i <= items.len(),
            names(found@) == mesh_paths(items@.take(i as int)),
            forall|k: int| 0 <= k < i ==> #[trigger] items@[k] != (WalkItem::Unreadable { depth: 0 }),
        decreases items.len() - i,
    {
        proof {
            assert(items@.take(i + 1).drop_last() =~= items@.take(i as int));
            assert(items@.take(i + 1).last() == items@[i as int]);
        }
        match &items[i] {
            WalkItem::Unreadable { depth } => {
                if *depth == 0 {
                    return Err(Error::PathUnreadable);
                }
            },
            WalkItem::Entry { path, extension, is_file } => {
                match extension {
                    Some(e) => {
                        if *is_file && is_mesh_extension(e.as_str()) {
                            let p: String = path.clone();
                            proof {
                                assert(names(found@.push(p)) =~= names(found@).push(p@));
                            }
                            found.push(p);
                        }
                    },
                    None => {},
                }
            },
        }
        i += 1;
    }
    proof {
        assert(items@.take(i as int) =~= items@);
        if forall|i: int| 0 <= i < items@.len() ==> !is_mesh_entry(#[trigger] items@[i]) {
            lemma_no_mesh_entry_no_path(items@);
        }
    }
    Ok(found)
}

} // verus!
