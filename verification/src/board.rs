//! What an observer knows of the files of one scan: which of them are
//! chosen for conversion, and the latest signal about each.

use vstd::prelude::*;
use crate::discover::names;
use crate::error::Error;
use crate::progress::Fraction;
use crate::progress::ProgressEvent;
use crate::progress::Signal;

verus! {

/// What is known of one file.
#[derive(Clone, Debug, PartialEq, Eq)]
pub struct Entry {
    pub path: String,
    /// Whether the file is chosen for conversion.
    pub checked: bool,
    /// The latest share reported of its conversion; nought before the first
    /// report.
    pub progress: Fraction,
    /// Why its conversion was given up, if it was.
    pub failure: Option<Error>,
}

/// An entry with its path as text.
pub struct EntryView {
    pub path: Seq<char>,
    pub checked: bool,
    pub progress: Fraction,
    pub failure: Option<Error>,
}

impl View for Entry {
    type V = EntryView;

    open spec fn view(&self) -> EntryView {
        EntryView {
            path: self.path@,
            checked: self.checked,
            progress: self.progress,
            failure: self.failure,
        }
    }
}

/// What is known of a file of which nothing was heard yet: it is chosen, and
/// its progress is nought.
pub open spec fn fresh_entry(path: Seq<char>) -> EntryView {
    EntryView { path, checked: true, progress: Fraction { numer: 0, denom: 1 }, failure: None }
}

/// Whether one of `entries` is about `path`.
pub open spec fn knows(entries: Seq<EntryView>, path: Seq<char>) -> bool {
    exists|i: int| 0 <= i < entries.len() && (#[trigger] entries[i]).path == path
}

/// Whether no two of `entries` are about the same path.
pub open spec fn distinct(entries: Seq<EntryView>) -> bool {
    forall|i: int, j: int|
        0 <= i < j < entries.len() ==> (#[trigger] entries[i]).path != (#[trigger] entries[j]).path
}

/// A fresh entry for each of `paths`, in their order; a path that occurs
/// again is passed over.
pub open spec fn fresh_entries(paths: Seq<Seq<char>>) -> Seq<EntryView>
    decreases paths.len(),
{
    if paths.len() == 0 {
        Seq::empty()
    } else if knows(fresh_entries(paths.drop_last()), paths.last()) {
        fresh_entries(paths.drop_last())
    } else {
        fresh_entries(paths.drop_last()).push(fresh_entry(paths.last()))
    }
}

/// The entry `e` after `signal` was heard about its file: an advance
/// replaces its progress, a failure is noted.
pub open spec fn heard(e: EntryView, signal: Signal) -> EntryView {
    match signal {
        Signal::Advanced(f) => EntryView { progress: f, ..e },
        Signal::Failed(error) => EntryView { failure: Some(error), ..e },
    }
}

/// The entries after `signal` was heard about `path`. Entries about other
/// paths stay as they are.
pub open spec fn recorded(entries: Seq<EntryView>, path: Seq<char>, signal: Signal) -> Seq<
    EntryView,
> {
    Seq::new(
        entries.len(),
        |i: int|
            if entries[i].path == path {
                heard(entries[i], signal)
            } else {
                entries[i]
            },
    )
}

/// The entries after the file at `path` was chosen or set aside.
pub open spec fn marked(entries: Seq<EntryView>, path: Seq<char>, checked: bool) -> Seq<
    EntryView,
> {
    Seq::new(
        entries.len(),
        |i: int|
            if entries[i].path == path {
                EntryView { checked, ..entries[i] }
            } else {
                entries[i]
            },
    )
}

/// The paths of the chosen entries, in order.
pub open spec fn chosen(entries: Seq<EntryView>) -> Seq<Seq<char>>
    decreases entries.len(),
{
    if entries.len() == 0 {
        Seq::empty()
    } else if entries.last().checked {
        chosen(entries.drop_last()).push(entries.last().path)
    } else {
        chosen(entries.drop_last())
    }
}

/// The view of each entry of `v`, in order.
pub open spec fn entry_views(v: Seq<Entry>) -> Seq<EntryView> {
    v.map_values(|e: Entry| e@)
}

/// The fresh entries for any paths are about distinct paths, and each is
/// about one of the paths given.
pub proof fn lemma_fresh_entries_distinct(paths: Seq<Seq<char>>)
    ensures
        distinct(fresh_entries(paths)),
        forall|i: int|
            0 <= i < fresh_entries(paths).len() ==> paths.contains(
                (#[trigger] fresh_entries(paths)[i]).path,
            ),
        forall|k: int| 0 <= k < paths.len() ==> knows(fresh_entries(paths), #[trigger] paths[k]),
    decreases paths.len(),
{
    if paths.len() > 0 {
        let before = paths.drop_last();
        let last = paths.len() - 1;
        lemma_fresh_entries_distinct(before);
        let now = fresh_entries(paths);
        assert forall|i: int| 0 <= i < now.len() implies paths.contains((#[trigger] now[i]).path) by {
            if i < fresh_entries(before).len() {
                let p = fresh_entries(before)[i].path;
                assert(before.contains(p));
                let k = choose|k: int| 0 <= k < before.len() && before[k] == p;
                assert(paths[k] == p);
            } else {
                assert(paths[last] == now[i].path);
            }
        }
        assert forall|k: int| 0 <= k < paths.len() implies knows(now, #[trigger] paths[k]) by {
            if k < last {
                assert(before[k] == paths[k]);
                let i = choose|i: int|
                    0 <= i < fresh_entries(before).len() && (#[trigger] fresh_entries(
                        before,
                    )[i]).path == before[k];
                assert(now[i].path == paths[k]);
            } else if !knows(fresh_entries(before), paths.last()) {
                assert(now[now.len() - 1].path == paths[k]);
            }
        }
    }
}

/// Hearing a signal changes neither which paths the entries are about nor
/// their order.
pub proof fn lemma_recorded_keeps_paths(entries: Seq<EntryView>, path: Seq<char>, signal: Signal)
    ensures
        recorded(entries, path, signal).len() == entries.len(),
        forall|i: int|
            0 <= i < entries.len() ==> (#[trigger] recorded(entries, path, signal)[i]).path
                == entries[i].path,
        distinct(entries) ==> distinct(recorded(entries, path, signal)),
{
}

/// Choosing a file or setting it aside changes neither which paths the
/// entries are about nor their order.
pub proof fn lemma_marked_keeps_paths(entries: Seq<EntryView>, path: Seq<char>, checked: bool)
    ensures
        marked(entries, path, checked).len() == entries.len(),
        forall|i: int|
            0 <= i < entries.len() ==> (#[trigger] marked(entries, path, checked)[i]).path
                == entries[i].path,
        distinct(entries) ==> distinct(marked(entries, path, checked)),
{
}

/// The files of one scan, each with what is known of it. A board is made
/// with no two entries about the same path, and stays so.
pub struct Board {
    entries: Vec<Entry>,
}

impl View for Board {
    type V = Seq<EntryView>;

    closed spec fn view(&self) -> Seq<EntryView> {
        entry_views(self.entries@)
    }
}

/// Tells whether one of `entries` is about `path`.
fn holds(entries: &Vec<Entry>, path: &String) -> (known: bool)
    ensures
        known == knows(entry_views(entries@), path@),
{
    let mut i: usize = 0;
    while i < entries.len()
        invariant
            i <= entries.len(),
            forall|k: int| 0 <= k < i ==> (#[trigger] entry_views(entries@)[k]).path != path@,
        decreases entries.len() - i,
    {
        if entries[i].path == *path {
            assert(entry_views(entries@)[i as int].path == path@);
            return true;
        }
        i += 1;
    }
    false
}

impl Board {
    /// A board for the files at `paths`: each is chosen and has made no
    /// progress. A path that occurs twice gets one entry.
    pub fn new(paths: &Vec<String>) -> (board: Board)
        ensures
            board@ == fresh_entries(names(paths@)),
            distinct(board@),
    {
        let ghost all = names(paths@);
        let mut entries: Vec<Entry> = Vec::new();
        let mut i: usize = 0;
        proof {
            assert(entry_views(entries@) =~= fresh_entries(all.take(0)));
        }
        while i < paths.len()
            invariant
                i <= paths.len(),
                all == names(paths@),
                entry_views(entries@) == fresh_entries(all.take(i as int)),
            decreases paths.len() - i,
        {
            proof {
                assert(all.take(i + 1).drop_last() =~= all.take(i as int));
                assert(all.take(i + 1).last() == paths@[i as int]@);
            }
            if !holds(&entries, &paths[i]) {
                let entry = Entry {
                    path: paths[i].clone(),
                    checked: true,
                    progress: Fraction { numer: 0, denom: 1 },
                    failure: None,
                };
                proof {
                    assert(entry@ == fresh_entry(paths@[i as int]@));
                    assert(entry_views(entries@.push(entry)) =~= entry_views(entries@).push(
                        entry@,
                    ));
                }
                entries.push(entry);
            }
            i += 1;
        }
        proof {
            assert(all.take(i as int) =~= all);
            lemma_fresh_entries_distinct(all);
        }
        Board { entries }
    }

    /// The number of files on the board.
    pub fn len(&self) -> (n: usize)
        ensures
            n == self@.len(),
    {
        self.entries.len()
    }

    /// What is known of the file at position `i`.
    pub fn entry(&self, i: usize) -> (e: Option<&Entry>)
        ensures
            i < self@.len() ==> (e matches Some(entry) && entry@ == self@[i as int]),
            i >= self@.len() ==> e is None,
    {
        if i < self.entries.len() {
            Some(&self.entries[i])
        } else {
            None
        }
    }

    /// Notes what `event` says about its file. An advance replaces the
    /// progress of that file, a failure is kept beside it. An event about a
    /// file that is not on the board changes nothing. Returns whether the
    /// file is on the board.
    pub fn record(&mut self, event: &ProgressEvent) -> (known: bool)
        ensures
            final(self)@ == recorded(old(self)@, event.path@, event.signal),
            distinct(old(self)@) ==> distinct(final(self)@),
            known == knows(old(self)@, event.path@),
    {
        let mut known = false;
        let mut i: usize = 0;
        while i < self.entries.len()
            invariant
                i <= self.entries.len(),
                self@.len() == old(self)@.len(),
                forall|k: int|
                    0 <= k < i ==> #[trigger] self@[k] == recorded(
                        old(self)@,
                        event.path@,
                        event.signal,
                    )[k],
                forall|k: int| i <= k < self@.len() ==> #[trigger] self@[k] == old(self)@[k],
                known == knows(old(self)@.take(i as int), event.path@),
            decreases self.entries.len() - i,
        {
            let ghost seen = old(self)@.take(i as int);
            let ghost next = old(self)@.take(i + 1);
            if self.entries[i].path == event.path {
                let before = &self.entries[i];
                let after = match event.signal {
                    Signal::Advanced(f) => Entry {
                        path: before.path.clone(),
                        checked: before.checked,
                        progress: f,
                        failure: before.failure,
                    },
                    Signal::Failed(error) => Entry {
                        path: before.path.clone(),
                        checked: before.checked,
                        progress: before.progress,
                        failure: Some(error),
                    },
                };
                proof {
                    assert(self@[i as int] == old(self)@[i as int]);
                    assert(after@ == heard(old(self)@[i as int], event.signal));
                    assert(entry_views(self.entries@.update(i as int, after)) =~= self@.update(
                        i as int,
                        after@,
                    ));
                    assert(next[i as int].path == event.path@);
                }
                self.entries.set(i, after);
                known = true;
            } else {
                proof {
                    assert(self@[i as int] == old(self)@[i as int]);
                    if knows(next, event.path@) {
                        let k = choose|k: int|
                            0 <= k < next.len() && (#[trigger] next[k]).path == event.path@;
                        assert(seen[k].path == event.path@);
                    }
                }
            }
            proof {
                if knows(seen, event.path@) {
                    let k = choose|k: int|
                        0 <= k < seen.len() && (#[trigger] seen[k]).path == event.path@;
                    assert(next[k].path == event.path@);
                }
            }
            i += 1;
        }
        proof {
            assert(old(self)@.take(i as int) =~= old(self)@);
            assert(self@ =~= recorded(old(self)@, event.path@, event.signal));
            lemma_recorded_keeps_paths(old(self)@, event.path@, event.signal);
        }
        known
    }

    /// Chooses the file at `path` for conversion, or sets it aside. Returns
    /// whether the file is on the board; if it is not, nothing changes.
    pub fn set_checked(&mut self, path: &String, checked: bool) -> (known: bool)
        ensures
            final(self)@ == marked(old(self)@, path@, checked),
            distinct(old(self)@) ==> distinct(final(self)@),
            known == knows(old(self)@, path@),
    {
        let mut known = false;
        let mut i: usize = 0;
        while i < self.entries.len()
            invariant
                i <= self.entries.len(),
                self@.len() == old(self)@.len(),
                forall|k: int|
                    0 <= k < i ==> #[trigger] self@[k] == marked(old(self)@, path@, checked)[k],
                forall|k: int| i <= k < self@.len() ==> #[trigger] self@[k] == old(self)@[k],
                known == knows(old(self)@.take(i as int), path@),
            decreases self.entries.len() - i,
        {
            let ghost seen = old(self)@.take(i as int);
            let ghost next = old(self)@.take(i + 1);
            if self.entries[i].path == *path {
                let before = &self.entries[i];
                let after = Entry {
                    path: before.path.clone(),
                    checked,
                    progress: before.progress,
                    failure: before.failure,
                };
                proof {
                    assert(self@[i as int] == old(self)@[i as int]);
                    assert(entry_views(self.entries@.update(i as int, after)) =~= self@.update(
                        i as int,
                        after@,
                    ));
                    assert(next[i as int].path == path@);
                }
                self.entries.set(i, after);
                known = true;
            } else {
                proof {
                    assert(self@[i as int] == old(self)@[i as int]);
                    if knows(next, path@) {
                        let k = choose|k: int|
                            0 <= k < next.len() && (#[trigger] next[k]).path == path@;
                        assert(seen[k].path == path@);
                    }
                }
            }
            proof {
                if knows(seen, path@) {
                    let k = choose|k: int|
                        0 <= k < seen.len() && (#[trigger] seen[k]).path == path@;
                    assert(next[k].path == path@);
                }
            }
            i += 1;
        }
        proof {
            assert(old(self)@.take(i as int) =~= old(self)@);
            assert(self@ =~= marked(old(self)@, path@, checked));
            lemma_marked_keeps_paths(old(self)@, path@, checked);
        }
        known
    }

    /// The paths of the files that are chosen for conversion, in the order
    /// of the board: what is to be submitted.
    pub fn selected(&self) -> (paths: Vec<String>)
        ensures
            names(paths@) == chosen(self@),
    {
        let mut paths: Vec<String> = Vec::new();
        let mut i: usize = 0;
        proof {
            assert(names(paths@) =~= chosen(self@.take(0)));
        }
        while i < self.entries.len()
            invariant
                i <= self.entries.len(),
                names(paths@) == chosen(self@.take(i as int)),
            decreases self.entries.len() - i,
        {
            proof {
                assert(self@.take(i + 1).drop_last() =~= self@.take(i as int));
                assert(self@.take(i + 1).last() == self@[i as int]);
            }
            if self.entries[i].checked {
                let p: String = self.entries[i].path.clone();
                proof {
                    assert(names(paths@.push(p)) =~= names(paths@).push(p@));
                }
                paths.push(p);
            }
            i += 1;
        }
        proof {
            assert(self@.take(i as int) =~= self@);
        }
        paths
    }
}

} // verus!
