//! Laws of scans of the watched folder, as far as they go beyond one step.

use crate::model::FileView;
use crate::names::mime_of;
use crate::registry::{new_file, ArrivalView, StateView};
use crate::sandbox::{counts, law_gone_means_not_seen, missing, FileStat, WatchView};
use vstd::prelude::*;

verus! {

/// An entry that a scan comes upon.
pub struct Found {
    /// Its name.
    pub name: Seq<char>,
    /// Its path.
    pub path: Seq<char>,
    /// What the file system says of it in the listing.
    pub stat: Option<FileStat>,
    /// What the file system says of it when it is to be registered.
    pub later: Option<FileStat>,
    /// What is drawn for it, where it is registered.
    pub arrival: ArrivalView,
}

/// The entry with these properties.
pub open spec fn entry_found(
    name: Seq<char>,
    path: Seq<char>,
    stat: Option<FileStat>,
    later: Option<FileStat>,
    arrival: ArrivalView,
) -> Found {
    Found { name, path, stat, later, arrival }
}

/// A scan of the folder.
pub struct Scan {
    /// The entries that it comes upon, in turn.
    pub found: Seq<Found>,
    /// The paths that lead to files once all entries have been gone over.
    pub index: Seq<(Seq<char>, Seq<char>)>,
    /// The paths at which there is something on disk.
    pub on_disk: Set<Seq<char>>,
}

/// The server and its watcher.
#[verifier::ext_equal]
pub struct Folder {
    pub state: StateView,
    pub watch: WatchView,
}

impl Folder {
    /// What the watcher knows after an entry.
    pub open spec fn watched(self, entry: Found) -> WatchView {
        if counts(entry.name, entry.stat) {
            self.watch.seen(entry.path, entry.stat->0.size)
        } else {
            self.watch
        }
    }

    /// Whether an entry is registered: its size has settled, and the server
    /// takes it.
    pub open spec fn registers(self, entry: Found) -> bool {
        &&& counts(entry.name, entry.stat)
        &&& self.watched(entry).pending[entry.path].settled()
        &&& entry.later matches Some(st) && self.state.takes(entry.path, st.is_file)
    }

    /// The record that an entry gets, where it is registered.
    pub open spec fn file_of(self, entry: Found) -> FileView {
        new_file(
            entry.arrival,
            entry.name,
            entry.later->0.size,
            mime_of(entry.name),
            entry.path,
        )
    }

    /// Goes over an entry.
    pub open spec fn met(self, entry: Found) -> Folder {
        Folder {
            state: if self.registers(entry) {
                self.state.registered(
                    self.file_of(entry),
                    self.state.lan_ip,
                    entry.arrival.joined_at,
                    entry.arrival.channel,
                )
            } else {
                self.state
            },
            watch: self.watched(entry),
        }
    }

    /// Goes over some entries, one after another.
    pub open spec fn met_all(self, found: Seq<Found>) -> Folder
        decreases found.len(),
    {
        if found.len() == 0 {
            self
        } else {
            self.met_all(found.drop_last()).met(found.last())
        }
    }

    /// A whole scan: what it comes upon is gone over, and what is missing is
    /// forgotten, unless it is on disk.
    pub open spec fn scanned(self, scan: Scan) -> Folder {
        let t = self.met_all(scan.found);
        Folder {
            state: swept(t.state, missing(scan.index, t.watch.current), scan.on_disk),
            watch: t.watch.finished(),
        }
    }

    /// Whether the index that a scan reads is that of the server.
    pub open spec fn reads_index(self, scan: Scan) -> bool {
        let t = self.met_all(scan.found).state;
        forall|path: Seq<char>, id: Seq<char>| #[trigger]
            scan.index.contains((path, id)) ==> t.path_index.contains_key(path)
                && t.path_index[path] == id
    }

    /// Some scans, one after another.
    pub open spec fn scanned_all(self, scans: Seq<Scan>) -> Folder
        decreases scans.len(),
    {
        if scans.len() == 0 {
            self
        } else {
            self.scanned_all(scans.drop_last()).scanned(scans.last())
        }
    }

    /// `reads_index`, for each of some scans.
    pub open spec fn reads_indices(self, scans: Seq<Scan>) -> bool
        decreases scans.len(),
    {
        scans.len() == 0 || {
            &&& self.reads_indices(scans.drop_last())
            &&& self.scanned_all(scans.drop_last()).reads_index(scans.last())
        }
    }
}

/// Forgets the files `gone` that are not on disk, one after another.
pub open spec fn swept(
    s: StateView,
    gone: Seq<(Seq<char>, Seq<char>)>,
    on_disk: Set<Seq<char>>,
) -> StateView
    decreases gone.len(),
{
    if gone.len() == 0 {
        s
    } else {
        let before = swept(s, gone.drop_last(), on_disk);
        if on_disk.contains(gone.last().0) {
            before
        } else {
            before.forgotten(gone.last().0, gone.last().1)
        }
    }
}

/// Whether two states lead from `path` to the same file, or both to none.
pub open spec fn same_at(s: StateView, t: StateView, path: Seq<char>) -> bool {
    &&& t.path_index.contains_key(path) <==> s.path_index.contains_key(path)
    &&& s.path_index.contains_key(path) ==> t.path_index[path] == s.path_index[path]
}

/// Whether no entry at `path` counts as a file: each is hidden, or no ordinary
/// file.
pub open spec fn never_counts(found: Seq<Found>, path: Seq<char>) -> bool {
    forall|i: int|
        0 <= i < found.len() && (#[trigger] found[i]).path == path ==> !counts(
            found[i].name,
            found[i].stat,
        )
}

proof fn lemma_met_leaves_uncounted(f: Folder, found: Seq<Found>, path: Seq<char>)
    requires
        never_counts(found, path),
    ensures
        same_at(f.state, f.met_all(found).state, path),
    decreases found.len(),
{
    if found.len() > 0 {
        let front = found.drop_last();
        assert forall|i: int| 0 <= i < front.len() && (#[trigger] front[i]).path
            == path implies !counts(front[i].name, front[i].stat) by {
            assert(front[i] == found[i]);
        }
        lemma_met_leaves_uncounted(f, front, path);
        assert(found[found.len() - 1] == found.last());
    }
}

proof fn lemma_swept_leaves_what_is_on_disk(
    s: StateView,
    gone: Seq<(Seq<char>, Seq<char>)>,
    on_disk: Set<Seq<char>>,
    path: Seq<char>,
)
    requires
        on_disk.contains(path),
    ensures
        same_at(s, swept(s, gone, on_disk), path),
    decreases gone.len(),
{
    if gone.len() > 0 {
        lemma_swept_leaves_what_is_on_disk(s, gone.drop_last(), on_disk, path);
    }
}

/// However often the folder is scanned, an entry that is hidden or no ordinary
/// file, and stays on disk, is left alone: it is not registered, and where it is
/// registered it is not forgotten.
pub proof fn law_scans_leave_uncounted_entries(f: Folder, scans: Seq<Scan>, path: Seq<char>)
    requires
        forall|i: int|
            0 <= i < scans.len() ==> {
                &&& (#[trigger] scans[i]).on_disk.contains(path)
                &&& never_counts(scans[i].found, path)
            },
    ensures
        same_at(f.state, f.scanned_all(scans).state, path),
    decreases scans.len(),
{
    if scans.len() > 0 {
        let front = scans.drop_last();
        let last = scans[scans.len() - 1];
        assert forall|i: int| 0 <= i < front.len() implies {
            &&& (#[trigger] front[i]).on_disk.contains(path)
            &&& never_counts(front[i].found, path)
        } by {
            assert(front[i] == scans[i]);
        }
        law_scans_leave_uncounted_entries(f, front, path);
        let g = f.scanned_all(front);
        assert(last.on_disk.contains(path));
        lemma_met_leaves_uncounted(g, last.found, path);
        let t = g.met_all(last.found);
        lemma_swept_leaves_what_is_on_disk(
            t.state,
            missing(last.index, t.watch.current),
            last.on_disk,
            path,
        );
    }
}

/// Whether `t` has the file `id` at `path` just as `s` has it: the path leads to
/// it, its record is the same, and there is no record for the path that `s` does
/// not have.
pub open spec fn keeps_file(s: StateView, t: StateView, path: Seq<char>, id: Seq<char>) -> bool {
    &&& t.path_index.contains_key(path)
    &&& t.path_index[path] == id
    &&& t.files.contains_key(id)
    &&& t.files[id] == s.files[id]
    &&& forall|other: Seq<char>| #[trigger]
        t.files.contains_key(other) && t.files[other].path == path ==> s.files.contains_key(other)
}

/// Whether no other path leads to `id`.
spec fn sole_path(t: StateView, path: Seq<char>, id: Seq<char>) -> bool {
    forall|p: Seq<char>| #[trigger]
        t.path_index.contains_key(p) && p != path ==> t.path_index[p] != id
}

/// Whether nothing is drawn under the id `id`.
pub open spec fn draws_others(found: Seq<Found>, id: Seq<char>) -> bool {
    forall|i: int| 0 <= i < found.len() ==> (#[trigger] found[i]).arrival.id != id
}

proof fn lemma_met_keeps_file(
    s: StateView,
    f: Folder,
    found: Seq<Found>,
    path: Seq<char>,
    id: Seq<char>,
)
    requires
        keeps_file(s, f.state, path, id),
        sole_path(f.state, path, id),
        draws_others(found, id),
    ensures
        keeps_file(s, f.met_all(found).state, path, id),
        sole_path(f.met_all(found).state, path, id),
    decreases found.len(),
{
    if found.len() > 0 {
        let front = found.drop_last();
        assert forall|i: int| 0 <= i < front.len() implies (#[trigger] front[i]).arrival.id
            != id by {
            assert(front[i] == found[i]);
        }
        lemma_met_keeps_file(s, f, front, path, id);
        let g = f.met_all(front);
        let entry = found[found.len() - 1];
        assert(entry.arrival.id != id);
        let t = g.met(entry).state;
        if g.registers(entry) {
            assert(entry.path != path);
            assert forall|other: Seq<char>| #[trigger]
                t.files.contains_key(other) && t.files[other].path
                    == path implies s.files.contains_key(other) by {
                assert(other != entry.arrival.id);
                assert(g.state.files.contains_key(other));
            }
            assert forall|p: Seq<char>| #[trigger]
                t.path_index.contains_key(p) && p != path implies t.path_index[p] != id by {
                if p != entry.path {
                    assert(g.state.path_index.contains_key(p));
                }
            }
        }
    }
}

proof fn lemma_swept_keeps_file(
    s: StateView,
    t: StateView,
    gone: Seq<(Seq<char>, Seq<char>)>,
    on_disk: Set<Seq<char>>,
    path: Seq<char>,
    id: Seq<char>,
)
    requires
        keeps_file(s, t, path, id),
        sole_path(t, path, id),
        on_disk.contains(path),
        forall|i: int| 0 <= i < gone.len() ==> (#[trigger] gone[i]).0 == path || gone[i].1 != id,
    ensures
        keeps_file(s, swept(t, gone, on_disk), path, id),
        sole_path(swept(t, gone, on_disk), path, id),
    decreases gone.len(),
{
    if gone.len() > 0 {
        let front = gone.drop_last();
        assert forall|i: int| 0 <= i < front.len() implies (#[trigger] front[i]).0 == path
            || front[i].1 != id by {
            assert(front[i] == gone[i]);
        }
        lemma_swept_keeps_file(s, t, front, on_disk, path, id);
        let before = swept(t, front, on_disk);
        let after = swept(t, gone, on_disk);
        let last = gone[gone.len() - 1];
        assert(last.0 == path || last.1 != id);
        assert forall|other: Seq<char>| #[trigger]
            after.files.contains_key(other) && after.files[other].path
                == path implies s.files.contains_key(other) by {
            assert(before.files.contains_key(other));
        }
        assert forall|p: Seq<char>| #[trigger]
            after.path_index.contains_key(p) && p != path implies after.path_index[p] != id by {
            assert(before.path_index.contains_key(p));
        }
    }
}

proof fn lemma_scans_keep_file(f: Folder, scans: Seq<Scan>, path: Seq<char>, id: Seq<char>)
    requires
        keeps_file(f.state, f.state, path, id),
        sole_path(f.state, path, id),
        f.reads_indices(scans),
        forall|i: int|
            0 <= i < scans.len() ==> {
                &&& (#[trigger] scans[i]).on_disk.contains(path)
                &&& draws_others(scans[i].found, id)
            },
    ensures
        keeps_file(f.state, f.scanned_all(scans).state, path, id),
        sole_path(f.scanned_all(scans).state, path, id),
    decreases scans.len(),
{
    if scans.len() > 0 {
        let front = scans.drop_last();
        let last = scans[scans.len() - 1];
        assert forall|i: int| 0 <= i < front.len() implies {
            &&& (#[trigger] front[i]).on_disk.contains(path)
            &&& draws_others(front[i].found, id)
        } by {
            assert(front[i] == scans[i]);
        }
        lemma_scans_keep_file(f, front, path, id);
        let g = f.scanned_all(front);
        assert(last.on_disk.contains(path));
        lemma_met_keeps_file(f.state, g, last.found, path, id);
        let t = g.met_all(last.found);
        let gone = missing(last.index, t.watch.current);
        assert forall|i: int| 0 <= i < gone.len() implies (#[trigger] gone[i]).0 == path
            || gone[i].1 != id by {
            assert(gone.contains(gone[i]));
            law_gone_means_not_seen(last.index, t.watch.current, gone[i]);
            assert(last.index.contains((gone[i].0, gone[i].1)));
        }
        lemma_swept_keeps_file(f.state, t.state, gone, last.on_disk, path, id);
    }
}

/// However often the folder is scanned, a known file that stays on disk keeps
/// its id and its record, whatever its size on disk becomes, and gets no second
/// record; where no id is drawn that it has already.
pub proof fn law_scans_keep_known_files(f: Folder, scans: Seq<Scan>, path: Seq<char>)
    requires
        f.state.linked(),
        f.state.path_index.contains_key(path),
        f.reads_indices(scans),
        forall|i: int|
            0 <= i < scans.len() ==> {
                &&& (#[trigger] scans[i]).on_disk.contains(path)
                &&& draws_others(scans[i].found, f.state.path_index[path])
            },
    ensures
        keeps_file(
            f.state,
            f.scanned_all(scans).state,
            path,
            f.state.path_index[path],
        ),
{
    let id = f.state.path_index[path];
    assert forall|p: Seq<char>| #[trigger]
        f.state.path_index.contains_key(p) && p != path implies f.state.path_index[p] != id by {
        assert(f.state.files[f.state.path_index[p]].path == p);
    }
    lemma_scans_keep_file(f, scans, path, id);
}

} // verus!
