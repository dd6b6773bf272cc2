//! The watched folder: where it lies, and when a file in it has come or gone.

use crate::names::{hidden, is_hidden};
use vstd::hash_map::StringHashMap;
use vstd::prelude::*;

verus! {

/// The directory that the watched folder lies in.
#[derive(Clone, Copy, PartialEq, Eq, Structural, Debug)]
pub enum SandboxBase {
    /// The documents of the user.
    Documents,
    /// The home of the user.
    Home,
    /// The directory for temporary files.
    Temp,
}

impl SandboxBase {
    /// The name of the watched folder.
    pub open spec fn folder(self) -> Seq<char> {
        match self {
            SandboxBase::Temp => "gimmeurl_sandbox"@,
            _ => "GimmeURL Sandbox"@,
        }
    }

    /// Where the watched folder lies, where the system names a directory of
    /// documents or not, and a home or not.
    pub fn choose_base(has_documents: bool, has_home: bool) -> (base: SandboxBase)
        ensures
            base == if has_documents {
                SandboxBase::Documents
            } else if has_home {
                SandboxBase::Home
            } else {
                SandboxBase::Temp
            },
    {
        if has_documents {
            SandboxBase::Documents
        } else if has_home {
            SandboxBase::Home
        } else {
            SandboxBase::Temp
        }
    }

    /// The name of the watched folder.
    pub fn folder_name(self) -> (name: &'static str)
        ensures
            name@ == self.folder(),
    {
        match self {
            SandboxBase::Temp => "gimmeurl_sandbox",
            _ => "GimmeURL Sandbox",
        }
    }
}

/// What the file system says of a path.
#[derive(Clone, Copy, PartialEq, Eq, Structural, Debug)]
pub struct FileStat {
    /// Whether an ordinary file is there.
    pub is_file: bool,
    /// Its size in bytes.
    pub size: u64,
}

/// After how many equal sightings a file is taken to be complete.
pub const STABLE_TICKS: u8 = 2;

/// What is remembered of a file between two scans of the folder.
#[derive(Clone, Copy, PartialEq, Eq, Structural, Debug)]
pub struct Sighting {
    /// Its size when it was last seen.
    pub size: u64,
    /// How often it has been seen with that size, as far as that is counted.
    pub ticks: u8,
}

impl Sighting {
    /// Whether the size has settled.
    pub open spec fn settled(self) -> bool {
        self.ticks >= STABLE_TICKS
    }
}

/// What is remembered of a file that is seen with the size `size`, where
/// `before` was remembered of it. The first sighting counts as an equal one; a
/// change of size does not.
pub open spec fn next_sighting(before: Option<Sighting>, size: u64) -> Sighting {
    match before {
        None => Sighting { size, ticks: 1 },
        Some(b) => if b.size != size {
            Sighting { size, ticks: 0 }
        } else if b.ticks == u8::MAX {
            b
        } else {
            Sighting { size, ticks: (b.ticks + 1) as u8 }
        },
    }
}

/// What is known of the watched folder in the middle of a scan.
#[verifier::ext_equal]
pub struct WatchView {
    /// What is remembered, by path.
    pub pending: Map<Seq<char>, Sighting>,
    /// The paths that this scan has come upon.
    pub current: Set<Seq<char>>,
}

impl WatchView {
    /// What is remembered of the file at `path`.
    pub open spec fn sighting(self, path: Seq<char>) -> Option<Sighting> {
        if self.pending.contains_key(path) {
            Some(self.pending[path])
        } else {
            None
        }
    }

    /// Comes upon the file at `path`, of `size` bytes.
    pub open spec fn seen(self, path: Seq<char>, size: u64) -> WatchView {
        WatchView {
            pending: self.pending.insert(path, next_sighting(self.sighting(path), size)),
            current: self.current.insert(path),
        }
    }

    /// Ends a scan: what it did not come upon is no longer remembered.
    pub open spec fn finished(self) -> WatchView {
        WatchView { pending: self.pending.restrict(self.current), current: Set::empty() }
    }

    /// Comes upon the files `files`, one after another.
    pub open spec fn seen_all(self, files: Seq<(Seq<char>, u64)>) -> WatchView
        decreases files.len(),
    {
        if files.len() == 0 {
            self
        } else {
            self.seen_all(files.drop_last()).seen(files.last().0, files.last().1)
        }
    }

    /// A scan that comes upon the files `files`.
    pub open spec fn scanned(self, files: Seq<(Seq<char>, u64)>) -> WatchView {
        self.seen_all(files).finished()
    }
}

/// Whether an entry of the folder counts as a file: it is not hidden, and the
/// file system says that it is an ordinary file.
pub open spec fn counts(name: Seq<char>, stat: Option<FileStat>) -> bool {
    !hidden(name) && (stat matches Some(st) && st.is_file)
}

/// A path and the file that it leads to.
#[derive(Debug)]
pub struct IndexEntry {
    /// The path.
    pub path: String,
    /// The id of the file.
    pub file_id: String,
}

impl View for IndexEntry {
    type V = (Seq<char>, Seq<char>);

    open spec fn view(&self) -> (Seq<char>, Seq<char>) {
        (self.path@, self.file_id@)
    }
}

/// A list of index entries, with their texts as sequences.
pub open spec fn index_pairs(index: Seq<IndexEntry>) -> Seq<(Seq<char>, Seq<char>)> {
    index.map_values(|e: IndexEntry| e@)
}

/// The index entries whose paths a scan has not come upon.
pub open spec fn missing(index: Seq<(Seq<char>, Seq<char>)>, current: Set<Seq<char>>) -> Seq<
    (Seq<char>, Seq<char>),
>
    decreases index.len(),
{
    if index.len() == 0 {
        Seq::empty()
    } else {
        let before = missing(index.drop_last(), current);
        if current.contains(index.last().0) {
            before
        } else {
            before.push(index.last())
        }
    }
}

/// Watches the folder: told what each scan comes upon, it says which files are
/// complete and which are gone.
pub struct Watcher {
    /// What the scans before this one left, by path.
    earlier: StringHashMap<Sighting>,
    /// What this scan has come upon, by path.
    now: StringHashMap<Sighting>,
}

impl View for Watcher {
    type V = WatchView;

    closed spec fn view(&self) -> WatchView {
        WatchView {
            pending: self.earlier@.union_prefer_right(self.now@),
            current: self.now@.dom(),
        }
    }
}

impl Watcher {
    /// A watcher that remembers nothing.
    pub fn new() -> (watcher: Watcher)
        ensures
            watcher@ == (WatchView { pending: Map::empty(), current: Set::empty() }),
    {
        let watcher = Watcher { earlier: StringHashMap::new(), now: StringHashMap::new() };
        assert(watcher@ =~= WatchView { pending: Map::empty(), current: Set::empty() });
        watcher
    }

    /// What is to be remembered of the file at `path`, once it is seen with
    /// `size` bytes.
    fn next(&self, path: &str, size: u64) -> (after: Sighting)
        ensures
            after == next_sighting(self@.sighting(path@), size),
    {
        let before = match self.now.get(path) {
            Some(sighting) => Some(*sighting),
            None => match self.earlier.get(path) {
                Some(sighting) => Some(*sighting),
                None => None,
            },
        };
        assert(before == self@.sighting(path@));
        match before {
            None => Sighting { size, ticks: 1 },
            Some(b) => {
                if b.size == size {
                    Sighting { size, ticks: b.ticks.saturating_add(1) }
                } else {
                    Sighting { size, ticks: 0 }
                }
            },
        }
    }

    /// Says what `observe` would say, and takes no note.
    pub fn expects(&self, name: &str, path: &str, stat: Option<FileStat>) -> (settled: bool)
        ensures
            settled <==> counts(name@, stat) && next_sighting(
                self@.sighting(path@),
                stat->0.size,
            ).settled(),
    {
        if is_hidden(name) {
            return false;
        }
        match stat {
            Some(st) => st.is_file && self.next(path, st.size).ticks >= STABLE_TICKS,
            None => false,
        }
    }

    /// Takes note of the entry `name` of the folder, which lies at `path`;
    /// `stat` is what the file system says of it, where it says anything. Says
    /// whether it is a file whose size has settled.
    pub fn observe(&mut self, name: &str, path: &str, stat: Option<FileStat>) -> (settled: bool)
        ensures
            final(self)@ == if counts(name@, stat) {
                old(self)@.seen(path@, stat->0.size)
            } else {
                old(self)@
            },
            settled <==> counts(name@, stat) && final(self)@.pending[path@].settled(),
    {
        if is_hidden(name) {
            return false;
        }
        let size = match stat {
            Some(st) => {
                if !st.is_file {
                    return false;
                }
                st.size
            },
            None => {
                return false;
            },
        };
        let after = self.next(path, size);
        self.now.insert(path.to_owned(), after);
        assert(self@ =~= old(self)@.seen(path@, size));
        after.ticks >= STABLE_TICKS
    }

    /// Ends a scan. Gives those entries of `index` that it did not come upon.
    pub fn finish_scan(&mut self, index: Vec<IndexEntry>) -> (gone: Vec<IndexEntry>)
        ensures
            final(self)@ == old(self)@.finished(),
            index_pairs(gone@) == missing(index_pairs(index@), old(self)@.current),
    {
        let ghost pairs = index_pairs(index@);
        let mut gone: Vec<IndexEntry> = Vec::new();
        let mut i: usize = 0;
        assert(pairs.take(0) =~= Seq::empty());
        assert(index_pairs(gone@) =~= Seq::empty());
        while i < index.len()
            invariant
                i <= index.len(),
                pairs == index_pairs(index@),
                index_pairs(gone@) == missing(pairs.take(i as int), self@.current),
            decreases index.len() - i,
        {
            proof {
                assert(pairs.take(i + 1).drop_last() =~= pairs.take(i as int));
                assert(pairs.take(i + 1).last() == index@[i as int]@);
            }
            if !self.now.contains_key(index[i].path.as_str()) {
                let ghost before = index_pairs(gone@);
                let entry = IndexEntry {
                    path: index[i].path.clone(),
                    file_id: index[i].file_id.clone(),
                };
                gone.push(entry);
                assert(index_pairs(gone@) =~= before.push(index@[i as int]@));
            }
            i = i + 1;
        }
        assert(pairs.take(i as int) =~= pairs);
        std::mem::swap(&mut self.earlier, &mut self.now);
        self.now.clear();
        assert(self@ =~= old(self)@.finished());
        gone
    }
}

/// What is remembered of a file at a path after scans that saw it with the
/// sizes `history`, or did not see it.
pub open spec fn sighting_after(history: Seq<Option<u64>>) -> Option<Sighting>
    decreases history.len(),
{
    if history.len() == 0 {
        None
    } else {
        match history.last() {
            None => None,
            Some(size) => Some(next_sighting(sighting_after(history.drop_last()), size)),
        }
    }
}

/// Whether the sizes that a file was seen with have settled: the last two scans
/// saw the same size, and the one before them did not see another.
pub open spec fn stable(history: Seq<Option<u64>>) -> bool {
    let n = history.len() as int;
    &&& n >= 2
    &&& history[n - 1] is Some
    &&& history[n - 1] == history[n - 2]
    &&& n == 2 || history[n - 3] is None || history[n - 3] == history[n - 1]
}

proof fn lemma_sighting_has_last_size(history: Seq<Option<u64>>)
    ensures
        sighting_after(history) is Some <==> history.len() > 0 && history.last() is Some,
        sighting_after(history) is Some ==> sighting_after(history)->0.size == history.last()->0,
{
}

/// A file is taken to be complete just when its size has settled.
pub proof fn law_complete_means_stable(history: Seq<Option<u64>>)
    ensures
        (sighting_after(history) matches Some(s) && s.settled()) <==> stable(history),
{
    let n = history.len() as int;
    if n >= 1 && history.last() is Some {
        let h1 = history.drop_last();
        lemma_sighting_has_last_size(h1);
        if n >= 2 && h1.last() is Some {
            let h2 = h1.drop_last();
            lemma_sighting_has_last_size(h2);
            assert(h1.last() == history[n - 2]);
            if n >= 3 {
                assert(h2.last() == history[n - 3]);
            }
        }
    }
}

/// A file that is new to the folder is not taken to be complete at first sight.
pub proof fn law_new_files_wait(w: WatchView, path: Seq<char>, size: u64)
    requires
        w.sighting(path) is None,
    ensures
        !w.seen(path, size).pending[path].settled(),
{
}

/// A file that is seen with another size than before is not taken to be
/// complete.
pub proof fn law_growing_files_wait(w: WatchView, path: Seq<char>, size: u64)
    requires
        w.sighting(path) matches Some(s) && s.size != size,
    ensures
        !w.seen(path, size).pending[path].settled(),
{
}

/// A new file that two scans see with one size is taken to be complete.
pub proof fn law_settled_files_are_taken(w: WatchView, path: Seq<char>, size: u64)
    requires
        w.sighting(path) is None,
    ensures
        w.seen(path, size).finished().seen(path, size).pending[path].settled(),
{
}

proof fn lemma_seen_all(w: WatchView, files: Seq<(Seq<char>, u64)>, path: Seq<char>)
    requires
        forall|i: int, j: int| 0 <= i < j < files.len() ==> files[i].0 != files[j].0,
    ensures
        w.seen_all(files).current == w.current.union(
            Set::new(|p: Seq<char>| exists|i: int| 0 <= i < files.len() && files[i].0 == p),
        ),
        forall|i: int|
            0 <= i < files.len() && (#[trigger] files[i]).0 == path ==> w.seen_all(files).sighting(
                path,
            ) == Some(next_sighting(w.sighting(path), files[i].1)),
        (forall|i: int| 0 <= i < files.len() ==> (#[trigger] files[i]).0 != path) ==> w.seen_all(
            files,
        ).sighting(path) == w.sighting(path),
    decreases files.len(),
{
    let reached = Set::new(|p: Seq<char>| exists|i: int| 0 <= i < files.len() && files[i].0 == p);
    if files.len() > 0 {
        let front = files.drop_last();
        let n = front.len() as int;
        lemma_seen_all(w, front, path);
        let before = Set::new(
            |p: Seq<char>| exists|i: int| 0 <= i < front.len() && front[i].0 == p,
        );
        assert forall|p: Seq<char>| reached.contains(p) <==> before.contains(p) || p
            == files.last().0 by {
            if reached.contains(p) {
                let i = choose|i: int| 0 <= i < files.len() && files[i].0 == p;
                if i < n {
                    assert(front[i].0 == p);
                }
            }
            if before.contains(p) {
                let i = choose|i: int| 0 <= i < front.len() && front[i].0 == p;
                assert(files[i].0 == p);
            }
            if p == files.last().0 {
                assert(files[n].0 == p);
            }
        }
        assert(w.seen_all(files).current =~= w.current.union(reached));
        assert forall|i: int| 0 <= i < n implies #[trigger] front[i] == files[i] by {
        }
        assert forall|i: int|
            0 <= i < files.len() && (#[trigger] files[i]).0 == path implies w.seen_all(
            files,
        ).sighting(path) == Some(next_sighting(w.sighting(path), files[i].1)) by {
            if i < n {
                assert(front[i].0 == path);
                assert(files[i].0 != files[n].0);
            } else {
                assert forall|k: int| 0 <= k < n implies (#[trigger] front[k]).0 != path by {
                    assert(files[k].0 != files[n].0);
                }
            }
        }
        if forall|i: int| 0 <= i < files.len() ==> (#[trigger] files[i]).0 != path {
            assert(files[n].0 != path);
            assert forall|k: int| 0 <= k < n implies (#[trigger] front[k]).0 != path by {
                assert(files[k].0 != path);
            }
        }
    } else {
        assert(w.seen_all(files).current =~= w.current.union(reached));
    }
}

/// After a scan, just the files that it came upon are remembered, each with
/// what was remembered of it brought up to date.
pub proof fn law_scan_brings_up_to_date(
    w: WatchView,
    files: Seq<(Seq<char>, u64)>,
    path: Seq<char>,
)
    requires
        w.current.is_empty(),
        forall|i: int, j: int| 0 <= i < j < files.len() ==> files[i].0 != files[j].0,
    ensures
        forall|i: int|
            0 <= i < files.len() && (#[trigger] files[i]).0 == path ==> w.scanned(files).sighting(
                path,
            ) == Some(next_sighting(w.sighting(path), files[i].1)),
        (forall|i: int| 0 <= i < files.len() ==> (#[trigger] files[i]).0 != path) ==> w.scanned(
            files,
        ).sighting(path) is None,
{
    lemma_seen_all(w, files, path);
}

/// A scan reports an index entry as gone just where it did not come upon its
/// path.
pub proof fn law_gone_means_not_seen(
    index: Seq<(Seq<char>, Seq<char>)>,
    current: Set<Seq<char>>,
    entry: (Seq<char>, Seq<char>),
)
    ensures
        missing(index, current).contains(entry) <==> index.contains(entry) && !current.contains(
            entry.0,
        ),
    decreases index.len(),
{
    if index.len() > 0 {
        let front = index.drop_last();
        law_gone_means_not_seen(front, current, entry);
        let before = missing(front, current);
        let n = front.len() as int;
        if missing(index, current).contains(entry) {
            let i = choose|i: int|
                0 <= i < missing(index, current).len() && missing(index, current)[i] == entry;
            if i < before.len() {
                assert(before[i] == entry);
                let k = choose|k: int| 0 <= k < front.len() && front[k] == entry;
                assert(index[k] == entry);
            } else {
                assert(index[n] == entry);
            }
        }
        if index.contains(entry) && !current.contains(entry.0) {
            let k = choose|k: int| 0 <= k < index.len() && index[k] == entry;
            if k < n {
                assert(front[k] == entry);
                let i = choose|i: int| 0 <= i < before.len() && before[i] == entry;
                assert(missing(index, current)[i] == entry);
            } else {
                assert(missing(index, current)[before.len() as int] == entry);
            }
        }
    }
}

} // verus!
