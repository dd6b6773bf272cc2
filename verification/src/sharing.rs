//! Laws of sharing and unsharing: what a file is reached by once it is shared,
//! and what is left of it when it is not.

use crate::channel::ChannelView;
use crate::chunks::{
    assembled, bytes_in_chunks, chunk_bytes, chunk_len, has_chunk, law_chunk_sizes_add_up,
    law_chunks_are_those_below_the_count, law_chunks_assemble_to_the_file, MAX_COUNTED_SIZE,
};
use crate::clock::Timestamp;
use crate::http::Refusal;
use crate::ident::sender_id;
use crate::links::{base_url, clean_url, download_link};
use crate::model::{add_wrapping, FileView, PeerView};
use crate::registry::{
    present, sender_of, ArrivalView, ChunkPlanView, ChunkRead, EntryView, StateView,
};
use crate::sandbox::{law_gone_means_not_seen, missing};
use vstd::prelude::*;

verus! {

/// A file that is shared is seeded at once: its sender is in its swarm, alone
/// and with every chunk.
pub proof fn law_shared_file_is_seeded(
    s: StateView,
    file: FileView,
    lan_ip: Option<Seq<char>>,
    joined_at: Timestamp,
    channel: ChannelView,
)
    ensures
        s.registered(file, lan_ip, joined_at, channel).files[file.id] == file,
        s.registered(file, lan_ip, joined_at, channel).swarm_peers(file.id) == seq![
            sender_of(file, lan_ip, joined_at),
        ],
{
    let t = s.registered(file, lan_ip, joined_at, channel);
    let ids = t.swarm(file.id);
    assert(ids == seq![sender_id(file.id)]);
    assert(ids.drop_last() =~= Seq::empty());
    assert(present(t.peers, ids.drop_last()) =~= Seq::empty());
    assert(t.swarm_peers(file.id) =~= seq![sender_of(file, lan_ip, joined_at)]);
}

/// A file at a path that is known is not registered again.
pub proof fn law_known_path_is_not_taken(
    s: StateView,
    file: FileView,
    lan_ip: Option<Seq<char>>,
    joined_at: Timestamp,
    channel: ChannelView,
    is_file: bool,
)
    ensures
        !s.registered(file, lan_ip, joined_at, channel).takes(file.path, is_file),
{
}

/// What was shared and is unshared again leaves no trace, where its id, its
/// path and the id of its sender were not in use.
pub proof fn law_unsharing_undoes_sharing(
    s: StateView,
    file: FileView,
    lan_ip: Option<Seq<char>>,
    joined_at: Timestamp,
    channel: ChannelView,
)
    requires
        s.sound(),
        !s.files.contains_key(file.id),
        !s.path_index.contains_key(file.path),
        !s.peers.contains_key(sender_id(file.id)),
    ensures
        s.registered(file, lan_ip, joined_at, channel).deleted(file.id) == s,
{
    let t = s.registered(file, lan_ip, joined_at, channel);
    let u = t.deleted(file.id);
    let sender = sender_id(file.id);
    assert(!s.file_peers.dom().contains(file.id));
    assert(!s.signal_bus.dom().contains(file.id));
    assert(t.file_peers[file.id] == seq![sender]);
    assert forall|p: Seq<char>| t.file_peers[file.id].to_set().contains(p) <==> p == sender by {
        if p == sender {
            assert(t.file_peers[file.id][0] == p);
        }
    }
    assert(u.files =~= s.files);
    assert(u.peers =~= s.peers);
    assert(u.file_peers =~= s.file_peers);
    assert(u.signal_bus =~= s.signal_bus);
    assert(u.path_index =~= s.path_index);
    assert(u =~= s);
}

/// Nothing is left of a file that is no longer shared: it has no record, no
/// swarm, no channel, no path and no peer, and its chunks are refused.
pub proof fn law_nothing_is_left_of_an_unshared_file(s: StateView, id: Seq<char>, index: u32)
    requires
        s.sound(),
        s.linked(),
    ensures
        ({
            let t = s.deleted(id);
            &&& !t.files.contains_key(id)
            &&& !t.file_peers.contains_key(id)
            &&& !t.signal_bus.contains_key(id)
            &&& forall|path: Seq<char>| #[trigger]
                t.path_index.contains_key(path) ==> t.path_index[path] != id
            &&& forall|p: Seq<char>| #[trigger] t.peers.contains_key(p) ==> t.peers[p].file_id != id
            &&& t.chunk_plan(id, index) == Err::<ChunkPlanView, Refusal>(Refusal::FileNotFound)
        }),
{
    let t = s.deleted(id);
    assert(s.file_peers.dom().contains(id) <==> s.files.dom().contains(id));
    assert(s.signal_bus.dom().contains(id) <==> s.files.dom().contains(id));
    assert forall|path: Seq<char>| #[trigger]
        t.path_index.contains_key(path) implies t.path_index[path] != id by {
        assert(s.path_index.contains_key(path));
    }
    assert forall|p: Seq<char>| #[trigger] t.peers.contains_key(p) implies t.peers[p].file_id
        != id by {
        assert(s.peers.contains_key(p));
        if s.peers[p].file_id == id {
            assert(s.file_peers[id].to_set().contains(p));
        }
    }
}

/// Unsharing a file twice is unsharing it once.
pub proof fn law_unsharing_twice_is_once(s: StateView, id: Seq<char>)
    ensures
        s.deleted(id).deleted(id) == s.deleted(id),
{
}

/// A file that vanishes from the watched folder is unshared just as one that is
/// deleted in the app.
pub proof fn law_vanishing_is_unsharing(s: StateView, path: Seq<char>)
    requires
        s.linked(),
        s.path_index.contains_key(path),
    ensures
        s.forgotten(path, s.path_index[path]) == s.deleted(s.path_index[path]),
{
}

/// A file that is deleted from the watched folder is unshared: the scan that
/// does not come upon it reports it, and forgetting it leaves no record of it.
pub proof fn law_files_deleted_from_the_folder_are_unshared(
    s: StateView,
    index: Seq<(Seq<char>, Seq<char>)>,
    current: Set<Seq<char>>,
    path: Seq<char>,
)
    requires
        s.sound(),
        s.linked(),
        s.path_index.contains_key(path),
        index.contains((path, s.path_index[path])),
        !current.contains(path),
    ensures
        ({
            let id = s.path_index[path];
            let t = s.forgotten(path, id);
            &&& missing(index, current).contains((path, id))
            &&& !t.files.contains_key(id)
            &&& !t.signal_bus.contains_key(id)
            &&& !t.path_index.contains_key(path)
            &&& t.swarm_peers(id) == Seq::<PeerView>::empty()
        }),
{
    law_gone_means_not_seen(index, current, (path, s.path_index[path]));
    assert(s.forgotten(path, s.path_index[path]).swarm(s.path_index[path]) =~= Seq::empty());
}

/// A file that a scan comes upon stays shared, whatever the scan reports as
/// gone.
pub proof fn law_files_in_the_folder_stay_shared(
    s: StateView,
    index: Seq<(Seq<char>, Seq<char>)>,
    current: Set<Seq<char>>,
    path: Seq<char>,
    gone: (Seq<char>, Seq<char>),
)
    requires
        s.linked(),
        s.path_index.contains_key(path),
        current.contains(path),
        missing(index, current).contains(gone),
        s.path_index.contains_key(gone.0),
        s.path_index[gone.0] == gone.1,
    ensures
        ({
            let id = s.path_index[path];
            let t = s.forgotten(gone.0, gone.1);
            &&& t.path_index.contains_key(path)
            &&& t.path_index[path] == id
            &&& t.files.contains_key(id)
            &&& t.files[id] == s.files[id]
            &&& t.swarm(id) == s.swarm(id)
        }),
{
    law_gone_means_not_seen(index, current, gone);
}

/// Sharing one file leaves the others as they are.
pub proof fn law_sharing_leaves_other_files(
    s: StateView,
    file: FileView,
    lan_ip: Option<Seq<char>>,
    joined_at: Timestamp,
    channel: ChannelView,
    other: Seq<char>,
    index: u32,
)
    requires
        other != file.id,
    ensures
        ({
            let t = s.registered(file, lan_ip, joined_at, channel);
            &&& t.files.contains_key(other) <==> s.files.contains_key(other)
            &&& s.files.contains_key(other) ==> t.files[other] == s.files[other]
            &&& t.swarm(other) == s.swarm(other)
            &&& t.chunk_plan(other, index) == s.chunk_plan(other, index)
            &&& t.link(other) == s.link(other)
        }),
{
}

/// Unsharing one file leaves the others as they are, and every peer that its
/// swarm does not list.
pub proof fn law_unsharing_leaves_other_files(
    s: StateView,
    id: Seq<char>,
    other: Seq<char>,
    index: u32,
    peer: Seq<char>,
)
    requires
        other != id,
    ensures
        ({
            let t = s.deleted(id);
            &&& t.files.contains_key(other) <==> s.files.contains_key(other)
            &&& s.files.contains_key(other) ==> t.files[other] == s.files[other]
            &&& t.swarm(other) == s.swarm(other)
            &&& t.chunk_plan(other, index) == s.chunk_plan(other, index)
            &&& t.link(other) == s.link(other)
            &&& !s.swarm(id).contains(peer) ==> {
                &&& t.peers.contains_key(peer) <==> s.peers.contains_key(peer)
                &&& s.peers.contains_key(peer) ==> t.peers[peer] == s.peers[peer]
            }
        }),
{
}

/// A shared file is open for signaling, and only a shared file is.
pub proof fn law_signaling_is_open_for_shared_files(s: StateView, id: Seq<char>)
    requires
        s.sound(),
    ensures
        s.signal_bus.contains_key(id) <==> s.files.contains_key(id),
        s.file_peers.contains_key(id) <==> s.files.contains_key(id),
{
    assert(s.signal_bus.dom().contains(id) <==> s.files.dom().contains(id));
    assert(s.file_peers.dom().contains(id) <==> s.files.dom().contains(id));
}

/// The chunks of a shared file that can be asked for are those below its chunk
/// count.
pub proof fn law_chunks_below_the_count_are_served(s: StateView, id: Seq<char>, index: u32)
    requires
        s.sound(),
        s.files.contains_key(id),
        s.files[id].total_size <= MAX_COUNTED_SIZE,
    ensures
        s.chunk_plan(id, index) is Ok <==> index < s.files[id].chunk_count,
        s.chunk_plan(id, index) is Err ==> s.chunk_plan(id, index) == Err::<
            ChunkPlanView,
            Refusal,
        >(Refusal::ChunkNotFound),
{
    assert(s.sound_file(id));
    law_chunks_are_those_below_the_count(s.files[id].total_size, index as nat);
}

/// What is read for `plan` from a disk that holds `disk[path]` at each path.
pub open spec fn read_for(plan: ChunkPlanView, disk: Map<Seq<char>, Seq<u8>>) -> Seq<u8> {
    match plan {
        ChunkPlanView::Empty => Seq::empty(),
        ChunkPlanView::Read { path, offset, size } => disk[path].subrange(
            offset as int,
            offset + size,
        ),
    }
}

/// What a receiver has that asked for the first `count` chunks of the file `id`,
/// which are read from `disk`, and put them one after another.
pub open spec fn received(
    s: StateView,
    id: Seq<char>,
    disk: Map<Seq<char>, Seq<u8>>,
    count: nat,
) -> Seq<u8>
    decreases count,
{
    if count == 0 {
        Seq::empty()
    } else {
        let before = received(s, id, disk, (count - 1) as nat);
        match s.chunk_plan(id, (count - 1) as u32) {
            Ok(plan) => before + read_for(plan, disk),
            Err(_) => before,
        }
    }
}

proof fn lemma_received(
    s: StateView,
    id: Seq<char>,
    disk: Map<Seq<char>, Seq<u8>>,
    count: nat,
)
    requires
        s.sound(),
        s.files.contains_key(id),
        s.files[id].total_size <= MAX_COUNTED_SIZE,
        disk[s.files[id].path].len() == s.files[id].total_size,
        count <= s.files[id].chunk_count,
    ensures
        received(s, id, disk, count) == assembled(disk[s.files[id].path], count),
    decreases count,
{
    let data = disk[s.files[id].path];
    if count > 0 {
        let index = (count - 1) as u32;
        lemma_received(s, id, disk, (count - 1) as nat);
        law_chunks_below_the_count_are_served(s, id, index);
        let plan = s.chunk_plan(id, index)->Ok_0;
        assert(has_chunk(data.len(), index as nat));
        if plan is Empty {
            assert(chunk_bytes(data, index as nat) =~= Seq::empty());
        }
        assert(read_for(plan, disk) == chunk_bytes(data, index as nat));
    }
}

/// A receiver that asks for every chunk below the chunk count and puts them one
/// after another has the file, as it lies on disk at the path of its record.
pub proof fn law_receivers_get_the_file(
    s: StateView,
    id: Seq<char>,
    disk: Map<Seq<char>, Seq<u8>>,
)
    requires
        s.sound(),
        s.files.contains_key(id),
        s.files[id].total_size <= MAX_COUNTED_SIZE,
        disk[s.files[id].path].len() == s.files[id].total_size,
    ensures
        received(s, id, disk, s.files[id].chunk_count as nat) == disk[s.files[id].path],
{
    assert(s.sound_file(id));
    lemma_received(s, id, disk, s.files[id].chunk_count as nat);
    law_chunks_assemble_to_the_file(disk[s.files[id].path]);
}

/// What the first `count` chunks of the file `id` leave the server with, once
/// each has been asked for, read and sent.
pub open spec fn served(s: StateView, id: Seq<char>, count: nat) -> StateView
    decreases count,
{
    if count == 0 {
        s
    } else {
        let index = (count - 1) as u32;
        match s.chunk_plan(id, index) {
            Ok(plan) => served(s, id, (count - 1) as nat).answered(plan, ChunkRead::Done),
            Err(_) => served(s, id, (count - 1) as nat),
        }
    }
}

proof fn lemma_wrapping_sum(a: u64, b: nat, c: u64)
    ensures
        add_wrapping(((a + b) % 0x1_0000_0000_0000_0000) as u64, c) == ((a + b + c)
            % 0x1_0000_0000_0000_0000) as u64,
{
    let m = 0x1_0000_0000_0000_0000int;
    vstd::arithmetic::div_mod::lemma_add_mod_noop(a + b, c as int, m);
    assert((a + b) % m == ((a + b) % m) as u64);
    vstd::arithmetic::div_mod::lemma_small_mod(c as nat, m as nat);
}

proof fn lemma_served(s: StateView, id: Seq<char>, count: nat)
    requires
        s.sound(),
        s.files.contains_key(id),
        s.files[id].total_size <= MAX_COUNTED_SIZE,
        count <= s.files[id].chunk_count,
    ensures
        served(s, id, count) == (StateView {
            bytes_down: ((s.bytes_down + bytes_in_chunks(s.files[id].total_size as nat, count))
                % 0x1_0000_0000_0000_0000) as u64,
            ..s
        }),
    decreases count,
{
    let size = s.files[id].total_size as nat;
    if count > 0 {
        let index = (count - 1) as u32;
        lemma_served(s, id, (count - 1) as nat);
        law_chunks_below_the_count_are_served(s, id, index);
        let plan = s.chunk_plan(id, index)->Ok_0;
        assert(plan.bytes() == chunk_len(size, index as nat)) by {
            assert(has_chunk(size, index as nat));
        }
        lemma_wrapping_sum(
            s.bytes_down,
            bytes_in_chunks(size, (count - 1) as nat),
            plan.bytes(),
        );
        if plan is Empty {
            assert(size == 0);
            assert(chunk_len(size, index as nat) == 0);
        }
    }
}

/// Serving every chunk of a file once counts its size as sent, modulo 2^64, and
/// changes nothing else.
pub proof fn law_serving_all_chunks_counts_the_file(s: StateView, id: Seq<char>)
    requires
        s.sound(),
        s.files.contains_key(id),
        s.files[id].total_size <= MAX_COUNTED_SIZE,
    ensures
        served(s, id, s.files[id].chunk_count as nat) == s.sent(s.files[id].total_size),
{
    let file = s.files[id];
    assert(s.sound_file(id));
    lemma_served(s, id, file.chunk_count as nat);
    law_chunk_sizes_add_up(file.total_size);
    assert(served(s, id, file.chunk_count as nat) =~= s.sent(file.total_size));
}

/// What `count` downloads of the file `id` leave the server with.
pub open spec fn downloads(s: StateView, id: Seq<char>, count: nat) -> StateView
    decreases count,
{
    if count == 0 {
        s
    } else {
        downloads(s, id, (count - 1) as nat).downloaded(id)
    }
}

/// Each download of a file is counted once, and its size as sent, modulo 2^64.
/// It changes nothing else of the file and nothing of the other files.
pub proof fn law_each_download_counts_once(s: StateView, id: Seq<char>, count: nat)
    requires
        s.files.contains_key(id),
    ensures
        downloads(s, id, count) == (StateView {
            files: s.files.insert(
                id,
                FileView {
                    downloads: ((s.files[id].downloads + count) % 0x1_0000_0000_0000_0000) as u64,
                    ..s.files[id]
                },
            ),
            bytes_down: ((s.bytes_down + count * s.files[id].total_size)
                % 0x1_0000_0000_0000_0000) as u64,
            ..s
        }),
    decreases count,
{
    let file = s.files[id];
    let size = file.total_size;
    let t = downloads(s, id, count);
    let files = s.files.insert(
        id,
        FileView {
            downloads: ((file.downloads + count) % 0x1_0000_0000_0000_0000) as u64,
            ..file
        },
    );
    if count == 0 {
        vstd::arithmetic::div_mod::lemma_small_mod(
            file.downloads as nat,
            0x1_0000_0000_0000_0000,
        );
        vstd::arithmetic::div_mod::lemma_small_mod(s.bytes_down as nat, 0x1_0000_0000_0000_0000);
        assert(count * size == 0) by (nonlinear_arith)
            requires
                count == 0,
        ;
        assert(t.files =~= files);
    } else {
        let fewer = (count - 1) as nat;
        law_each_download_counts_once(s, id, fewer);
        lemma_wrapping_sum(file.downloads, fewer, 1);
        assert(fewer * size + size == count * size) by (nonlinear_arith)
            requires
                fewer == count - 1,
        ;
        assert(fewer * size >= 0) by (nonlinear_arith)
            requires
                fewer >= 0,
                size >= 0,
        ;
        lemma_wrapping_sum(s.bytes_down, (fewer * size) as nat, size);
        assert(t.files =~= files);
    }
}

/// Once a tunnel is known, every link starts with its address; while none is,
/// links lead to the local server.
pub proof fn law_links_start_with_the_tunnel(s: StateView, url: Seq<char>, id: Seq<char>)
    ensures
        clean_url(url).len() > 0 ==> s.tunnelled(url).link(id) == download_link(clean_url(url), id),
        clean_url(url).len() == 0 ==> s.tunnelled(url).link(id) == download_link(
            base_url(Seq::empty()),
            id,
        ),
{
    if clean_url(url).len() == 0 {
        assert(clean_url(url) =~= Seq::empty());
    }
}

proof fn lemma_imported_grows(
    s: StateView,
    entries: Seq<EntryView>,
    lan_ip: Option<Seq<char>>,
    arrivals: Seq<ArrivalView>,
    i: int,
)
    requires
        0 <= i < entries.len(),
    ensures
        !s.imported(entries, lan_ip, arrivals).imports(entries[i]),
    decreases entries.len(),
{
    let front = entries.drop_last();
    let t = s.imported(front, lan_ip, arrivals);
    if i < front.len() {
        lemma_imported_grows(s, front, lan_ip, arrivals, i);
        assert(front[i] == entries[i]);
    }
}

proof fn lemma_nothing_to_import(
    s: StateView,
    entries: Seq<EntryView>,
    lan_ip: Option<Seq<char>>,
    arrivals: Seq<ArrivalView>,
)
    requires
        forall|i: int| 0 <= i < entries.len() ==> !s.imports(#[trigger] entries[i]),
    ensures
        s.imported(entries, lan_ip, arrivals) == s,
    decreases entries.len(),
{
    if entries.len() > 0 {
        let front = entries.drop_last();
        assert forall|i: int| 0 <= i < front.len() implies !s.imports(#[trigger] front[i]) by {
            assert(front[i] == entries[i]);
        }
        lemma_nothing_to_import(s, front, lan_ip, arrivals);
        assert(!s.imports(entries[entries.len() - 1]));
    }
}

/// Importing the entries of a folder a second time changes nothing, whatever
/// ids are drawn.
pub proof fn law_importing_again_changes_nothing(
    s: StateView,
    entries: Seq<EntryView>,
    lan_ip: Option<Seq<char>>,
    first: Seq<ArrivalView>,
    second: Seq<ArrivalView>,
)
    ensures
        s.imported(entries, lan_ip, first).imported(entries, lan_ip, second) == s.imported(
            entries,
            lan_ip,
            first,
        ),
{
    let t = s.imported(entries, lan_ip, first);
    assert forall|i: int| 0 <= i < entries.len() implies !t.imports(#[trigger] entries[i]) by {
        lemma_imported_grows(s, entries, lan_ip, first, i);
    }
    lemma_nothing_to_import(t, entries, lan_ip, second);
}

} // verus!
