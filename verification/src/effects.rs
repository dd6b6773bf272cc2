//! Laws of what the server does, spelled out in its tables: what every change
//! leaves of each, and what is told of it.

use crate::channel::{
    channel_capacity, channel_of, receiver_channel, sender_channel, ChannelView, Outgoing,
};
use crate::chunks::{announced_chunks, chunk_start, CHUNK_SIZE, MAX_COUNTED_SIZE, MAX_FILE_SIZE};
use crate::clock::{nanos_between, seconds_between, Timestamp};
use crate::events::{
    file_ready, told_at, ActiveFile, FileMeta, FullFile, Joined, PeerStatus, SandboxFileAddedEvent,
    UploadOutcome,
};
use crate::http::Refusal;
use crate::ident::{hex_digit, is_uuid, sender_id};
use crate::links::{base_url, clean_url, download_link, opt_host_port, opt_lan_link};
use crate::model::{add_wrapping, FileRecord, FileView, PeerInfo, PeerView, SignalMsg, SignalView};
use crate::names::mime_of;
use crate::registry::{
    chunks_not_in, new_file, present, sender_of, ArrivalView, ChunkPlanView, ChunkRead, EntryView,
    StateView,
};
use crate::render::{human_size, link_qr_or_nothing};
use crate::sandbox::{counts, index_pairs, missing, next_sighting, FileStat, IndexEntry, WatchView};
use crate::scans::{entry_found, Folder, Found};
use crate::sharing::{law_chunks_below_the_count_are_served, law_shared_file_is_seeded};
use crate::state::{entry_views, upload_type, Arrival, ChunkPlan, SandboxEntry};
use crate::text::{opt_text, starts_with};
use crate::transfer::{moved, registered_size, size_with_piece};
use vstd::prelude::*;

verus! {

// Chunks.

/// Chunks have 262144 bytes, and files of every size are counted for which the
/// sum with a chunk fits in 64 bits.
pub proof fn law_sizes()
    ensures
        CHUNK_SIZE == 262_144,
        MAX_COUNTED_SIZE == 0xffff_ffff * 262_144,
        MAX_FILE_SIZE == u64::MAX - 262_144,
{
}

/// A file is announced with as many chunks as it takes to hold it and no more,
/// and with one where it is empty.
pub proof fn law_chunk_counts(size: u64)
    requires
        size <= 0xffff_ffff * 262_144,
    ensures
        size == 0 ==> announced_chunks(size) == 1,
        size > 0 ==> (announced_chunks(size) - 1) * 262_144 < size,
        size <= announced_chunks(size) * 262_144,
{
}

/// Beyond 2^32 chunks the count starts over.
pub proof fn law_chunk_counts_start_over(size: u64)
    requires
        size + 0x1_0000_0000 * 262_144 <= u64::MAX,
    ensures
        announced_chunks((size + 0x1_0000_0000 * 262_144) as u64) == announced_chunks(size),
{
    let more = (size + 0x1_0000_0000 * 262_144) as u64;
    assert(more + 262_143 == (size + 262_143) + 0x1_0000_0000 * 262_144);
    assert((more + 262_143) / 262_144 == (size + 262_143) / 262_144 + 0x1_0000_0000);
}

/// The reply to a request for a chunk. It is read from where the file lies, from
/// 262144 bytes for each chunk before it on: a whole chunk, or all that is left of
/// the file. What lies beyond the file is refused, and so is a file that is not
/// shared; an empty file has one chunk, which is empty.
pub proof fn law_chunk_requests(s: StateView, id: Seq<char>, index: u32)
    ensures
        !s.files.contains_key(id) ==> s.chunk_plan(id, index) == Err::<ChunkPlanView, Refusal>(
            Refusal::FileNotFound,
        ),
        s.files.contains_key(id) ==> {
            let file = s.files[id];
            let plan = s.chunk_plan(id, index);
            &&& file.total_size == 0 && index == 0 ==> plan == Ok::<ChunkPlanView, Refusal>(
                ChunkPlanView::Empty,
            )
            &&& file.total_size == 0 && index > 0 ==> plan == Err::<ChunkPlanView, Refusal>(
                Refusal::ChunkNotFound,
            )
            &&& file.total_size > 0 && index * 262_144 >= file.total_size ==> plan == Err::<
                ChunkPlanView,
                Refusal,
            >(Refusal::ChunkNotFound)
            &&& index * 262_144 < file.total_size ==> (plan matches Ok(
                ChunkPlanView::Read { path, offset, size },
            ) && {
                &&& path == file.path
                &&& offset == index * 262_144
                &&& 0 < size <= 262_144
                &&& offset + size <= file.total_size
                &&& size == 262_144 || offset + size == file.total_size
            })
        },
{
    if s.files.contains_key(id) {
        assert(chunk_start(index as nat) == index * 262_144);
    }
}

/// The bytes of a plan are those that are to be read, and carrying it out counts
/// them as sent, modulo 2^64, where they were read; nothing else changes.
pub proof fn law_chunk_replies_are_counted(
    s: StateView,
    path: Seq<char>,
    offset: u64,
    size: u64,
    read: ChunkRead,
)
    ensures
        ({
            let plan = ChunkPlanView::Read { path, offset, size };
            let t = s.answered(plan, read);
            &&& plan.bytes() == size
            &&& ChunkPlanView::Empty.bytes() == 0
            &&& read == ChunkRead::Done ==> t == (StateView { bytes_down: t.bytes_down, ..s })
            &&& read == ChunkRead::Done && s.bytes_down + size < 0x1_0000_0000_0000_0000
                ==> t.bytes_down == s.bytes_down + size
            &&& read == ChunkRead::Done && s.bytes_down + size >= 0x1_0000_0000_0000_0000
                ==> t.bytes_down == s.bytes_down + size - 0x1_0000_0000_0000_0000
            &&& read != ChunkRead::Done ==> t == s
            &&& s.answered(ChunkPlanView::Empty, read) == s
        }),
{
    law_wrapping_sums(s.bytes_down, size);
}

/// Counters that wrap around.
pub proof fn law_wrapping_sums(a: u64, b: u64)
    ensures
        a + b < 0x1_0000_0000_0000_0000 ==> add_wrapping(a, b) == a + b,
        a + b >= 0x1_0000_0000_0000_0000 ==> add_wrapping(a, b) == a + b
            - 0x1_0000_0000_0000_0000,
{
}

// Sharing.

/// What is drawn for a file: an id of thirty-six characters, digits in hexadecimal
/// but for its four hyphens, and a channel for 256 messages.
pub proof fn law_drawn_values(arrival: ArrivalView, i: int)
    requires
        arrival.valid(),
        0 <= i < 36,
    ensures
        arrival.id.len() == 36,
        i == 8 || i == 13 || i == 18 || i == 23 <==> arrival.id[i] == '-',
        arrival.id[i] == '-' || '0' <= arrival.id[i] <= '9' || 'a' <= arrival.id[i] <= 'f',
        arrival.channel.capacity == 256,
{
    if i != 8 && i != 13 && i != 18 && i != 23 {
        assert(hex_digit(arrival.id[i]));
    }
}

/// The record of a new file holds what the file came with: its whole name, its
/// size, its type and its path, and no downloads.
pub proof fn law_new_records(
    arrival: ArrivalView,
    name: Seq<char>,
    size: u64,
    mime: Seq<char>,
    path: Seq<char>,
)
    ensures
        ({
            let file = new_file(arrival, name, size, mime, path);
            &&& file.id == arrival.id
            &&& file.original_name == name
            &&& file.total_size == size
            &&& file.chunk_count == announced_chunks(size)
            &&& file.mime_type == mime
            &&& file.created_at == arrival.created_at
            &&& file.path == path
            &&& file.downloads == 0
        }),
{
}

/// The sender of a file has every chunk of it: its list goes up from zero, one by
/// one, and holds just the indices below the chunk count.
pub proof fn law_senders_have_every_chunk(
    file: FileView,
    lan_ip: Option<Seq<char>>,
    joined_at: Timestamp,
    c: u32,
)
    ensures
        ({
            let sender = sender_of(file, lan_ip, joined_at);
            &&& sender.has_chunks.len() == file.chunk_count
            &&& forall|i: int|
                0 <= i < sender.has_chunks.len() ==> #[trigger] sender.has_chunks[i] == i
            &&& sender.has_chunks.contains(c) <==> c < file.chunk_count
            &&& sender.peer_id == sender_id(file.id)
            &&& sender.file_id == file.id
            &&& sender.lan_addr == opt_host_port(lan_ip, 3738)
            &&& sender.joined_at == joined_at
            &&& sender.last_active == joined_at
        }),
{
    let chunks = sender_of(file, lan_ip, joined_at).has_chunks;
    if c < file.chunk_count {
        assert(chunks[c as int] == c);
    }
}

/// Each chunk that is served of a file that was just shared is one that its sender
/// is listed with.
pub proof fn law_served_chunks_are_seeded(
    s: StateView,
    file: FileView,
    lan_ip: Option<Seq<char>>,
    joined_at: Timestamp,
    channel: ChannelView,
    index: u32,
)
    requires
        s.registered(file, lan_ip, joined_at, channel).sound(),
        file.total_size <= MAX_COUNTED_SIZE,
        s.registered(file, lan_ip, joined_at, channel).chunk_plan(file.id, index) is Ok,
    ensures
        s.registered(file, lan_ip, joined_at, channel).swarm_peers(
            file.id,
        )[0].has_chunks.contains(index),
{
    let t = s.registered(file, lan_ip, joined_at, channel);
    law_shared_file_is_seeded(s, file, lan_ip, joined_at, channel);
    law_chunks_below_the_count_are_served(t, file.id, index);
    law_senders_have_every_chunk(file, lan_ip, joined_at, index);
}

/// Sharing a file enters it in each table under its id, and its id under its path;
/// all else stays.
pub proof fn law_sharing_spelled_out(
    s: StateView,
    file: FileView,
    lan_ip: Option<Seq<char>>,
    joined_at: Timestamp,
    channel: ChannelView,
)
    ensures
        s.registered(file, lan_ip, joined_at, channel) == (StateView {
            files: s.files.insert(file.id, file),
            peers: s.peers.insert(sender_id(file.id), sender_of(file, lan_ip, joined_at)),
            file_peers: s.file_peers.insert(file.id, seq![sender_id(file.id)]),
            signal_bus: s.signal_bus.insert(file.id, channel),
            path_index: s.path_index.insert(file.path, file.id),
            ..s
        }),
{
}

/// An upload is shared with the address of the server, and its size is counted as
/// received, modulo 2^64. Without a type it is a stream of bytes.
pub proof fn law_uploading_spelled_out(
    s: StateView,
    file: FileView,
    joined_at: Timestamp,
    channel: ChannelView,
    mime: Seq<char>,
)
    ensures
        ({
            let t = s.uploaded(file, joined_at, channel);
            &&& (StateView { bytes_up: s.bytes_up, ..t }) == s.registered(
                file,
                s.lan_ip,
                joined_at,
                channel,
            )
            &&& s.bytes_up + file.total_size < 0x1_0000_0000_0000_0000 ==> t.bytes_up == s.bytes_up
                + file.total_size
            &&& s.bytes_up + file.total_size >= 0x1_0000_0000_0000_0000 ==> t.bytes_up
                == s.bytes_up + file.total_size - 0x1_0000_0000_0000_0000
        }),
        upload_type(Some(mime)) == mime,
        upload_type(None) == "application/octet-stream"@,
{
    law_wrapping_sums(s.bytes_up, file.total_size);
}

/// A server starts with nothing shared and nothing counted.
pub proof fn law_starting_out(
    upload_dir: Seq<char>,
    sandbox_dir: Seq<char>,
    lan_ip: Option<Seq<char>>,
    k: Seq<char>,
)
    ensures
        ({
            let s = StateView::initial(upload_dir, sandbox_dir, lan_ip);
            &&& !s.files.contains_key(k) && !s.peers.contains_key(k)
            &&& !s.file_peers.contains_key(k) && !s.signal_bus.contains_key(k)
            &&& !s.path_index.contains_key(k)
            &&& s.upload_dir == upload_dir && s.sandbox_dir == sandbox_dir && s.lan_ip == lan_ip
            &&& s.public_url.len() == 0 && s.bytes_up == 0 && s.bytes_down == 0
        }),
{
}

// The folder at the start.

/// Whether an entry is one that is shared at the start: an ordinary file of a size
/// that can be told, whose name does not start with a dot.
pub open spec fn is_shared_at_start(entry: EntryView) -> bool {
    &&& entry.is_file
    &&& entry.size is Some
    &&& entry.name.len() == 0 || entry.name[0] != '.'
}

/// Importing an entry shares it just where it is an ordinary file of a size that
/// can be told, its name does not start with a dot, and its path is not known.
pub proof fn law_importing_an_entry(
    s: StateView,
    entry: EntryView,
    lan_ip: Option<Seq<char>>,
    arrival: ArrivalView,
)
    ensures
        is_shared_at_start(entry) && !s.path_index.contains_key(entry.path) ==> s.import_one(
            entry,
            lan_ip,
            arrival,
        ) == s.registered(
            new_file(arrival, entry.name, entry.size->0, mime_of(entry.name), entry.path),
            lan_ip,
            arrival.joined_at,
            arrival.channel,
        ),
        !is_shared_at_start(entry) || s.path_index.contains_key(entry.path) ==> s.import_one(
            entry,
            lan_ip,
            arrival,
        ) == s,
        s.import_one(entry, lan_ip, arrival).path_index.contains_key(entry.path)
            <==> s.path_index.contains_key(entry.path) || is_shared_at_start(entry),
{
}

/// After the import of a folder, the paths that are known are those that were
/// known and those of the entries that are shared at the start: all of them, and
/// no others.
pub proof fn law_importing_a_folder(
    s: StateView,
    entries: Seq<EntryView>,
    lan_ip: Option<Seq<char>>,
    arrivals: Seq<ArrivalView>,
    path: Seq<char>,
)
    ensures
        s.imported(entries, lan_ip, arrivals).path_index.contains_key(path)
            <==> s.path_index.contains_key(path) || exists|i: int|
            0 <= i < entries.len() && (#[trigger] entries[i]).path == path && is_shared_at_start(
                entries[i],
            ),
    decreases entries.len(),
{
    if entries.len() > 0 {
        let front = entries.drop_last();
        let n = front.len() as int;
        law_importing_a_folder(s, front, lan_ip, arrivals, path);
        law_importing_an_entry(
            s.imported(front, lan_ip, arrivals),
            entries.last(),
            lan_ip,
            arrivals[n],
        );
        assert(entries[n] == entries.last());
        if exists|i: int|
            0 <= i < front.len() && (#[trigger] front[i]).path == path && is_shared_at_start(
                front[i],
            ) {
            let i = choose|i: int|
                0 <= i < front.len() && (#[trigger] front[i]).path == path && is_shared_at_start(
                    front[i],
                );
            assert(entries[i] == front[i]);
        }
        if exists|i: int|
            0 <= i < entries.len() && (#[trigger] entries[i]).path == path && is_shared_at_start(
                entries[i],
            ) {
            let i = choose|i: int|
                0 <= i < entries.len() && (#[trigger] entries[i]).path == path
                    && is_shared_at_start(entries[i]);
            if i < n {
                assert(front[i] == entries[i]);
            }
        }
    }
}

/// Importing one entry more, behind the others, imports it with what is drawn for
/// its place into what the others leave; importing nothing changes nothing.
pub proof fn law_importing_one_more(
    s: StateView,
    entries: Seq<EntryView>,
    entry: EntryView,
    lan_ip: Option<Seq<char>>,
    arrivals: Seq<ArrivalView>,
)
    ensures
        s.imported(Seq::empty(), lan_ip, arrivals) == s,
        s.imported(entries.push(entry), lan_ip, arrivals) == s.imported(
            entries,
            lan_ip,
            arrivals,
        ).import_one(entry, lan_ip, arrivals[entries.len() as int]),
{
    assert(entries.push(entry).drop_last() =~= entries);
}

// Unsharing.

/// Forgetting a file takes it out of every table, and its path out of the index;
/// the peers that go are those that its swarm lists. All else stays.
pub proof fn law_forgetting_spelled_out(
    s: StateView,
    path: Seq<char>,
    id: Seq<char>,
    p: Seq<char>,
)
    ensures
        ({
            let t = s.forgotten(path, id);
            &&& t == (StateView {
                files: s.files.remove(id),
                peers: t.peers,
                file_peers: s.file_peers.remove(id),
                signal_bus: s.signal_bus.remove(id),
                path_index: s.path_index.remove(path),
                ..s
            })
            &&& t.peers.contains_key(p) <==> s.peers.contains_key(p) && !(
            s.file_peers.contains_key(id) && s.file_peers[id].contains(p))
            &&& t.peers.contains_key(p) ==> t.peers[p] == s.peers[p]
        }),
{
}

/// Deleting a file forgets it where it lies, and changes nothing where it is not
/// shared.
pub proof fn law_deleting_spelled_out(s: StateView, id: Seq<char>)
    ensures
        s.files.contains_key(id) ==> s.deleted(id) == s.forgotten(s.files[id].path, id),
        !s.files.contains_key(id) ==> s.deleted(id) == s,
{
}

// Swarms.

/// Joining enters the peer under its id, as one that has no chunks and is active
/// now, and puts it at the end of the swarm where it is not in it yet; all else
/// stays.
pub proof fn law_joining_spelled_out(
    s: StateView,
    fid: Seq<char>,
    peer_id: Seq<char>,
    lan_addr: Option<Seq<char>>,
    now: Timestamp,
)
    ensures
        ({
            let t = s.joined(fid, peer_id, lan_addr, now);
            let peer = PeerView {
                peer_id,
                file_id: fid,
                has_chunks: Seq::empty(),
                lan_addr,
                joined_at: now,
                last_active: now,
            };
            &&& t == (StateView {
                peers: s.peers.insert(peer_id, peer),
                file_peers: t.file_peers,
                ..s
            })
            &&& s.file_peers.contains_key(fid) && !s.file_peers[fid].contains(peer_id)
                ==> t.file_peers == s.file_peers.insert(fid, s.file_peers[fid].push(peer_id))
            &&& !s.file_peers.contains_key(fid) || s.file_peers[fid].contains(peer_id)
                ==> t.file_peers == s.file_peers
        }),
{
}

proof fn lemma_new_chunks(known: Seq<u32>, new_chunks: Seq<u32>, c: u32)
    ensures
        chunks_not_in(known, new_chunks).contains(c) <==> new_chunks.contains(c) && !known.contains(
            c,
        ),
    decreases new_chunks.len(),
{
    if new_chunks.len() > 0 {
        let front = new_chunks.drop_last();
        let last = new_chunks.last();
        let before = chunks_not_in(known, front);
        lemma_new_chunks(known, front, c);
        assert(new_chunks =~= front.push(last));
        assert(front.push(last).contains(c) <==> front.contains(c) || c == last) by {
            lemma_push_contains(front, last, c);
        }
        lemma_push_contains(before, last, c);
    }
}

proof fn lemma_push_contains(s: Seq<u32>, x: u32, c: u32)
    ensures
        s.push(x).contains(c) <==> s.contains(c) || c == x,
{
    if s.contains(c) {
        let k = choose|k: int| 0 <= k < s.len() && s[k] == c;
        assert(s.push(x)[k] == c);
    }
    if c == x {
        assert(s.push(x)[s.len() as int] == c);
    }
    if s.push(x).contains(c) {
        let k = choose|k: int| 0 <= k < s.push(x).len() && s.push(x)[k] == c;
        if k < s.len() {
            assert(s[k] == c);
        }
    }
}

/// A chunk update that is posted is noted in full: afterwards the peer has a chunk
/// just where it had it or the update names it, the chunks it had stand where they
/// stood, and it is active now. The rest of the peer, the other peers and all else
/// stay; where there is no such peer, everything does.
pub proof fn law_posted_updates_are_noted(
    s: StateView,
    p: Seq<char>,
    new_chunks: Seq<u32>,
    now: Timestamp,
    c: u32,
)
    ensures
        ({
            let t = s.noted(SignalView::ChunkUpdate { peer_id: p, new_chunks }, now);
            let before = s.peers[p];
            let after = t.peers[p];
            &&& s.peers.contains_key(p) ==> {
                &&& after.has_chunks.contains(c) <==> before.has_chunks.contains(c)
                    || new_chunks.contains(c)
                &&& before.has_chunks.is_prefix_of(after.has_chunks)
                &&& after.last_active == now
                &&& after == (PeerView {
                    has_chunks: after.has_chunks,
                    last_active: after.last_active,
                    ..before
                })
                &&& t == (StateView { peers: s.peers.insert(p, after), ..s })
            }
            &&& !s.peers.contains_key(p) ==> t == s
        }),
{
    if s.peers.contains_key(p) {
        let before = s.peers[p].has_chunks;
        let added = chunks_not_in(before, new_chunks);
        let after = s.noted(SignalView::ChunkUpdate { peer_id: p, new_chunks }, now).peers[
            p
        ].has_chunks;
        lemma_new_chunks(before, new_chunks, c);
        assert(after == before + added);
        if before.contains(c) {
            let k = choose|k: int| 0 <= k < before.len() && before[k] == c;
            assert(after[k] == c);
        }
        if added.contains(c) {
            let k = choose|k: int| 0 <= k < added.len() && added[k] == c;
            assert(after[before.len() + k] == c);
        }
        if after.contains(c) {
            let k = choose|k: int| 0 <= k < after.len() && after[k] == c;
            if k < before.len() {
                assert(before[k] == c);
            } else {
                assert(added[k - before.len()] == c);
            }
        }
    }
}

/// The chunks that an update adds come in its order: those of a longer update are
/// those of its beginning and then those of its end, and a single chunk is added
/// just where it is not known.
pub proof fn law_new_chunks_come_in_order(known: Seq<u32>, a: Seq<u32>, b: Seq<u32>, c: u32)
    ensures
        chunks_not_in(known, a + b) == chunks_not_in(known, a) + chunks_not_in(known, b),
        known.contains(c) ==> chunks_not_in(known, seq![c]) == Seq::<u32>::empty(),
        !known.contains(c) ==> chunks_not_in(known, seq![c]) == seq![c],
    decreases b.len(),
{
    assert(seq![c].drop_last() =~= Seq::empty());
    assert(chunks_not_in(known, seq![c].drop_last()) =~= Seq::empty());
    assert(Seq::<u32>::empty().push(c) =~= seq![c]);
    if b.len() == 0 {
        assert(a + b =~= a);
        assert(chunks_not_in(known, a) + chunks_not_in(known, b) =~= chunks_not_in(known, a));
    } else {
        let front = b.drop_last();
        law_new_chunks_come_in_order(known, a, front, c);
        assert((a + b).drop_last() =~= a + front);
        assert((a + b).last() == b.last());
        assert(chunks_not_in(known, a + b) =~= chunks_not_in(known, a) + chunks_not_in(known, b));
    }
}

/// A message that is no chunk update changes nothing.
pub proof fn law_other_messages_change_nothing(s: StateView, msg: SignalView, now: Timestamp)
    requires
        !(msg is ChunkUpdate),
    ensures
        s.noted(msg, now) == s,
{
}

/// Cleaning up leaves a peer just where its id starts with `sender-` or it was
/// active in the last 300 seconds. The peers that stay are unchanged, and so is all
/// else.
pub proof fn law_cleaning_spelled_out(s: StateView, now: Timestamp, p: Seq<char>)
    ensures
        ({
            let t = s.cleaned(now);
            let last = s.peers[p].last_active;
            &&& t == (StateView { peers: t.peers, ..s })
            &&& t.peers.contains_key(p) <==> s.peers.contains_key(p) && (starts_with(
                s.peers[p].peer_id,
                "sender-"@,
            ) || (now.secs - last.secs) * 1_000_000_000 + now.nanos - last.nanos
                <= 300_000_000_000)
            &&& t.peers.contains_key(p) ==> t.peers[p] == s.peers[p]
        }),
{
}

/// The swarm of a file is what is entered for it, or nothing.
pub proof fn law_swarms(s: StateView, fid: Seq<char>)
    ensures
        s.file_peers.contains_key(fid) ==> s.swarm(fid) == s.file_peers[fid],
        !s.file_peers.contains_key(fid) ==> s.swarm(fid) == Seq::<Seq<char>>::empty(),
        s.swarm_peers(fid) == present(s.peers, s.swarm(fid)),
        s.files.contains_key(fid) ==> s.announced(fid) == s.files[fid].chunk_count,
        !s.files.contains_key(fid) ==> s.announced(fid) == 0,
        s.link(fid) == download_link(base_url(s.public_url), fid),
{
}

/// The peers that some names stand for come in the order of the names: those of a
/// longer list are those of its beginning and then those of its end, and a single
/// name stands for the peer that has it, or for none.
pub proof fn law_peers_come_in_order(
    peers: Map<Seq<char>, PeerView>,
    a: Seq<Seq<char>>,
    b: Seq<Seq<char>>,
    p: Seq<char>,
)
    ensures
        present(peers, a + b) == present(peers, a) + present(peers, b),
        peers.contains_key(p) ==> present(peers, seq![p]) == seq![peers[p]],
        !peers.contains_key(p) ==> present(peers, seq![p]) == Seq::<PeerView>::empty(),
    decreases b.len(),
{
    assert(seq![p].drop_last() =~= Seq::empty());
    assert(present(peers, seq![p].drop_last()) =~= Seq::empty());
    assert(Seq::<PeerView>::empty().push(peers[p]) =~= seq![peers[p]]);
    if b.len() == 0 {
        assert(a + b =~= a);
        assert(present(peers, a) + present(peers, b) =~= present(peers, a));
    } else {
        let front = b.drop_last();
        law_peers_come_in_order(peers, a, front, p);
        assert((a + b).drop_last() =~= a + front);
        assert((a + b).last() == b.last());
        assert(present(peers, a + b) =~= present(peers, a) + present(peers, b));
    }
}

// Downloads and the tunnel.

/// A full download counts one download of the file and its size as sent, modulo
/// 2^64; all else stays, and everything where the file is not shared.
pub proof fn law_downloading_spelled_out(s: StateView, fid: Seq<char>)
    ensures
        ({
            let t = s.downloaded(fid);
            let before = s.files[fid];
            let after = t.files[fid];
            &&& !s.files.contains_key(fid) ==> t == s
            &&& s.files.contains_key(fid) ==> {
                &&& t == (StateView {
                    files: s.files.insert(fid, after),
                    bytes_down: t.bytes_down,
                    ..s
                })
                &&& after == (FileView { downloads: after.downloads, ..before })
                &&& before.downloads < u64::MAX ==> after.downloads == before.downloads + 1
                &&& before.downloads == u64::MAX ==> after.downloads == 0
                &&& s.bytes_down + before.total_size < 0x1_0000_0000_0000_0000 ==> t.bytes_down
                    == s.bytes_down + before.total_size
                &&& s.bytes_down + before.total_size >= 0x1_0000_0000_0000_0000 ==> t.bytes_down
                    == s.bytes_down + before.total_size - 0x1_0000_0000_0000_0000
            }
        }),
{
    if s.files.contains_key(fid) {
        law_wrapping_sums(s.files[fid].downloads, 1);
        law_wrapping_sums(s.bytes_down, s.files[fid].total_size);
    }
}

/// Setting the tunnel keeps its cleaned address and changes nothing else.
pub proof fn law_tunnelling_spelled_out(s: StateView, url: Seq<char>)
    ensures
        s.tunnelled(url) == (StateView { public_url: clean_url(url), ..s }),
{
}

/// A path is taken just where an ordinary file is there and it is not known.
pub proof fn law_taking_paths(s: StateView, path: Seq<char>, is_file: bool)
    ensures
        s.takes(path, is_file) <==> is_file && !s.path_index.contains_key(path),
{
}

/// What a sound server has of each file: a record under its id with the chunk
/// count of its size, a channel for 256 messages, and a swarm that lists no peer
/// twice and its sender first. And of each peer: a record under its id.
pub proof fn law_sound_servers(s: StateView, id: Seq<char>, p: Seq<char>)
    requires
        s.sound(),
    ensures
        s.files.contains_key(id) <==> s.file_peers.contains_key(id),
        s.files.contains_key(id) <==> s.signal_bus.contains_key(id),
        s.files.contains_key(id) ==> {
            &&& is_uuid(id)
            &&& s.files[id].id == id
            &&& s.files[id].chunk_count == announced_chunks(s.files[id].total_size)
            &&& s.signal_bus[id].capacity == 256
            &&& s.file_peers[id].no_duplicates()
            &&& s.file_peers[id].len() > 0
            &&& s.file_peers[id][0] == sender_id(id)
        },
        s.peers.contains_key(p) ==> s.peers[p].peer_id == p,
{
    assert(s.files.dom().contains(id) <==> s.file_peers.dom().contains(id));
    assert(s.files.dom().contains(id) <==> s.signal_bus.dom().contains(id));
    if s.files.contains_key(id) {
        assert(s.sound_file(id));
    }
    if s.peers.contains_key(p) {
        assert(s.sound_peer(p));
    }
}

/// What a linked server has: each path leads to the file that lies there, and each
/// peer is listed in the swarm that it belongs to. Where the channels are apart, no
/// two files share one.
pub proof fn law_linked_servers(
    s: StateView,
    path: Seq<char>,
    p: Seq<char>,
    a: Seq<char>,
    b: Seq<char>,
)
    requires
        s.linked(),
        s.apart(),
    ensures
        s.path_index.contains_key(path) ==> s.files.contains_key(s.path_index[path])
            && s.files[s.path_index[path]].path == path,
        s.peers.contains_key(p) ==> s.file_peers.contains_key(s.peers[p].file_id)
            && s.file_peers[s.peers[p].file_id].contains(p),
        s.signal_bus.contains_key(a) && s.signal_bus.contains_key(b) && a != b
            ==> s.signal_bus[a].identity != s.signal_bus[b].identity,
{
    if s.path_index.contains_key(path) {
        assert(s.leads(path));
    }
    if s.peers.contains_key(p) {
        assert(s.listed(p));
    }
}

/// A channel is new where no file has it.
pub proof fn law_new_channels(s: StateView, channel: ChannelView, id: Seq<char>)
    requires
        s.is_new(channel),
        s.signal_bus.contains_key(id),
    ensures
        s.signal_bus[id].identity != channel.identity,
{
}

// Time.

/// The seconds between two moments are whole: they are not more than the time
/// between the moments, and one more would be; from the later to the earlier they
/// count down.
pub proof fn law_seconds(now: Timestamp, then: Timestamp)
    ensures
        ({
            let time = (now.secs - then.secs) * 1_000_000_000 + now.nanos - then.nanos;
            let seconds = seconds_between(now, then);
            &&& nanos_between(now, then) == time
            &&& time >= 0 ==> seconds * 1_000_000_000 <= time < (seconds + 1) * 1_000_000_000
            &&& seconds_between(then, now) == -seconds
        }),
{
}

// The watched folder.

/// An entry counts just where the file system says that it is an ordinary file and
/// its name does not start with a dot, whatever its size.
pub proof fn law_entries_that_count(name: Seq<char>, is_file: bool, size: u64)
    ensures
        counts(name, Some(FileStat { is_file, size })) <==> is_file && (name.len() == 0 || name[0]
            != '.'),
        !counts(name, None),
{
}

/// A file of whatever size that is dropped into the folder is shared: the first
/// scan that comes upon it leaves it, and the next one that finds it with the same
/// size shares it, under its name and path and with its size.
pub proof fn law_dropped_files_are_shared(
    f: Folder,
    name: Seq<char>,
    path: Seq<char>,
    size: u64,
    first: ArrivalView,
    second: ArrivalView,
)
    requires
        name.len() == 0 || name[0] != '.',
        f.watch.sighting(path) is None,
        !f.state.path_index.contains_key(path),
    ensures
        ({
            let stat = Some(FileStat { is_file: true, size });
            let g = f.met(Found { name, path, stat, later: stat, arrival: first });
            let h = Folder { state: g.state, watch: g.watch.finished() };
            let t = h.met(Found { name, path, stat, later: stat, arrival: second });
            &&& g.state == f.state
            &&& t.state.path_index.contains_key(path)
            &&& t.state.path_index[path] == second.id
            &&& t.state.files[second.id].original_name == name
            &&& t.state.files[second.id].total_size == size
            &&& t.state.files[second.id].path == path
            &&& t.state.files[second.id].mime_type == mime_of(name)
        }),
{
}

/// A file that has settled is shared as it is when it is looked at again, unless it
/// is known or gone by then; one that has not settled is left.
pub proof fn law_settled_files_are_shared(
    f: Folder,
    name: Seq<char>,
    path: Seq<char>,
    size: u64,
    later: Option<FileStat>,
    arrival: ArrivalView,
)
    requires
        name.len() == 0 || name[0] != '.',
    ensures
        ({
            let stat = Some(FileStat { is_file: true, size });
            let found = Found { name, path, stat, later, arrival };
            let due = next_sighting(f.watch.sighting(path), size).ticks >= 2
                && !f.state.path_index.contains_key(path) && later is Some && later->0.is_file;
            let t = f.met(found).state;
            &&& due ==> t == f.state.registered(
                new_file(arrival, name, later->0.size, mime_of(name), path),
                f.state.lan_ip,
                arrival.joined_at,
                arrival.channel,
            )
            &&& !due ==> t == f.state
            &&& f.registers(found) <==> due
            &&& f.file_of(found) == new_file(arrival, name, later->0.size, mime_of(name), path)
            &&& entry_found(name, path, stat, later, arrival) == found
        }),
{
}

/// An entry that is no ordinary file, or whose name starts with a dot, is passed
/// over; of every other one its size is remembered.
pub proof fn law_entries_are_watched(f: Folder, entry: Found)
    ensures
        ({
            let ordinary = entry.stat matches Some(st) && st.is_file;
            let visible = entry.name.len() == 0 || entry.name[0] != '.';
            &&& ordinary && visible ==> f.met(entry).watch == f.watch.seen(
                entry.path,
                entry.stat->0.size,
            )
            &&& !ordinary || !visible ==> f.met(entry) == f
        }),
{
}

/// Coming upon one entry leaves what is known and remembered of every other path.
pub proof fn law_entries_are_met_apart(f: Folder, entry: Found, path: Seq<char>)
    requires
        entry.path != path,
    ensures
        ({
            let g = f.met(entry);
            &&& g.watch.sighting(path) == f.watch.sighting(path)
            &&& g.watch.current.contains(path) <==> f.watch.current.contains(path)
            &&& g.state.path_index.contains_key(path) <==> f.state.path_index.contains_key(path)
            &&& f.state.path_index.contains_key(path) ==> g.state.path_index[path]
                == f.state.path_index[path]
        }),
{
}

/// What is remembered: of a file that is come upon its size, and one equal sighting
/// more or none; at the end of a scan, what the scan came upon and nothing else.
pub proof fn law_remembering(w: WatchView, path: Seq<char>, size: u64)
    ensures
        ({
            let t = w.seen(path, size);
            let after = t.sighting(path)->0;
            &&& t.sighting(path) is Some
            &&& after.size == size
            &&& w.sighting(path) is None ==> after.ticks == 1
            &&& w.sighting(path) matches Some(b) ==> {
                &&& b.size != size ==> after.ticks == 0
                &&& b.size == size && b.ticks < 255 ==> after.ticks == b.ticks + 1
                &&& b.size == size && b.ticks == 255 ==> after.ticks == 255
            }
            &&& after.settled() <==> after.ticks >= 2
            &&& t.current.contains(path)
            &&& w.current.contains(path) ==> w.finished().sighting(path) == w.sighting(path)
            &&& !w.current.contains(path) ==> w.finished().sighting(path) is None
            &&& w.finished().current.is_empty()
        }),
{
    assert(w.finished().current =~= Set::empty());
}

/// The index entries that a scan misses come in the order of the index: those of a
/// longer index are those of its beginning and then those of its end, and a single
/// entry is missed just where the scan did not come upon its path.
pub proof fn law_missing_entries_come_in_order(
    a: Seq<(Seq<char>, Seq<char>)>,
    b: Seq<(Seq<char>, Seq<char>)>,
    current: Set<Seq<char>>,
    entry: (Seq<char>, Seq<char>),
)
    ensures
        missing(a + b, current) == missing(a, current) + missing(b, current),
        current.contains(entry.0) ==> missing(seq![entry], current) == Seq::<
            (Seq<char>, Seq<char>),
        >::empty(),
        !current.contains(entry.0) ==> missing(seq![entry], current) == seq![entry],
    decreases b.len(),
{
    assert(seq![entry].drop_last() =~= Seq::empty());
    assert(missing(seq![entry].drop_last(), current) =~= Seq::empty());
    assert(Seq::<(Seq<char>, Seq<char>)>::empty().push(entry) =~= seq![entry]);
    if b.len() == 0 {
        assert(a + b =~= a);
        assert(missing(a, current) + missing(b, current) =~= missing(a, current));
    } else {
        let front = b.drop_last();
        law_missing_entries_come_in_order(a, front, current, entry);
        assert((a + b).drop_last() =~= a + front);
        assert((a + b).last() == b.last());
        assert(missing(a + b, current) =~= missing(a, current) + missing(b, current));
    }
}

// Bytes on their way.

/// A piece that was written adds its length to an upload; one that was not makes it
/// empty. An upload is registered with its size, unless it is empty and not on
/// disk. What moved between two readings is what the second has more.
pub proof fn law_uploads_and_traffic(size: u64, len: u64, before: u64, after: u64)
    requires
        size + len <= u64::MAX,
    ensures
        size_with_piece(size, len, true) == size + len,
        size_with_piece(size, len, false) == 0,
        size > 0 ==> registered_size(size, true) == Some(size) && registered_size(size, false)
            == Some(size),
        registered_size(0, true) == Some(0u64),
        registered_size(0, false) == None::<u64>,
        before + moved(before, after) == after,
{
}

// What is told.

/// A new file of the folder is told of as it is in its record, with its link.
pub proof fn law_told_of_new_files(e: SandboxFileAddedEvent, s: StateView, file: FileView)
    requires
        e.tells_of(s, file),
    ensures
        e.file_id@ == file.id,
        e.name@ == file.original_name,
        e.total_size == file.total_size,
        e.chunk_count == file.chunk_count,
        e.mime_type@ == file.mime_type,
        e.download_url@ == download_link(base_url(s.public_url), file.id),
{
}

/// An upload is told of as it is in its record: to its sender, to the window with
/// its links and its QR code, and to its channel.
pub proof fn law_told_of_uploads(
    o: UploadOutcome,
    s: StateView,
    file: FileView,
    channel: ChannelView,
)
    requires
        o.tells_of(s, file, channel),
    ensures
        ({
            let link = download_link(base_url(s.public_url), file.id);
            let r = o.reply;
            let e = o.event;
            &&& r.id@ == file.id && e.file_id@ == file.id
            &&& r.name@ == file.original_name && e.name@ == file.original_name
            &&& r.size_human@ == human_size(file.total_size) && e.total_size == file.total_size
            &&& r.chunk_count == file.chunk_count && e.chunk_count == file.chunk_count
            &&& r.download_url@ == link && e.download_url@ == link
            &&& opt_text(e.lan_url) == opt_lan_link(s.lan_ip, file.id)
            &&& e.qr_svg@ == link_qr_or_nothing(link)
            &&& o.ready.msg@ == (SignalView::FileReady {
                file_id: file.id,
                name: file.original_name,
                total_size: file.total_size,
                chunk_count: file.chunk_count,
                lan_addr: opt_host_port(s.lan_ip, 3737),
            })
            &&& sender_channel(o.ready.channel) == channel.identity
            &&& channel_capacity(o.ready.channel) == channel.capacity
        }),
{
}

/// A shared file is listed as it is in its record, with its links, the number of
/// all peers that its swarm lists and all its downloads.
pub proof fn law_told_of_shared_files(a: ActiveFile, s: StateView, file: FileView)
    requires
        a.tells_of(s, file),
    ensures
        a.id@ == file.id,
        a.name@ == file.original_name,
        a.total_size == file.total_size,
        a.size_human@ == human_size(file.total_size),
        a.chunk_count == file.chunk_count,
        a.mime_type@ == file.mime_type,
        a.download_url@ == download_link(base_url(s.public_url), file.id),
        opt_text(a.lan_url) == opt_lan_link(s.lan_ip, file.id),
        a.peers == s.swarm(file.id).len(),
        a.downloads == file.downloads,
{
}

/// The metadata of a file are those of its record, with every peer of the swarm in
/// its place, and each peer with all its chunks.
pub proof fn law_told_of_swarms(m: FileMeta, file: FileView, swarm: Seq<PeerView>, i: int)
    requires
        m.tells_of(file, swarm),
    ensures
        m.id@ == file.id,
        m.name@ == file.original_name,
        m.total_size == file.total_size,
        m.chunk_count == file.chunk_count,
        m.mime_type@ == file.mime_type,
        m.lan_port == 3738,
        m.peers.len() == swarm.len(),
        0 <= i < swarm.len() ==> {
            &&& m.peers@[i].peer_id@ == swarm[i].peer_id
            &&& m.peers@[i].has_chunks@ == swarm[i].has_chunks
            &&& opt_text(m.peers@[i].lan_addr) == swarm[i].lan_addr
        },
{
    if 0 <= i < swarm.len() {
        assert(m.peers@[i].tells_of(swarm[i]));
    }
}

/// The peers of a swarm are told of one by one, each with all its chunks and the
/// whole seconds since it joined.
pub proof fn law_told_of_peers(
    list: Seq<PeerStatus>,
    peers: Seq<PeerView>,
    nows: Seq<Timestamp>,
    i: int,
)
    requires
        told_at(list, peers, nows),
    ensures
        list.len() == peers.len(),
        nows.len() == peers.len(),
        0 <= i < peers.len() ==> {
            &&& nows[i].valid()
            &&& list[i].peer.peer_id@ == peers[i].peer_id
            &&& list[i].peer.has_chunks@ == peers[i].has_chunks
            &&& opt_text(list[i].peer.lan_addr) == peers[i].lan_addr
            &&& list[i].age_secs == seconds_between(nows[i], peers[i].joined_at)
        },
{
    if 0 <= i < peers.len() {
        assert(nows[i].valid());
        assert(list[i].tells_of(peers[i], nows[i]));
    }
}

/// A peer that joined is told of with the number of all peers in the swarm and the
/// chunk count of the file; its announcement goes to the channel of the file, to
/// which its receiver listens.
pub proof fn law_told_of_joining(
    j: Joined,
    after: StateView,
    fid: Seq<char>,
    peer_id: Seq<char>,
    lan_addr: Option<Seq<char>>,
)
    requires
        j.tells_of(after, fid, peer_id, lan_addr),
    ensures
        j.peer_id@ == peer_id,
        j.announcement.msg@ == (SignalView::PeerJoined {
            peer_id,
            lan_addr,
            has_chunks: Seq::empty(),
        }),
        sender_channel(j.announcement.channel) == after.signal_bus[fid].identity,
        channel_capacity(j.announcement.channel) == after.signal_bus[fid].capacity,
        receiver_channel(j.heard) == after.signal_bus[fid].identity,
        j.swarm.file_id@ == fid,
        j.swarm.peer_count == after.swarm(fid).len(),
        after.files.contains_key(fid) ==> j.swarm.chunks_available == after.files[fid].chunk_count,
        !after.files.contains_key(fid) ==> j.swarm.chunks_available == 0,
{
}

/// A whole file is sent from where it lies, under its name and with its type.
pub proof fn law_told_of_full_files(f: FullFile, file: FileView)
    requires
        f.tells_of(file),
    ensures
        f.path@ == file.path,
        f.original_name@ == file.original_name,
        f.mime_type@ == file.mime_type,
{
}

/// The message that a file is ready holds what its record holds.
pub proof fn law_ready_messages(file: FileView, lan_ip: Option<Seq<char>>)
    ensures
        file_ready(file, lan_ip) == (SignalView::FileReady {
            file_id: file.id,
            name: file.original_name,
            total_size: file.total_size,
            chunk_count: file.chunk_count,
            lan_addr: opt_host_port(lan_ip, 3737),
        }),
{
}

// Records and messages.

/// A record of a file is read field by field.
pub proof fn law_file_records(r: FileRecord)
    ensures
        r@.id == r.id@,
        r@.original_name == r.original_name@,
        r@.total_size == r.total_size,
        r@.chunk_count == r.chunk_count,
        r@.mime_type == r.mime_type@,
        r@.created_at == r.created_at,
        r@.path == r.path@,
        r@.downloads == r.download_count.0,
{
}

/// A record of a peer is read field by field.
pub proof fn law_peer_records(p: PeerInfo)
    ensures
        p@.peer_id == p.peer_id@,
        p@.file_id == p.file_id@,
        p@.has_chunks == p.has_chunks@,
        p@.lan_addr == opt_text(p.lan_addr),
        p@.joined_at == p.joined_at,
        p@.last_active == p.last_active,
{
}

/// A message is read field by field.
pub proof fn law_messages(msg: SignalMsg)
    ensures
        match msg {
            SignalMsg::PeerJoined { peer_id, lan_addr, has_chunks } => msg@ == (
            SignalView::PeerJoined {
                peer_id: peer_id@,
                lan_addr: opt_text(lan_addr),
                has_chunks: has_chunks@,
            }),
            SignalMsg::Offer { from, to, sdp } => msg@ == (SignalView::Offer {
                from: from@,
                to: to@,
                sdp: sdp@,
            }),
            SignalMsg::Answer { from, to, sdp } => msg@ == (SignalView::Answer {
                from: from@,
                to: to@,
                sdp: sdp@,
            }),
            SignalMsg::Ice { from, to, candidate } => msg@ == (SignalView::Ice {
                from: from@,
                to: to@,
                candidate: candidate@,
            }),
            SignalMsg::PeerLeft { peer_id } => msg@ == (SignalView::PeerLeft { peer_id: peer_id@ }),
            SignalMsg::ChunkUpdate { peer_id, new_chunks } => msg@ == (SignalView::ChunkUpdate {
                peer_id: peer_id@,
                new_chunks: new_chunks@,
            }),
            SignalMsg::FileReady { file_id, name, total_size, chunk_count, lan_addr } => msg@ == (
            SignalView::FileReady {
                file_id: file_id@,
                name: name@,
                total_size,
                chunk_count,
                lan_addr: opt_text(lan_addr),
            }),
        },
{
}

/// What was drawn is read field by field.
pub proof fn law_arrivals(a: Arrival)
    ensures
        a@.id == a.id@,
        a@.created_at == a.created_at,
        a@.joined_at == a.joined_at,
        a@.channel.identity == sender_channel(a.channel),
        a@.channel.capacity == channel_capacity(a.channel),
{
}

/// The entries of the folder are read one by one, field by field.
pub proof fn law_folder_entries(entries: Seq<SandboxEntry>, i: int)
    ensures
        entry_views(entries).len() == entries.len(),
        0 <= i < entries.len() ==> entry_views(entries)[i] == (EntryView {
            name: entries[i].name@,
            path: entries[i].path@,
            is_file: entries[i].is_file,
            size: entries[i].size,
        }),
{
}

/// The paths of the index are read one by one, each with the file it leads to.
pub proof fn law_index_entries(index: Seq<IndexEntry>, i: int)
    ensures
        index_pairs(index).len() == index.len(),
        0 <= i < index.len() ==> index_pairs(index)[i] == (index[i].path@, index[i].file_id@),
{
}

/// A plan for a chunk is read field by field.
pub proof fn law_chunk_plans(plan: ChunkPlan)
    ensures
        plan matches ChunkPlan::Empty ==> plan@ == ChunkPlanView::Empty,
        plan matches ChunkPlan::Read { path, offset, size } ==> plan@ == (ChunkPlanView::Read {
            path: path@,
            offset,
            size,
        }),
{
}

/// An outgoing message is the message, with the channel that it goes to.
pub proof fn law_outgoing_messages(out: Outgoing, msg: SignalView, channel: ChannelView)
    ensures
        channel_of(out.channel).identity == sender_channel(out.channel),
        channel_of(out.channel).capacity == channel_capacity(out.channel),
        out.carries(msg, channel) <==> out.msg@ == msg && sender_channel(out.channel)
            == channel.identity && channel_capacity(out.channel) == channel.capacity,
{
}

} // verus!
