//! What the server knows, and how it changes: the shared files, the swarm of
//! each, and the counts of bytes moved.

use crate::channel::ChannelView;
use crate::chunks::{all_chunks, announced_chunks, chunk_len, chunk_start, has_chunk};
use crate::clock::{nanos_between, Timestamp};
use crate::http::Refusal;
use crate::ident::{is_uuid, sender_id, sender_prefix};
use crate::links::{base_url, clean_url, download_link, opt_host_port, LAN_PORT};
use crate::model::{add_wrapping, FileView, PeerView, SignalView};
use crate::names::{hidden, mime_of};
use crate::text::starts_with;
use vstd::prelude::*;

verus! {

/// How many messages the signaling channel of a file holds.
pub const BUS_CAPACITY: usize = 256;

/// For how many seconds without activity a receiving peer is kept.
pub const STALE_SECONDS: i64 = 300;

/// All that the server knows.
#[verifier::ext_equal]
pub struct StateView {
    /// The shared files, by id.
    pub files: Map<Seq<char>, FileView>,
    /// The peers of all swarms, by id.
    pub peers: Map<Seq<char>, PeerView>,
    /// The ids of the peers in the swarm of each file, in the order in which
    /// they came.
    pub file_peers: Map<Seq<char>, Seq<Seq<char>>>,
    /// The signaling channel of each file.
    pub signal_bus: Map<Seq<char>, ChannelView>,
    /// The id of the file at each path.
    pub path_index: Map<Seq<char>, Seq<char>>,
    /// Where uploads are stored.
    pub upload_dir: Seq<char>,
    /// The folder that is watched.
    pub sandbox_dir: Seq<char>,
    /// The address of the tunnel, or nothing.
    pub public_url: Seq<char>,
    /// The address on the local network.
    pub lan_ip: Option<Seq<char>>,
    /// The bytes received, modulo 2^64.
    pub bytes_up: u64,
    /// The bytes sent, modulo 2^64.
    pub bytes_down: u64,
}

/// What is drawn when a file is registered: its id, the moments at which the
/// file and its sender are entered, and its signaling channel.
#[verifier::ext_equal]
pub struct ArrivalView {
    pub id: Seq<char>,
    pub created_at: Timestamp,
    pub joined_at: Timestamp,
    pub channel: ChannelView,
}

impl ArrivalView {
    /// Whether this can have been drawn.
    pub open spec fn valid(self) -> bool {
        &&& is_uuid(self.id)
        &&& self.created_at.valid()
        &&& self.joined_at.valid()
        &&& self.channel.capacity == BUS_CAPACITY
    }
}

/// An entry of the watched folder, as it is found at the start.
#[verifier::ext_equal]
pub struct EntryView {
    pub name: Seq<char>,
    pub path: Seq<char>,
    pub is_file: bool,
    pub size: Option<u64>,
}

/// The record of a file that is new.
pub open spec fn new_file(
    arrival: ArrivalView,
    name: Seq<char>,
    size: u64,
    mime: Seq<char>,
    path: Seq<char>,
) -> FileView {
    FileView {
        id: arrival.id,
        original_name: name,
        total_size: size,
        chunk_count: announced_chunks(size),
        mime_type: mime,
        created_at: arrival.created_at,
        path,
        downloads: 0,
    }
}

/// The peer that sends `file`: it has every chunk.
pub open spec fn sender_of(
    file: FileView,
    lan_ip: Option<Seq<char>>,
    joined_at: Timestamp,
) -> PeerView {
    PeerView {
        peer_id: sender_id(file.id),
        file_id: file.id,
        has_chunks: all_chunks(file.chunk_count),
        lan_addr: opt_host_port(lan_ip, LAN_PORT),
        joined_at,
        last_active: joined_at,
    }
}

/// Those of `new_chunks` that are not in `known`, in their order.
pub open spec fn chunks_not_in(known: Seq<u32>, new_chunks: Seq<u32>) -> Seq<u32>
    decreases new_chunks.len(),
{
    if new_chunks.len() == 0 {
        Seq::empty()
    } else {
        let before = chunks_not_in(known, new_chunks.drop_last());
        if known.contains(new_chunks.last()) {
            before
        } else {
            before.push(new_chunks.last())
        }
    }
}

/// The peers that `ids` name, in the order of the names; a name that no peer
/// has is passed over.
pub open spec fn present(peers: Map<Seq<char>, PeerView>, ids: Seq<Seq<char>>) -> Seq<PeerView>
    decreases ids.len(),
{
    if ids.len() == 0 {
        Seq::empty()
    } else {
        let before = present(peers, ids.drop_last());
        if peers.contains_key(ids.last()) {
            before.push(peers[ids.last()])
        } else {
            before
        }
    }
}

/// Whether a peer is dropped at `now`: it is not a sender, and was last active
/// more than `STALE_SECONDS` seconds ago.
pub open spec fn stale(peer: PeerView, now: Timestamp) -> bool {
    &&& nanos_between(now, peer.last_active) > STALE_SECONDS * 1_000_000_000
    &&& !starts_with(peer.peer_id, sender_prefix())
}

/// What is to be done for a request for a chunk.
#[verifier::ext_equal]
pub enum ChunkPlanView {
    /// The chunk is empty.
    Empty,
    /// The chunk is to be read from `path`.
    Read { path: Seq<char>, offset: u64, size: u64 },
}

impl ChunkPlanView {
    /// The number of bytes in the chunk.
    pub open spec fn bytes(self) -> u64 {
        match self {
            ChunkPlanView::Empty => 0,
            ChunkPlanView::Read { path, offset, size } => size,
        }
    }
}

/// How the reading of a chunk went.
#[derive(Clone, Copy, PartialEq, Eq, Structural, Debug)]
pub enum ChunkRead {
    /// The file could not be opened.
    OpenFailed,
    /// The chunk could not be read in full.
    ReadFailed,
    /// The chunk was read.
    Done,
}

impl StateView {
    /// What the server knows when it starts.
    pub open spec fn initial(
        upload_dir: Seq<char>,
        sandbox_dir: Seq<char>,
        lan_ip: Option<Seq<char>>,
    ) -> StateView {
        StateView {
            files: Map::empty(),
            peers: Map::empty(),
            file_peers: Map::empty(),
            signal_bus: Map::empty(),
            path_index: Map::empty(),
            upload_dir,
            sandbox_dir,
            public_url: Seq::empty(),
            lan_ip,
            bytes_up: 0,
            bytes_down: 0,
        }
    }

    /// What always holds. The tables of files, swarms and channels have the
    /// same keys. A file is kept under its id, with the chunk count of its
    /// size; its swarm lists no peer twice, and its sender first. A peer is
    /// kept under its id.
    pub open spec fn sound(self) -> bool {
        &&& self.file_peers.dom() == self.files.dom()
        &&& self.signal_bus.dom() == self.files.dom()
        &&& forall|id: Seq<char>| #[trigger] self.files.contains_key(id) ==> self.sound_file(id)
        &&& forall|p: Seq<char>| #[trigger] self.peers.contains_key(p) ==> self.sound_peer(p)
    }

    /// `sound`, as far as it is about one file.
    pub open spec fn sound_file(self, id: Seq<char>) -> bool {
        &&& is_uuid(id)
        &&& self.files[id].id == id
        &&& self.files[id].chunk_count == announced_chunks(self.files[id].total_size)
        &&& self.files[id].created_at.valid()
        &&& self.signal_bus[id].capacity == BUS_CAPACITY
        &&& self.file_peers[id].no_duplicates()
        &&& self.file_peers[id].len() > 0
        &&& self.file_peers[id][0] == sender_id(id)
    }

    /// `sound`, as far as it is about one peer.
    pub open spec fn sound_peer(self, p: Seq<char>) -> bool {
        &&& self.peers[p].peer_id == p
        &&& self.peers[p].joined_at.valid()
        &&& self.peers[p].last_active.valid()
    }

    /// What holds as long as no id is drawn twice. A path leads to the file
    /// that lies there, and the swarm that a peer belongs to lists it.
    pub open spec fn linked(self) -> bool {
        &&& forall|path: Seq<char>| #[trigger]
            self.path_index.contains_key(path) ==> self.leads(path)
        &&& forall|p: Seq<char>| #[trigger] self.peers.contains_key(p) ==> self.listed(p)
    }

    /// `linked`, as far as it is about one path.
    pub open spec fn leads(self, path: Seq<char>) -> bool {
        &&& self.files.contains_key(self.path_index[path])
        &&& self.files[self.path_index[path]].path == path
    }

    /// `linked`, as far as it is about one peer.
    pub open spec fn listed(self, p: Seq<char>) -> bool {
        &&& self.file_peers.contains_key(self.peers[p].file_id)
        &&& self.file_peers[self.peers[p].file_id].contains(p)
    }

    /// Whether `channel` is the signaling channel of no file.
    pub open spec fn is_new(self, channel: ChannelView) -> bool {
        forall|id: Seq<char>| #[trigger]
            self.signal_bus.contains_key(id) ==> self.signal_bus[id].identity != channel.identity
    }

    /// What holds as long as no channel is made twice. No two files share a
    /// signaling channel.
    pub open spec fn apart(self) -> bool {
        forall|a: Seq<char>, b: Seq<char>| #[trigger]
            self.signal_bus.contains_key(a) && #[trigger] self.signal_bus.contains_key(b) && a != b
                ==> self.signal_bus[a].identity != self.signal_bus[b].identity
    }

    /// Shares `file`: its sender is its only peer, and `channel` its signaling
    /// channel.
    pub open spec fn registered(
        self,
        file: FileView,
        lan_ip: Option<Seq<char>>,
        joined_at: Timestamp,
        channel: ChannelView,
    ) -> StateView {
        let sender = sender_of(file, lan_ip, joined_at);
        StateView {
            files: self.files.insert(file.id, file),
            peers: self.peers.insert(sender.peer_id, sender),
            file_peers: self.file_peers.insert(file.id, seq![sender.peer_id]),
            signal_bus: self.signal_bus.insert(file.id, channel),
            path_index: self.path_index.insert(file.path, file.id),
            ..self
        }
    }

    /// Whether a file that appeared in the watched folder is registered: it is
    /// an ordinary file, and not known yet.
    pub open spec fn takes(self, path: Seq<char>, is_file: bool) -> bool {
        !self.path_index.contains_key(path) && is_file
    }

    /// Whether an entry that is found at the start is registered.
    pub open spec fn imports(self, entry: EntryView) -> bool {
        &&& entry.is_file
        &&& !hidden(entry.name)
        &&& !self.path_index.contains_key(entry.path)
        &&& entry.size is Some
    }

    /// Registers an entry that is found at the start, where it is to be.
    pub open spec fn import_one(
        self,
        entry: EntryView,
        lan_ip: Option<Seq<char>>,
        arrival: ArrivalView,
    ) -> StateView {
        if self.imports(entry) {
            self.registered(
                new_file(arrival, entry.name, entry.size->0, mime_of(entry.name), entry.path),
                lan_ip,
                arrival.joined_at,
                arrival.channel,
            )
        } else {
            self
        }
    }

    /// Registers the entries that are found at the start, one after another.
    pub open spec fn imported(
        self,
        entries: Seq<EntryView>,
        lan_ip: Option<Seq<char>>,
        arrivals: Seq<ArrivalView>,
    ) -> StateView
        decreases entries.len(),
    {
        if entries.len() == 0 {
            self
        } else {
            self.imported(entries.drop_last(), lan_ip, arrivals).import_one(
                entries.last(),
                lan_ip,
                arrivals[entries.len() - 1],
            )
        }
    }

    /// Shares a file that was uploaded.
    pub open spec fn uploaded(
        self,
        file: FileView,
        joined_at: Timestamp,
        channel: ChannelView,
    ) -> StateView {
        StateView {
            bytes_up: add_wrapping(self.bytes_up, file.total_size),
            ..self.registered(file, self.lan_ip, joined_at, channel)
        }
    }

    /// The peers that are left when the swarm of `id` is dissolved.
    pub open spec fn peers_without_swarm(self, id: Seq<char>) -> Map<Seq<char>, PeerView> {
        if self.file_peers.contains_key(id) {
            self.peers.remove_keys(self.file_peers[id].to_set())
        } else {
            self.peers
        }
    }

    /// Forgets the file `id`, which lay at `path`, and dissolves its swarm.
    pub open spec fn forgotten(self, path: Seq<char>, id: Seq<char>) -> StateView {
        StateView {
            files: self.files.remove(id),
            peers: self.peers_without_swarm(id),
            file_peers: self.file_peers.remove(id),
            signal_bus: self.signal_bus.remove(id),
            path_index: self.path_index.remove(path),
            ..self
        }
    }

    /// Stops sharing the file `id`, where it is shared.
    pub open spec fn deleted(self, id: Seq<char>) -> StateView {
        if self.files.contains_key(id) {
            self.forgotten(self.files[id].path, id)
        } else {
            self
        }
    }

    /// Enters the peer `peer_id` in the swarm of the file `fid`.
    pub open spec fn joined(
        self,
        fid: Seq<char>,
        peer_id: Seq<char>,
        lan_addr: Option<Seq<char>>,
        now: Timestamp,
    ) -> StateView {
        let peer = PeerView {
            peer_id,
            file_id: fid,
            has_chunks: Seq::empty(),
            lan_addr,
            joined_at: now,
            last_active: now,
        };
        StateView {
            peers: self.peers.insert(peer_id, peer),
            file_peers: if self.file_peers.contains_key(fid) && !self.file_peers[fid].contains(
                peer_id,
            ) {
                self.file_peers.insert(fid, self.file_peers[fid].push(peer_id))
            } else {
                self.file_peers
            },
            ..self
        }
    }

    /// Adds `new_chunks` to what the peer `peer_id` has, where there is one. It
    /// is active at `now`.
    pub open spec fn with_chunks(
        self,
        peer_id: Seq<char>,
        new_chunks: Seq<u32>,
        now: Timestamp,
    ) -> StateView {
        if self.peers.contains_key(peer_id) {
            let peer = self.peers[peer_id];
            StateView {
                peers: self.peers.insert(
                    peer_id,
                    PeerView {
                        has_chunks: peer.has_chunks + chunks_not_in(peer.has_chunks, new_chunks),
                        last_active: now,
                        ..peer
                    },
                ),
                ..self
            }
        } else {
            self
        }
    }

    /// Takes note of a message that is sent to a swarm at `now`.
    pub open spec fn noted(self, msg: SignalView, now: Timestamp) -> StateView {
        match msg {
            SignalView::ChunkUpdate { peer_id, new_chunks } => self.with_chunks(
                peer_id,
                new_chunks,
                now,
            ),
            _ => self,
        }
    }

    /// Drops the peers that are stale at `now`.
    pub open spec fn cleaned(self, now: Timestamp) -> StateView {
        StateView {
            peers: self.peers.remove_keys(
                Set::new(|p: Seq<char>| self.peers.contains_key(p) && stale(self.peers[p], now)),
            ),
            ..self
        }
    }

    /// Counts a full download of the file `fid`, where it is shared.
    pub open spec fn downloaded(self, fid: Seq<char>) -> StateView {
        if self.files.contains_key(fid) {
            let file = self.files[fid];
            StateView {
                files: self.files.insert(
                    fid,
                    FileView { downloads: add_wrapping(file.downloads, 1), ..file },
                ),
                bytes_down: add_wrapping(self.bytes_down, file.total_size),
                ..self
            }
        } else {
            self
        }
    }

    /// Counts `size` bytes that were sent.
    pub open spec fn sent(self, size: u64) -> StateView {
        StateView { bytes_down: add_wrapping(self.bytes_down, size), ..self }
    }

    /// Answers a request for a chunk: what was read is counted.
    pub open spec fn answered(self, plan: ChunkPlanView, read: ChunkRead) -> StateView {
        if plan is Read && read == ChunkRead::Done {
            self.sent(plan.bytes())
        } else {
            self
        }
    }

    /// Takes the address of a tunnel.
    pub open spec fn tunnelled(self, url: Seq<char>) -> StateView {
        StateView { public_url: clean_url(url), ..self }
    }

    /// The ids of the peers in the swarm of `fid`.
    pub open spec fn swarm(self, fid: Seq<char>) -> Seq<Seq<char>> {
        if self.file_peers.contains_key(fid) {
            self.file_peers[fid]
        } else {
            Seq::empty()
        }
    }

    /// The peers in the swarm of `fid` that are not gone.
    pub open spec fn swarm_peers(self, fid: Seq<char>) -> Seq<PeerView> {
        present(self.peers, self.swarm(fid))
    }

    /// The chunk count that the file `fid` is announced with, or zero.
    pub open spec fn announced(self, fid: Seq<char>) -> u32 {
        if self.files.contains_key(fid) {
            self.files[fid].chunk_count
        } else {
            0
        }
    }

    /// The link to the file `id`.
    pub open spec fn link(self, id: Seq<char>) -> Seq<char> {
        download_link(base_url(self.public_url), id)
    }

    /// The reply to a request for chunk `index` of the file `fid`.
    pub open spec fn chunk_plan(
        self,
        fid: Seq<char>,
        index: u32,
    ) -> Result<ChunkPlanView, Refusal> {
        if !self.files.contains_key(fid) {
            Err(Refusal::FileNotFound)
        } else {
            let file = self.files[fid];
            let size = file.total_size as nat;
            if !has_chunk(size, index as nat) {
                Err(Refusal::ChunkNotFound)
            } else if size == 0 {
                Ok(ChunkPlanView::Empty)
            } else {
                Ok(
                    ChunkPlanView::Read {
                        path: file.path,
                        offset: chunk_start(index as nat) as u64,
                        size: chunk_len(size, index as nat) as u64,
                    },
                )
            }
        }
    }
}

} // verus!
