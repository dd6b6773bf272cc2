//! What the server tells its window and its callers.

use crate::channel::{receiver_channel, ChannelView, Outgoing};
use crate::clock::{seconds_between, Timestamp};
use crate::links::{opt_host_port, opt_lan_link, LAN_PORT, PORT};
use crate::model::{FileView, PeerView, SignalMsg, SignalView};
use crate::registry::StateView;
use crate::render::{human_size, link_qr_or_nothing};
use crate::text::opt_text;
use tokio::sync::broadcast::Receiver;
use vstd::prelude::*;

verus! {

/// A file appeared in the watched folder.
#[derive(Debug)]
pub struct SandboxFileAddedEvent {
    pub file_id: String,
    pub name: String,
    pub total_size: u64,
    pub chunk_count: u32,
    pub mime_type: String,
    pub download_url: String,
}

impl SandboxFileAddedEvent {
    /// Whether this tells of `file`, which was added to what `state` holds.
    pub open spec fn tells_of(self, state: StateView, file: FileView) -> bool {
        &&& self.file_id@ == file.id
        &&& self.name@ == file.original_name
        &&& self.total_size == file.total_size
        &&& self.chunk_count == file.chunk_count
        &&& self.mime_type@ == file.mime_type
        &&& self.download_url@ == state.link(file.id)
    }
}

/// An upload is complete.
#[derive(Debug)]
pub struct FileReadyEvent {
    pub file_id: String,
    pub name: String,
    pub total_size: u64,
    pub chunk_count: u32,
    pub download_url: String,
    pub lan_url: Option<String>,
    pub qr_svg: String,
}

impl FileReadyEvent {
    /// Whether this tells of `file`, which was added to what `state` holds.
    pub open spec fn tells_of(self, state: StateView, file: FileView) -> bool {
        &&& self.file_id@ == file.id
        &&& self.name@ == file.original_name
        &&& self.total_size == file.total_size
        &&& self.chunk_count == file.chunk_count
        &&& self.download_url@ == state.link(file.id)
        &&& opt_text(self.lan_url) == opt_lan_link(state.lan_ip, file.id)
        &&& self.qr_svg@ == link_qr_or_nothing(state.link(file.id))
    }
}

/// The swarm of a file changed.
#[derive(Debug)]
pub struct SwarmEvent {
    pub file_id: String,
    pub peer_count: usize,
    pub chunks_available: usize,
}

/// A file left the watched folder.
#[derive(Debug)]
pub struct SandboxFileRemovedEvent {
    pub file_id: String,
}

/// What the sender of an upload is told.
#[derive(Debug)]
pub struct UploadedFile {
    pub id: String,
    pub name: String,
    pub size_human: String,
    pub chunk_count: u32,
    pub download_url: String,
}

impl UploadedFile {
    /// Whether this tells of `file`, which was added to what `state` holds.
    pub open spec fn tells_of(self, state: StateView, file: FileView) -> bool {
        &&& self.id@ == file.id
        &&& self.name@ == file.original_name
        &&& self.size_human@ == human_size(file.total_size)
        &&& self.chunk_count == file.chunk_count
        &&& self.download_url@ == state.link(file.id)
    }
}

/// All that follows from an upload: the reply, the message that is to be sent on
/// the file's channel and the event for the window.
#[derive(Debug)]
pub struct UploadOutcome {
    pub reply: UploadedFile,
    pub ready: Outgoing,
    pub event: FileReadyEvent,
}

/// The message that `file` is available.
pub open spec fn file_ready(file: FileView, lan_ip: Option<Seq<char>>) -> SignalView {
    SignalView::FileReady {
        file_id: file.id,
        name: file.original_name,
        total_size: file.total_size,
        chunk_count: file.chunk_count,
        lan_addr: opt_host_port(lan_ip, PORT),
    }
}

impl UploadOutcome {
    /// Whether this tells of `file`, which was added to what `state` holds, with
    /// the signaling channel `channel`.
    pub open spec fn tells_of(
        self,
        state: StateView,
        file: FileView,
        channel: ChannelView,
    ) -> bool {
        &&& self.reply.tells_of(state, file)
        &&& self.ready.carries(file_ready(file, state.lan_ip), channel)
        &&& self.event.tells_of(state, file)
    }
}

/// A shared file, as it is listed in the window.
#[derive(Debug)]
pub struct ActiveFile {
    pub id: String,
    pub name: String,
    pub total_size: u64,
    pub size_human: String,
    pub chunk_count: u32,
    pub mime_type: String,
    pub download_url: String,
    pub lan_url: Option<String>,
    pub peers: usize,
    pub downloads: u64,
}

impl ActiveFile {
    /// Whether this tells of `file`, as `state` has it.
    pub open spec fn tells_of(self, state: StateView, file: FileView) -> bool {
        &&& self.id@ == file.id
        &&& self.name@ == file.original_name
        &&& self.total_size == file.total_size
        &&& self.size_human@ == human_size(file.total_size)
        &&& self.chunk_count == file.chunk_count
        &&& self.mime_type@ == file.mime_type
        &&& self.download_url@ == state.link(file.id)
        &&& opt_text(self.lan_url) == opt_lan_link(state.lan_ip, file.id)
        &&& self.peers == state.swarm(file.id).len()
        &&& self.downloads == file.downloads
    }
}

/// A peer, as it is listed with the file it is in the swarm of.
#[derive(Debug)]
pub struct PeerSummary {
    pub peer_id: String,
    pub has_chunks: Vec<u32>,
    pub lan_addr: Option<String>,
}

impl PeerSummary {
    /// Whether this tells of `peer`.
    pub open spec fn tells_of(self, peer: PeerView) -> bool {
        &&& self.peer_id@ == peer.peer_id
        &&& self.has_chunks@ == peer.has_chunks
        &&& opt_text(self.lan_addr) == peer.lan_addr
    }
}

/// A peer and how long it has been there.
#[derive(Debug)]
pub struct PeerStatus {
    pub peer: PeerSummary,
    pub age_secs: i64,
}

impl PeerStatus {
    /// Whether this tells of `peer`, as it was at `now`.
    pub open spec fn tells_of(self, peer: PeerView, now: Timestamp) -> bool {
        &&& self.peer.tells_of(peer)
        &&& self.age_secs == seconds_between(now, peer.joined_at)
    }
}

/// Whether `list` tells of `peers`, each as it was when the clock was read for
/// it: `nows` are the moments that were read.
pub open spec fn told_at(
    list: Seq<PeerStatus>,
    peers: Seq<PeerView>,
    nows: Seq<Timestamp>,
) -> bool {
    &&& list.len() == peers.len()
    &&& nows.len() == peers.len()
    &&& forall|i: int| 0 <= i < nows.len() ==> (#[trigger] nows[i]).valid()
    &&& forall|i: int| 0 <= i < list.len() ==> (#[trigger] list[i]).tells_of(peers[i], nows[i])
}

/// The peers in the swarm of a file.
#[derive(Debug)]
pub struct SwarmPeers {
    pub file_id: String,
    pub peers: Vec<PeerStatus>,
}

/// A shared file and its swarm.
#[derive(Debug)]
pub struct FileMeta {
    pub id: String,
    pub name: String,
    pub total_size: u64,
    pub chunk_count: u32,
    pub mime_type: String,
    pub peers: Vec<PeerSummary>,
    pub lan_port: u16,
}

impl FileMeta {
    /// Whether this tells of `file` and of the peers `swarm`.
    pub open spec fn tells_of(self, file: FileView, swarm: Seq<PeerView>) -> bool {
        &&& self.id@ == file.id
        &&& self.name@ == file.original_name
        &&& self.total_size == file.total_size
        &&& self.chunk_count == file.chunk_count
        &&& self.mime_type@ == file.mime_type
        &&& self.peers.len() == swarm.len()
        &&& forall|i: int| 0 <= i < swarm.len() ==> (#[trigger] self.peers@[i]).tells_of(swarm[i])
        &&& self.lan_port == LAN_PORT
    }
}

/// A peer joined a swarm: its id, the message that is to be sent on the file's
/// channel, the event for the window, and a receiver that listens to the channel
/// already, before the message is sent.
#[derive(Debug)]
pub struct Joined {
    pub peer_id: String,
    pub announcement: Outgoing,
    pub swarm: SwarmEvent,
    pub heard: Receiver<SignalMsg>,
}

impl Joined {
    /// Whether this tells of the peer `peer_id`, which joined the swarm of
    /// `fid` and left the server in the state `after`.
    pub open spec fn tells_of(
        self,
        after: StateView,
        fid: Seq<char>,
        peer_id: Seq<char>,
        lan_addr: Option<Seq<char>>,
    ) -> bool {
        &&& self.peer_id@ == peer_id
        &&& self.announcement.carries(
            (SignalView::PeerJoined { peer_id, lan_addr, has_chunks: Seq::empty() }),
            after.signal_bus[fid],
        )
        &&& receiver_channel(self.heard) == after.signal_bus[fid].identity
        &&& self.swarm.file_id@ == fid
        &&& self.swarm.peer_count == after.swarm(fid).len()
        &&& self.swarm.chunks_available == after.announced(fid)
    }
}

/// What is needed to send a whole file.
#[derive(Debug)]
pub struct FullFile {
    pub path: String,
    pub original_name: String,
    pub mime_type: String,
}

impl FullFile {
    /// Whether this tells of `file`.
    pub open spec fn tells_of(self, file: FileView) -> bool {
        &&& self.path@ == file.path
        &&& self.original_name@ == file.original_name
        &&& self.mime_type@ == file.mime_type
    }
}

} // verus!
