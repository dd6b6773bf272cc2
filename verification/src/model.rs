//! The records that the server keeps and the messages that peers exchange.

use crate::clock::Timestamp;
use crate::text::{copy_opt, opt_text};
use vstd::prelude::*;

verus! {

/// The count of full-file downloads of a record. It is only ever changed
/// through the table that owns the record, and wraps around at its end. A clone
/// starts from the same count.
#[derive(Debug)]
pub struct AtomicWrap(pub u64);

impl AtomicWrap {
    /// The count.
    pub open spec fn count(self) -> u64 {
        self.0
    }

    /// A counter that stands at `n`.
    pub fn new(n: u64) -> (counter: AtomicWrap)
        ensures
            counter.count() == n,
    {
        AtomicWrap(n)
    }

    /// Reads the count.
    pub fn load(&self) -> (n: u64)
        ensures
            n == self.count(),
    {
        self.0
    }

    /// Adds `n`, and gives the count from before.
    pub fn fetch_add(&mut self, n: u64) -> (before: u64)
        ensures
            before == old(self).count(),
            final(self).count() == add_wrapping(old(self).count(), n),
    {
        let before: u64 = self.0;
        self.0 = before.wrapping_add(n);
        before
    }
}

impl Clone for AtomicWrap {
    fn clone(&self) -> (copy: AtomicWrap)
        ensures
            copy == *self,
    {
        AtomicWrap(self.0)
    }
}

/// The sum of two counts, modulo 2^64.
pub open spec fn add_wrapping(a: u64, b: u64) -> u64 {
    ((a + b) % 0x1_0000_0000_0000_0000) as u64
}

/// A file that is shared.
#[derive(Debug)]
pub struct FileRecord {
    /// The id that the file is asked for by.
    pub id: String,
    /// The name that the file came with.
    pub original_name: String,
    /// Its size in bytes.
    pub total_size: u64,
    /// Its number of chunks.
    pub chunk_count: u32,
    /// Its media type.
    pub mime_type: String,
    /// When it was registered.
    pub created_at: Timestamp,
    /// Where it lies on disk.
    pub path: String,
    /// How often it was downloaded in full.
    pub download_count: AtomicWrap,
}

/// A `FileRecord`, with its texts as sequences.
#[verifier::ext_equal]
pub struct FileView {
    pub id: Seq<char>,
    pub original_name: Seq<char>,
    pub total_size: u64,
    pub chunk_count: u32,
    pub mime_type: Seq<char>,
    pub created_at: Timestamp,
    pub path: Seq<char>,
    pub downloads: u64,
}

impl View for FileRecord {
    type V = FileView;

    open spec fn view(&self) -> FileView {
        FileView {
            id: self.id@,
            original_name: self.original_name@,
            total_size: self.total_size,
            chunk_count: self.chunk_count,
            mime_type: self.mime_type@,
            created_at: self.created_at,
            path: self.path@,
            downloads: self.download_count.count(),
        }
    }
}

impl Clone for FileRecord {
    fn clone(&self) -> (copy: FileRecord)
        ensures
            copy == *self,
    {
        FileRecord {
            id: self.id.clone(),
            original_name: self.original_name.clone(),
            total_size: self.total_size,
            chunk_count: self.chunk_count,
            mime_type: self.mime_type.clone(),
            created_at: self.created_at,
            path: self.path.clone(),
            download_count: self.download_count.clone(),
        }
    }
}

/// A peer in the swarm of a file.
#[derive(Debug)]
pub struct PeerInfo {
    /// The id of the peer.
    pub peer_id: String,
    /// The file whose swarm it is in.
    pub file_id: String,
    /// The chunks it has.
    pub has_chunks: Vec<u32>,
    /// Its host and port on the local network.
    pub lan_addr: Option<String>,
    /// When it joined.
    pub joined_at: Timestamp,
    /// When it last joined or told of chunks.
    pub last_active: Timestamp,
}

/// A `PeerInfo`, with its texts and lists as sequences.
#[verifier::ext_equal]
pub struct PeerView {
    pub peer_id: Seq<char>,
    pub file_id: Seq<char>,
    pub has_chunks: Seq<u32>,
    pub lan_addr: Option<Seq<char>>,
    pub joined_at: Timestamp,
    pub last_active: Timestamp,
}

impl View for PeerInfo {
    type V = PeerView;

    open spec fn view(&self) -> PeerView {
        PeerView {
            peer_id: self.peer_id@,
            file_id: self.file_id@,
            has_chunks: self.has_chunks@,
            lan_addr: opt_text(self.lan_addr),
            joined_at: self.joined_at,
            last_active: self.last_active,
        }
    }
}

/// A copy of a list of chunk indices.
pub fn copy_chunks(list: &Vec<u32>) -> (copy: Vec<u32>)
    ensures
        copy@ == list@,
{
    let mut copy: Vec<u32> = Vec::new();
    let mut i: usize = 0;
    while i < list.len()
        invariant
            i <= list.len(),
            copy@ == list@.take(i as int),
        decreases list.len() - i,
    {
        copy.push(list[i]);
        i = i + 1;
    }
    copy
}

impl Clone for PeerInfo {
    fn clone(&self) -> (copy: PeerInfo)
        ensures
            copy@ == self@,
    {
        PeerInfo {
            peer_id: self.peer_id.clone(),
            file_id: self.file_id.clone(),
            has_chunks: copy_chunks(&self.has_chunks),
            lan_addr: copy_opt(&self.lan_addr),
            joined_at: self.joined_at,
            last_active: self.last_active,
        }
    }
}

/// A message on the signaling channel of a file.
#[derive(Debug)]
pub enum SignalMsg {
    /// A peer joined the swarm.
    PeerJoined { peer_id: String, lan_addr: Option<String>, has_chunks: Vec<u32> },
    /// A WebRTC offer to one peer.
    Offer { from: String, to: String, sdp: String },
    /// The answer to an offer.
    Answer { from: String, to: String, sdp: String },
    /// An ICE candidate.
    Ice { from: String, to: String, candidate: String },
    /// A peer left or timed out.
    PeerLeft { peer_id: String },
    /// A peer has more chunks than before.
    ChunkUpdate { peer_id: String, new_chunks: Vec<u32> },
    /// A new file is available.
    FileReady {
        file_id: String,
        name: String,
        total_size: u64,
        chunk_count: u32,
        lan_addr: Option<String>,
    },
}

/// A `SignalMsg`, with its texts and lists as sequences.
#[verifier::ext_equal]
pub enum SignalView {
    PeerJoined { peer_id: Seq<char>, lan_addr: Option<Seq<char>>, has_chunks: Seq<u32> },
    Offer { from: Seq<char>, to: Seq<char>, sdp: Seq<char> },
    Answer { from: Seq<char>, to: Seq<char>, sdp: Seq<char> },
    Ice { from: Seq<char>, to: Seq<char>, candidate: Seq<char> },
    PeerLeft { peer_id: Seq<char> },
    ChunkUpdate { peer_id: Seq<char>, new_chunks: Seq<u32> },
    FileReady {
        file_id: Seq<char>,
        name: Seq<char>,
        total_size: u64,
        chunk_count: u32,
        lan_addr: Option<Seq<char>>,
    },
}

impl View for SignalMsg {
    type V = SignalView;

    open spec fn view(&self) -> SignalView {
        match *self {
            SignalMsg::PeerJoined { peer_id, lan_addr, has_chunks } => SignalView::PeerJoined {
                peer_id: peer_id@,
                lan_addr: opt_text(lan_addr),
                has_chunks: has_chunks@,
            },
            SignalMsg::Offer { from, to, sdp } => SignalView::Offer {
                from: from@,
                to: to@,
                sdp: sdp@,
            },
            SignalMsg::Answer { from, to, sdp } => SignalView::Answer {
                from: from@,
                to: to@,
                sdp: sdp@,
            },
            SignalMsg::Ice { from, to, candidate } => SignalView::Ice {
                from: from@,
                to: to@,
                candidate: candidate@,
            },
            SignalMsg::PeerLeft { peer_id } => SignalView::PeerLeft { peer_id: peer_id@ },
            SignalMsg::ChunkUpdate { peer_id, new_chunks } => SignalView::ChunkUpdate {
                peer_id: peer_id@,
                new_chunks: new_chunks@,
            },
            SignalMsg::FileReady { file_id, name, total_size, chunk_count, lan_addr } =>
                SignalView::FileReady {
                file_id: file_id@,
                name: name@,
                total_size,
                chunk_count,
                lan_addr: opt_text(lan_addr),
            },
        }
    }
}

impl Clone for SignalMsg {
    fn clone(&self) -> (copy: SignalMsg)
        ensures
            copy@ == self@,
    {
        match self {
            SignalMsg::PeerJoined { peer_id, lan_addr, has_chunks } => SignalMsg::PeerJoined {
                peer_id: peer_id.clone(),
                lan_addr: copy_opt(lan_addr),
                has_chunks: copy_chunks(has_chunks),
            },
            SignalMsg::Offer { from, to, sdp } => SignalMsg::Offer {
                from: from.clone(),
                to: to.clone(),
                sdp: sdp.clone(),
            },
            SignalMsg::Answer { from, to, sdp } => SignalMsg::Answer {
                from: from.clone(),
                to: to.clone(),
                sdp: sdp.clone(),
            },
            SignalMsg::Ice { from, to, candidate } => SignalMsg::Ice {
                from: from.clone(),
                to: to.clone(),
                candidate: candidate.clone(),
            },
            SignalMsg::PeerLeft { peer_id } => SignalMsg::PeerLeft { peer_id: peer_id.clone() },
            SignalMsg::ChunkUpdate { peer_id, new_chunks } => SignalMsg::ChunkUpdate {
                peer_id: peer_id.clone(),
                new_chunks: copy_chunks(new_chunks),
            },
            SignalMsg::FileReady { file_id, name, total_size, chunk_count, lan_addr } =>
                SignalMsg::FileReady {
                file_id: file_id.clone(),
                name: name.clone(),
                total_size: *total_size,
                chunk_count: *chunk_count,
                lan_addr: copy_opt(lan_addr),
            },
        }
    }
}

} // verus!
