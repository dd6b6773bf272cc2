//! The state of the server, and what each request does to it.

use crate::channel::{another_sender, channel_of, listener, receiver_channel, Outgoing};
use crate::chunks::{announced_chunks, chunk_count, chunk_list, chunk_span, MAX_FILE_SIZE};
use crate::clock::{longer_ago, utc_now, whole_seconds, Timestamp};
use crate::events::{
    told_at, ActiveFile, FileMeta, FileReadyEvent, FullFile, Joined, PeerStatus, PeerSummary,
    SandboxFileAddedEvent, SandboxFileRemovedEvent, SwarmEvent, SwarmPeers, UploadOutcome,
    UploadedFile,
};
use crate::http::{chunk_header_pairs, chunk_headers, header_pairs, Header, Refusal};
use crate::ident::{is_uuid, new_id, sender_id, sender_peer_id};
use crate::laws::{
    law_cleaning_keeps_sound, law_deleting_keeps_sound, law_downloading_keeps_sound,
    law_forgetting_keeps_sound, law_initial_state_is_sound, law_joining_keeps_sound,
    law_noting_keeps_sound, law_registering_keeps_apart, law_registering_keeps_sound,
};
use crate::links::{
    clean_url, cleaned_url, download_url, lan_addr, lan_url, link_base, LAN_PORT, PORT,
};
use crate::model::{copy_chunks, AtomicWrap, FileRecord, PeerInfo, SignalMsg};
use crate::names::{guess_mime, is_hidden, mime_of};
use crate::registry::{
    chunks_not_in, new_file, present, sender_of, stale, ArrivalView, ChunkPlanView, ChunkRead,
    EntryView, StateView, BUS_CAPACITY, STALE_SECONDS,
};
use crate::render::{format_size, make_qr};
use crate::sandbox::{index_pairs, FileStat, IndexEntry, Watcher};
use crate::scans::{entry_found, Folder};
use crate::tables::{
    channel_rows, file_keys, file_rows, has_text, list_rows, look_channel, look_file, look_list,
    look_peer, look_text, new_channel_table, new_file_table, new_list_table, new_peer_table,
    new_text_table, open_channel, peer_count, peer_keys, peer_rows, put_channel, put_file,
    put_list, put_peer, put_text, take_channel, take_file, take_list, take_peer, take_text,
    text_keys, text_rows,
};
use crate::text::{copy_opt, has_prefix, holds_text, opt_text, texts};
use crate::transfer::Reading;
use dashmap::DashMap;
use std::collections::HashSet;
use tokio::sync::broadcast::{Receiver, Sender};
use vstd::prelude::*;

verus! {

/// What is drawn when a file is registered.
#[derive(Debug)]
pub struct Arrival {
    /// The id of the file.
    pub id: String,
    /// When the file is entered.
    pub created_at: Timestamp,
    /// When its sender is entered.
    pub joined_at: Timestamp,
    /// Its signaling channel.
    pub channel: Sender<SignalMsg>,
}

impl View for Arrival {
    type V = ArrivalView;

    open spec fn view(&self) -> ArrivalView {
        ArrivalView {
            id: self.id@,
            created_at: self.created_at,
            joined_at: self.joined_at,
            channel: channel_of(self.channel),
        }
    }
}

impl Arrival {
    /// Draws a new id, reads the clock and opens a channel that no file of
    /// `state` has.
    pub fn draw(state: &AppState) -> (arrival: Arrival)
        ensures
            arrival@.valid(),
            state@.is_new(arrival@.channel),
    {
        let id = new_id();
        let created_at = utc_now();
        let channel = open_channel(&state.signal_bus, BUS_CAPACITY);
        let joined_at = utc_now();
        Arrival { id, created_at, joined_at, channel }
    }
}

/// An entry of the watched folder, as it is found at the start.
#[derive(Debug)]
pub struct SandboxEntry {
    /// The name of the entry.
    pub name: String,
    /// Its full path.
    pub path: String,
    /// Whether it is known to be an ordinary file.
    pub is_file: bool,
    /// Its size, where it can be told.
    pub size: Option<u64>,
}

impl View for SandboxEntry {
    type V = EntryView;

    open spec fn view(&self) -> EntryView {
        EntryView { name: self.name@, path: self.path@, is_file: self.is_file, size: self.size }
    }
}

/// The entries of a folder, with their texts as sequences.
pub open spec fn entry_views(entries: Seq<SandboxEntry>) -> Seq<EntryView> {
    entries.map_values(|e: SandboxEntry| e@)
}

/// What is to be done for a request for a chunk.
#[derive(Debug)]
pub enum ChunkPlan {
    /// The chunk is empty.
    Empty,
    /// The chunk is to be read from `path`.
    Read { path: String, offset: u64, size: u64 },
}

impl View for ChunkPlan {
    type V = ChunkPlanView;

    open spec fn view(&self) -> ChunkPlanView {
        match *self {
            ChunkPlan::Empty => ChunkPlanView::Empty,
            ChunkPlan::Read { path, offset, size } => ChunkPlanView::Read {
                path: path@,
                offset,
                size,
            },
        }
    }
}

/// The state of the server.
pub struct AppState {
    files: DashMap<String, FileRecord>,
    peers: DashMap<String, PeerInfo>,
    file_peers: DashMap<String, Vec<String>>,
    signal_bus: DashMap<String, Sender<SignalMsg>>,
    path_index: DashMap<String, String>,
    upload_dir: String,
    sandbox_dir: String,
    public_url: String,
    lan_ip: Option<String>,
    bytes_up: u64,
    bytes_down: u64,
}

impl View for AppState {
    type V = StateView;

    closed spec fn view(&self) -> StateView {
        StateView {
            files: file_rows(self.files),
            peers: peer_rows(self.peers),
            file_peers: list_rows(self.file_peers),
            signal_bus: channel_rows(self.signal_bus),
            path_index: text_rows(self.path_index),
            upload_dir: self.upload_dir@,
            sandbox_dir: self.sandbox_dir@,
            public_url: self.public_url@,
            lan_ip: opt_text(self.lan_ip),
            bytes_up: self.bytes_up,
            bytes_down: self.bytes_down,
        }
    }
}

/// The type of an upload: the one it came with, or a stream of bytes.
pub open spec fn upload_type(mime: Option<Seq<char>>) -> Seq<char> {
    match mime {
        Some(m) => m,
        None => "application/octet-stream"@,
    }
}

/// What is told of a peer.
fn summary_of(peer: &PeerInfo) -> (summary: PeerSummary)
    ensures
        summary.tells_of(peer@),
{
    PeerSummary {
        peer_id: peer.peer_id.clone(),
        has_chunks: copy_chunks(&peer.has_chunks),
        lan_addr: copy_opt(&peer.lan_addr),
    }
}

/// What is told of a peer at `now`.
pub fn peer_status(peer: &PeerInfo, now: Timestamp) -> (status: PeerStatus)
    requires
        peer.joined_at.valid(),
        now.valid(),
    ensures
        status.tells_of(peer@, now),
{
    PeerStatus { peer: summary_of(peer), age_secs: whole_seconds(now, peer.joined_at) }
}

/// The chunks `known`, with those of `new_chunks` that are not among them.
fn with_new_chunks(known: Vec<u32>, new_chunks: &Vec<u32>) -> (chunks: Vec<u32>)
    ensures
        chunks@ == known@ + chunks_not_in(known@, new_chunks@),
{
    broadcast use vstd::std_specs::hash::group_hash_axioms;

    let ghost first = known@;
    let mut existing: HashSet<u32> = HashSet::new();
    let mut i: usize = 0;
    while i < known.len()
        invariant
            i <= known.len(),
            existing@ == known@.take(i as int).to_set(),
        decreases known.len() - i,
    {
        let c: u32 = known[i];
        let fresh = existing.insert(c);
        i = i + 1;
        proof {
            let done = known@.take(i as int);
            assert(done =~= known@.take(i - 1).push(c));
            done.drop_last().lemma_push_to_set_commute(c);
            assert(done.drop_last() =~= known@.take(i - 1));
        }
    }
    assert(known@.take(i as int) =~= first);
    let mut chunks = known;
    let mut j: usize = 0;
    assert(new_chunks@.take(0) =~= Seq::empty());
    assert(first + Seq::<u32>::empty() =~= first);
    while j < new_chunks.len()
        invariant
            j <= new_chunks.len(),
            existing@ == first.to_set(),
            chunks@ == first + chunks_not_in(first, new_chunks@.take(j as int)),
        decreases new_chunks.len() - j,
    {
        let c: u32 = new_chunks[j];
        proof {
            assert(new_chunks@.take(j + 1).drop_last() =~= new_chunks@.take(j as int));
            assert(new_chunks@.take(j + 1).last() == c);
            assert(existing@.contains(c) == first.contains(c));
        }
        if !existing.contains(&c) {
            let ghost before = chunks@;
            chunks.push(c);
            assert(chunks@ =~= first + chunks_not_in(first, new_chunks@.take(j as int)).push(c));
        }
        j = j + 1;
    }
    assert(new_chunks@.take(j as int) =~= new_chunks@);
    chunks
}

/// Importing a list of entries reads no more of what was drawn than there are
/// entries.
proof fn lemma_imported_reads_prefix(
    s: StateView,
    entries: Seq<EntryView>,
    lan_ip: Option<Seq<char>>,
    a: Seq<ArrivalView>,
    b: Seq<ArrivalView>,
)
    requires
        entries.len() <= a.len() <= b.len(),
        forall|i: int| 0 <= i < a.len() ==> a[i] == b[i],
    ensures
        s.imported(entries, lan_ip, a) == s.imported(entries, lan_ip, b),
    decreases entries.len(),
{
    if entries.len() > 0 {
        lemma_imported_reads_prefix(s, entries.drop_last(), lan_ip, a, b);
    }
}

/// Removes what `table` holds under each of `ids`.
fn take_all(table: &mut DashMap<String, PeerInfo>, ids: &Vec<String>)
    ensures
        peer_rows(*final(table)) == peer_rows(*old(table)).remove_keys(texts(ids@).to_set()),
{
    let ghost before = peer_rows(*table);
    let mut i: usize = 0;
    assert(before.remove_keys(texts(ids@).take(0).to_set()) =~= before);
    while i < ids.len()
        invariant
            i <= ids.len(),
            peer_rows(*table) == before.remove_keys(texts(ids@).take(i as int).to_set()),
        decreases ids.len() - i,
    {
        let removed = take_peer(table, ids[i].as_str());
        i = i + 1;
        proof {
            let done = texts(ids@).take(i as int);
            assert(done.drop_last() =~= texts(ids@).take(i - 1));
            assert(done.last() == ids@[i - 1]@);
            assert forall|p: Seq<char>| done.contains(p) <==> done.drop_last().contains(p) || p
                == done.last() by {
                if done.contains(p) {
                    let k = choose|k: int| 0 <= k < done.len() && done[k] == p;
                    if k < done.len() - 1 {
                        assert(done.drop_last()[k] == p);
                    }
                }
                if done.drop_last().contains(p) {
                    let k = choose|k: int|
                        0 <= k < done.drop_last().len() && done.drop_last()[k] == p;
                    assert(done[k] == p);
                }
                if p == done.last() {
                    assert(done[done.len() - 1] == p);
                }
            }
            assert(peer_rows(*table) =~= before.remove_keys(done.to_set()));
        }
    }
    assert(texts(ids@).take(i as int) =~= texts(ids@));
}

/// The path of a file that is to be shown in its folder, where it is on disk.
pub fn shown_path(path: String, on_disk: bool) -> (shown: Result<String, String>)
    ensures
        match shown {
            Ok(p) => on_disk && p == path,
            Err(text) => !on_disk && text@ == "file missing on disk"@,
        },
{
    if on_disk {
        Ok(path)
    } else {
        Err("file missing on disk".to_owned())
    }
}

impl AppState {
    /// The state of a server that shares nothing yet.
    pub fn new(upload_dir: String, sandbox_dir: String, lan_ip: Option<String>) -> (state: AppState)
        ensures
            state@ == StateView::initial(upload_dir@, sandbox_dir@, opt_text(lan_ip)),
            state@.sound(),
            state@.linked(),
            state@.apart(),
    {
        proof {
            law_initial_state_is_sound(upload_dir@, sandbox_dir@, opt_text(lan_ip));
        }
        AppState {
            files: new_file_table(),
            peers: new_peer_table(),
            file_peers: new_list_table(),
            signal_bus: new_channel_table(),
            path_index: new_text_table(),
            upload_dir,
            sandbox_dir,
            public_url: String::new(),
            lan_ip,
            bytes_up: 0,
            bytes_down: 0,
        }
    }

    /// Shares the file of `record`, with its sender as its only peer.
    fn register(
        &mut self,
        record: FileRecord,
        lan_ip: &Option<String>,
        joined_at: Timestamp,
        channel: Sender<SignalMsg>,
    )
        requires
            old(self)@.sound(),
            is_uuid(record.id@),
            record.chunk_count == announced_chunks(record.total_size),
            record.created_at.valid(),
            joined_at.valid(),
            channel_of(channel).capacity == BUS_CAPACITY,
        ensures
            final(self)@ == old(self)@.registered(
                record@,
                opt_text(*lan_ip),
                joined_at,
                channel_of(channel),
            ),
            final(self)@.sound(),
            old(self)@.apart() && old(self)@.is_new(channel_of(channel)) ==> final(self)@.apart(),
    {
        proof {
            let ch = channel_of(channel);
            law_registering_keeps_sound(self@, record@, opt_text(*lan_ip), joined_at, ch);
            if self@.apart() && self@.is_new(ch) {
                law_registering_keeps_apart(self@, record@, opt_text(*lan_ip), joined_at, ch);
            }
        }
        let id = record.id.clone();
        let sender = PeerInfo {
            peer_id: sender_peer_id(id.as_str()),
            file_id: id.clone(),
            has_chunks: chunk_list(record.chunk_count),
            lan_addr: lan_addr(lan_ip, LAN_PORT),
            joined_at,
            last_active: joined_at,
        };
        assert(sender@ == sender_of(record@, opt_text(*lan_ip), joined_at));
        let mut swarm: Vec<String> = Vec::new();
        swarm.push(sender.peer_id.clone());
        assert(texts(swarm@) =~= seq![sender_id(id@)]);
        put_channel(&mut self.signal_bus, id.clone(), channel);
        put_list(&mut self.file_peers, id.clone(), swarm);
        put_peer(&mut self.peers, sender.peer_id.clone(), sender);
        put_text(&mut self.path_index, record.path.clone(), id.clone());
        put_file(&mut self.files, id, record);
        assert(self@ =~= old(self)@.registered(
            record@,
            opt_text(*lan_ip),
            joined_at,
            channel_of(channel),
        ));
    }

    /// Takes the address of a tunnel, and gives it back as it is kept.
    pub fn set_tunnel_url(&mut self, url: &str) -> (clean: String)
        ensures
            clean@ == clean_url(url@),
            final(self)@ == old(self)@.tunnelled(url@),
            old(self)@.sound() ==> final(self)@.sound(),
    {
        let clean = cleaned_url(url);
        self.public_url = clean.clone();
        assert(self@ =~= old(self)@.tunnelled(url@));
        clean
    }

    /// The watched folder.
    pub fn get_sandbox_folder(&self) -> (dir: String)
        ensures
            dir@ == self@.sandbox_dir,
    {
        self.sandbox_dir.clone()
    }

    /// The folder that uploads are stored in.
    pub fn upload_folder(&self) -> (dir: String)
        ensures
            dir@ == self@.upload_dir,
    {
        self.upload_dir.clone()
    }

    /// The record of the file `id`, where it is shared.
    pub fn file(&self, id: &str) -> (record: Option<FileRecord>)
        ensures
            match record {
                Some(r) => self@.files.contains_key(id@) && r@ == self@.files[id@],
                None => !self@.files.contains_key(id@),
            },
    {
        look_file(&self.files, id)
    }

    /// The peer `id`, where there is one.
    pub fn peer(&self, id: &str) -> (peer: Option<PeerInfo>)
        ensures
            match peer {
                Some(p) => self@.peers.contains_key(id@) && p@ == self@.peers[id@],
                None => !self@.peers.contains_key(id@),
            },
    {
        look_peer(&self.peers, id)
    }

    /// The ids of the peers in the swarm of `fid`, those that are gone among
    /// them.
    pub fn swarm(&self, fid: &str) -> (ids: Vec<String>)
        ensures
            texts(ids@) == self@.swarm(fid@),
    {
        match look_list(&self.file_peers, fid) {
            Some(ids) => ids,
            None => {
                let ids: Vec<String> = Vec::new();
                assert(texts(ids@) =~= Seq::empty());
                ids
            },
        }
    }

    /// Listens to the signaling channel of `fid`, where it has one.
    pub fn listen(&self, fid: &str) -> (heard: Option<Receiver<SignalMsg>>)
        ensures
            match heard {
                Some(rx) => {
                    &&& self@.signal_bus.contains_key(fid@)
                    &&& receiver_channel(rx) == self@.signal_bus[fid@].identity
                },
                None => !self@.signal_bus.contains_key(fid@),
            },
    {
        match look_channel(&self.signal_bus, fid) {
            Some(channel) => Some(listener(&channel)),
            None => None,
        }
    }

    /// Addresses a message to the signaling channel of `fid`, where it has one.
    pub fn relay(&self, fid: &str, msg: SignalMsg) -> (out: Option<Outgoing>)
        ensures
            match out {
                Some(o) => {
                    &&& self@.signal_bus.contains_key(fid@)
                    &&& channel_of(o.channel) == self@.signal_bus[fid@]
                    &&& o.msg == msg
                },
                None => !self@.signal_bus.contains_key(fid@),
            },
    {
        match look_channel(&self.signal_bus, fid) {
            Some(channel) => Some(Outgoing { channel, msg }),
            None => None,
        }
    }

    /// Whether the file at `path` is shared.
    pub fn knows_path(&self, path: &str) -> (known: bool)
        ensures
            known == self@.path_index.contains_key(path@),
    {
        has_text(&self.path_index, path)
    }

    /// The path of the file `file_id`, to be shown in its folder.
    pub fn open_file_in_sandbox(&self, file_id: &str) -> (path: Result<String, String>)
        ensures
            match path {
                Ok(p) => self@.files.contains_key(file_id@) && p@ == self@.files[file_id@].path,
                Err(text) => !self@.files.contains_key(file_id@) && text@ == "not found"@,
            },
    {
        match look_file(&self.files, file_id) {
            Some(record) => Ok(record.path),
            None => Err("not found".to_owned()),
        }
    }

    /// Stops sharing the file `id`. Gives the path of the file that is to be
    /// deleted from disk.
    pub fn delete_file(&mut self, id: &str) -> (path: Option<String>)
        requires
            old(self)@.sound(),
        ensures
            final(self)@ == old(self)@.deleted(id@),
            final(self)@.sound(),
            match path {
                Some(p) => old(self)@.files.contains_key(id@) && p@ == old(self)@.files[id@].path,
                None => !old(self)@.files.contains_key(id@),
            },
    {
        proof {
            law_deleting_keeps_sound(self@, id@);
        }
        match look_file(&self.files, id) {
            Some(record) => {
                self.drop_file(record.path.as_str(), id);
                Some(record.path)
            },
            None => None,
        }
    }

    /// Forgets the file `file_id`, which a scan has not come upon at `path`,
    /// unless it is still on disk.
    pub fn forget_path(&mut self, path: &str, file_id: &str, on_disk: bool) -> (event: Option<
        SandboxFileRemovedEvent,
    >)
        requires
            old(self)@.sound(),
        ensures
            final(self)@.sound(),
            match event {
                Some(ev) => {
                    &&& !on_disk
                    &&& ev.file_id@ == file_id@
                    &&& final(self)@ == old(self)@.forgotten(path@, file_id@)
                },
                None => on_disk && final(self)@ == old(self)@,
            },
    {
        if on_disk {
            return None;
        }
        proof {
            law_forgetting_keeps_sound(self@, path@, file_id@);
        }
        self.drop_file(path, file_id);
        Some(SandboxFileRemovedEvent { file_id: file_id.to_owned() })
    }

    /// The paths that lead to files. In which order they come is left open.
    pub fn indexed(&self) -> (index: Vec<IndexEntry>)
        ensures
            index_pairs(index@).no_duplicates(),
            forall|path: Seq<char>, id: Seq<char>|
                index_pairs(index@).contains((path, id)) <==> self@.path_index.contains_key(path)
                    && self@.path_index[path] == id,
    {
        let paths = text_keys(&self.path_index);
        let ghost all = texts(paths@);
        let mut index: Vec<IndexEntry> = Vec::new();
        let mut i: usize = 0;
        while i < paths.len()
            invariant
                i <= paths.len(),
                all == texts(paths@),
                all.to_set() == self@.path_index.dom(),
                index.len() == i,
                forall|k: int|
                    0 <= k < i ==> (#[trigger] index_pairs(index@)[k]) == (
                        all[k],
                        self@.path_index[all[k]],
                    ),
            decreases paths.len() - i,
        {
            let ghost before = index_pairs(index@);
            proof {
                assert(all[i as int] == paths@[i as int]@);
                assert(all.to_set().contains(all[i as int]));
            }
            if let Some(file_id) = look_text(&self.path_index, paths[i].as_str()) {
                index.push(IndexEntry { path: paths[i].clone(), file_id });
                assert(index_pairs(index@) =~= before.push(
                    (all[i as int], self@.path_index[all[i as int]]),
                ));
            }
            i = i + 1;
        }
        proof {
            let pairs = index_pairs(index@);
            assert forall|path: Seq<char>, id: Seq<char>| pairs.contains((path, id)) implies {
                &&& self@.path_index.contains_key(path)
                &&& self@.path_index[path] == id
            } by {
                let k = choose|k: int| 0 <= k < pairs.len() && pairs[k] == (path, id);
                assert(all.to_set().contains(all[k]));
            }
            assert forall|path: Seq<char>, id: Seq<char>|
                self@.path_index.contains_key(path) && self@.path_index[path]
                    == id implies pairs.contains((path, id)) by {
                assert(all.to_set().contains(path));
                let k = choose|k: int| 0 <= k < all.len() && all[k] == path;
                assert(pairs[k] == (path, id));
            }
        }
        index
    }

    /// Removes the file `id` and its path from every table, and its peers.
    fn drop_file(&mut self, path: &str, id: &str)
        ensures
            final(self)@ == old(self)@.forgotten(path@, id@),
    {
        let record = take_file(&mut self.files, id);
        let indexed = take_text(&mut self.path_index, path);
        if let Some(ids) = take_list(&mut self.file_peers, id) {
            take_all(&mut self.peers, &ids);
        }
        let channel = take_channel(&mut self.signal_bus, id);
        assert(self@ =~= old(self)@.forgotten(path@, id@));
    }

    /// Shares a file that appeared at `path` in the watched folder, unless it
    /// is known already or is no ordinary file; `stat` is what the file system
    /// says of the path, where it says anything.
    pub fn register_sandbox_path(
        &mut self,
        path: &str,
        name: &str,
        stat: Option<FileStat>,
    ) -> (event: Option<SandboxFileAddedEvent>)
        requires
            old(self)@.sound(),
            stat matches Some(st) ==> st.size <= MAX_FILE_SIZE,
        ensures
            final(self)@.sound(),
            old(self)@.apart() ==> final(self)@.apart(),
            event is Some <==> (stat matches Some(st) && old(self)@.takes(path@, st.is_file)),
            event is None ==> final(self)@ == old(self)@,
            event matches Some(ev) ==> exists|arrival: ArrivalView|
                {
                    let file = #[trigger] new_file(
                        arrival,
                        name@,
                        stat->0.size,
                        mime_of(name@),
                        path@,
                    );
                    &&& arrival.valid()
                    &&& old(self)@.is_new(arrival.channel)
                    &&& final(self)@ == old(self)@.registered(
                        file,
                        old(self)@.lan_ip,
                        arrival.joined_at,
                        arrival.channel,
                    )
                    &&& ev.tells_of(old(self)@, file)
                },
    {
        let arrival = Arrival::draw(self);
        let ghost drawn = arrival@;
        let event = self.register_sandbox_path_as(path, name, stat, arrival);
        proof {
            if event is Some {
                let file = new_file(drawn, name@, stat->0.size, mime_of(name@), path@);
                assert(event->0.tells_of(old(self)@, file));
            }
        }
        event
    }

    /// `register_sandbox_path`, with the id and the times that were drawn.
    pub fn register_sandbox_path_as(
        &mut self,
        path: &str,
        name: &str,
        stat: Option<FileStat>,
        arrival: Arrival,
    ) -> (event: Option<SandboxFileAddedEvent>)
        requires
            old(self)@.sound(),
            arrival@.valid(),
            stat matches Some(st) ==> st.size <= MAX_FILE_SIZE,
        ensures
            final(self)@.sound(),
            old(self)@.apart() && old(self)@.is_new(arrival@.channel) ==> final(self)@.apart(),
            event is Some <==> (stat matches Some(st) && old(self)@.takes(path@, st.is_file)),
            event is None ==> final(self)@ == old(self)@,
            event matches Some(ev) ==> {
                let file = new_file(arrival@, name@, stat->0.size, mime_of(name@), path@);
                &&& final(self)@ == old(self)@.registered(
                    file,
                    old(self)@.lan_ip,
                    arrival.joined_at,
                    arrival@.channel,
                )
                &&& ev.tells_of(old(self)@, file)
            },
    {
        if has_text(&self.path_index, path) {
            return None;
        }
        let st = match stat {
            Some(st) => st,
            None => {
                return None;
            },
        };
        if !st.is_file {
            return None;
        }
        let mime = guess_mime(name);
        let count = chunk_count(st.size);
        let url = download_url(link_base(&self.public_url).as_str(), arrival.id.as_str());
        let event = SandboxFileAddedEvent {
            file_id: arrival.id.clone(),
            name: name.to_owned(),
            total_size: st.size,
            chunk_count: count,
            mime_type: mime.clone(),
            download_url: url,
        };
        let lan_ip = copy_opt(&self.lan_ip);
        let record = FileRecord {
            id: arrival.id,
            original_name: name.to_owned(),
            total_size: st.size,
            chunk_count: count,
            mime_type: mime,
            created_at: arrival.created_at,
            path: path.to_owned(),
            download_count: AtomicWrap::new(0),
        };
        self.register(record, &lan_ip, arrival.joined_at, arrival.channel);
        Some(event)
    }

    /// Goes over the entry `name` of the watched folder, which lies at `path`:
    /// `stat` is what the file system says of it in the listing, and `later` what
    /// it says now. A file whose size has settled is shared, unless it is known.
    pub fn meet(
        &mut self,
        watcher: &mut Watcher,
        name: &str,
        path: &str,
        stat: Option<FileStat>,
        later: Option<FileStat>,
    ) -> (event: Option<SandboxFileAddedEvent>)
        requires
            old(self)@.sound(),
            later matches Some(st) ==> st.size <= MAX_FILE_SIZE,
        ensures
            final(self)@.sound(),
            old(self)@.apart() ==> final(self)@.apart(),
            exists|arrival: ArrivalView|
                {
                    let f = Folder { state: old(self)@, watch: old(watcher)@ };
                    let found = #[trigger] entry_found(name@, path@, stat, later, arrival);
                    &&& arrival.valid()
                    &&& old(self)@.is_new(arrival.channel)
                    &&& f.met(found) == (Folder {
                        state: final(self)@,
                        watch: final(watcher)@,
                    })
                    &&& event is Some <==> f.registers(found)
                    &&& event matches Some(ev) ==> ev.tells_of(old(self)@, f.file_of(found))
                },
    {
        let arrival = Arrival::draw(self);
        let ghost drawn = arrival@;
        let event = self.meet_as(watcher, name, path, stat, later, arrival);
        proof {
            let f = Folder { state: old(self)@, watch: old(watcher)@ };
            let found = entry_found(name@, path@, stat, later, drawn);
            assert(f.met(found) == Folder { state: self@, watch: watcher@ });
        }
        event
    }

    /// `meet`, with the id, the times and the channel that were drawn.
    pub fn meet_as(
        &mut self,
        watcher: &mut Watcher,
        name: &str,
        path: &str,
        stat: Option<FileStat>,
        later: Option<FileStat>,
        arrival: Arrival,
    ) -> (event: Option<SandboxFileAddedEvent>)
        requires
            old(self)@.sound(),
            arrival@.valid(),
            later matches Some(st) ==> st.size <= MAX_FILE_SIZE,
        ensures
            final(self)@.sound(),
            old(self)@.apart() && old(self)@.is_new(arrival@.channel) ==> final(self)@.apart(),
            ({
                let f = Folder { state: old(self)@, watch: old(watcher)@ };
                let found = entry_found(name@, path@, stat, later, arrival@);
                &&& f.met(found) == (Folder { state: final(self)@, watch: final(watcher)@ })
                &&& event is Some <==> f.registers(found)
                &&& event matches Some(ev) ==> ev.tells_of(old(self)@, f.file_of(found))
            }),
    {
        if !watcher.observe(name, path, stat) {
            return None;
        }
        self.register_sandbox_path_as(path, name, later, arrival)
    }

    /// Shares the files that are in the watched folder at the start. Entries
    /// that are no ordinary files, are hidden, are known already or whose size
    /// cannot be told are passed over.
    pub fn import_existing_sandbox_files_sync(
        &mut self,
        entries: &Vec<SandboxEntry>,
        lan_ip: &Option<String>,
    )
        requires
            old(self)@.sound(),
            forall|i: int|
                0 <= i < entries.len() ==> ((#[trigger] entries@[i]).size matches Some(n) ==> n
                    <= MAX_FILE_SIZE),
        ensures
            final(self)@.sound(),
            old(self)@.apart() ==> final(self)@.apart(),
            exists|arrivals: Seq<ArrivalView>|
                {
                    &&& arrivals.len() == entries.len()
                    &&& forall|i: int| 0 <= i < arrivals.len() ==> (#[trigger] arrivals[i]).valid()
                    &&& final(self)@ == #[trigger] old(self)@.imported(
                        entry_views(entries@),
                        opt_text(*lan_ip),
                        arrivals,
                    )
                },
    {
        let ghost start = self@;
        let ghost views = entry_views(entries@);
        let ghost lan = opt_text(*lan_ip);
        let ghost mut arrivals: Seq<ArrivalView> = Seq::empty();
        let mut i: usize = 0;
        assert(views.take(0) =~= Seq::empty());
        while i < entries.len()
            invariant
                i <= entries.len(),
                self@.sound(),
                start.apart() ==> self@.apart(),
                views == entry_views(entries@),
                lan == opt_text(*lan_ip),
                forall|k: int|
                    0 <= k < entries.len() ==> ((#[trigger] entries@[k]).size matches Some(n) ==> n
                        <= MAX_FILE_SIZE),
                arrivals.len() == i,
                forall|k: int| 0 <= k < i ==> (#[trigger] arrivals[k]).valid(),
                self@ == start.imported(views.take(i as int), lan, arrivals),
            decreases entries.len() - i,
        {
            let arrival = Arrival::draw(self);
            proof {
                let earlier = arrivals;
                arrivals = arrivals.push(arrival@);
                assert(views.take(i + 1).drop_last() =~= views.take(i as int));
                assert(views.take(i + 1).last() == entries@[i as int]@);
                lemma_imported_reads_prefix(start, views.take(i as int), lan, earlier, arrivals);
            }
            self.import_entry(&entries[i], lan_ip, arrival);
            i = i + 1;
        }
        assert(views.take(i as int) =~= views);
    }

    /// Shares one entry of the watched folder, where it is to be shared, with
    /// the id and the times that were drawn.
    pub fn import_entry(
        &mut self,
        entry: &SandboxEntry,
        lan_ip: &Option<String>,
        arrival: Arrival,
    )
        requires
            old(self)@.sound(),
            arrival@.valid(),
            entry.size matches Some(n) ==> n <= MAX_FILE_SIZE,
        ensures
            final(self)@.sound(),
            old(self)@.apart() && old(self)@.is_new(arrival@.channel) ==> final(self)@.apart(),
            final(self)@ == old(self)@.import_one(entry@, opt_text(*lan_ip), arrival@),
    {
        if !entry.is_file || is_hidden(entry.name.as_str()) || has_text(
            &self.path_index,
            entry.path.as_str(),
        ) {
            return;
        }
        if let Some(size) = entry.size {
            let record = FileRecord {
                id: arrival.id,
                original_name: entry.name.clone(),
                total_size: size,
                chunk_count: chunk_count(size),
                mime_type: guess_mime(entry.name.as_str()),
                created_at: arrival.created_at,
                path: entry.path.clone(),
                download_count: AtomicWrap::new(0),
            };
            self.register(record, lan_ip, arrival.joined_at, arrival.channel);
        }
    }

    /// Shares an uploaded file, which was stored at `path` with `size` bytes.
    /// Without a type of its own it is a stream of bytes.
    pub fn register_upload(
        &mut self,
        name: &str,
        mime: &Option<String>,
        path: &str,
        size: u64,
    ) -> (outcome: UploadOutcome)
        requires
            old(self)@.sound(),
            size <= MAX_FILE_SIZE,
        ensures
            final(self)@.sound(),
            old(self)@.apart() ==> final(self)@.apart(),
            exists|arrival: ArrivalView|
                {
                    let file = #[trigger] new_file(
                        arrival,
                        name@,
                        size,
                        upload_type(opt_text(*mime)),
                        path@,
                    );
                    &&& arrival.valid()
                    &&& old(self)@.is_new(arrival.channel)
                    &&& final(self)@ == old(self)@.uploaded(
                        file,
                        arrival.joined_at,
                        arrival.channel,
                    )
                    &&& outcome.tells_of(old(self)@, file, arrival.channel)
                },
    {
        let arrival = Arrival::draw(self);
        let ghost drawn = arrival@;
        let outcome = self.register_upload_as(name, mime, path, size, arrival);
        proof {
            let file = new_file(drawn, name@, size, upload_type(opt_text(*mime)), path@);
            assert(outcome.tells_of(old(self)@, file, drawn.channel));
        }
        outcome
    }

    /// `register_upload`, with the id and the times that were drawn.
    pub fn register_upload_as(
        &mut self,
        name: &str,
        mime: &Option<String>,
        path: &str,
        size: u64,
        arrival: Arrival,
    ) -> (outcome: UploadOutcome)
        requires
            old(self)@.sound(),
            arrival@.valid(),
            size <= MAX_FILE_SIZE,
        ensures
            final(self)@.sound(),
            old(self)@.apart() && old(self)@.is_new(arrival@.channel) ==> final(self)@.apart(),
            ({
                let file = new_file(arrival@, name@, size, upload_type(opt_text(*mime)), path@);
                &&& final(self)@ == old(self)@.uploaded(
                    file,
                    arrival.joined_at,
                    arrival@.channel,
                )
                &&& outcome.tells_of(old(self)@, file, arrival@.channel)
            }),
    {
        let id = arrival.id;
        let count = chunk_count(size);
        let mime_type = match mime {
            Some(m) => m.clone(),
            None => "application/octet-stream".to_owned(),
        };
        let url = download_url(link_base(&self.public_url).as_str(), id.as_str());
        let qr_svg = match make_qr(url.as_str()) {
            Ok(svg) => svg,
            Err(_) => String::new(),
        };
        let ready = Outgoing {
            channel: another_sender(&arrival.channel),
            msg: SignalMsg::FileReady {
                file_id: id.clone(),
                name: name.to_owned(),
                total_size: size,
                chunk_count: count,
                lan_addr: lan_addr(&self.lan_ip, PORT),
            },
        };
        let event = FileReadyEvent {
            file_id: id.clone(),
            name: name.to_owned(),
            total_size: size,
            chunk_count: count,
            download_url: url.clone(),
            lan_url: lan_url(&self.lan_ip, id.as_str()),
            qr_svg,
        };
        let reply = UploadedFile {
            id: id.clone(),
            name: name.to_owned(),
            size_human: format_size(size),
            chunk_count: count,
            download_url: url,
        };
        let lan_ip = copy_opt(&self.lan_ip);
        let record = FileRecord {
            id,
            original_name: name.to_owned(),
            total_size: size,
            chunk_count: count,
            mime_type,
            created_at: arrival.created_at,
            path: path.to_owned(),
            download_count: AtomicWrap::new(0),
        };
        let ghost file = record@;
        self.register(record, &lan_ip, arrival.joined_at, arrival.channel);
        self.bytes_up = self.bytes_up.wrapping_add(size);
        assert(self@ =~= old(self)@.uploaded(file, arrival.joined_at, arrival@.channel));
        UploadOutcome { reply, ready, event }
    }

    /// The shared files, as they are listed in the window. In which order they
    /// come is left open.
    pub fn get_active_files(&self) -> (list: Vec<ActiveFile>)
        ensures
            exists|ids: Seq<Seq<char>>|
                {
                    &&& ids.no_duplicates()
                    &&& #[trigger] ids.to_set() == self@.files.dom()
                    &&& list.len() == ids.len()
                    &&& forall|i: int|
                        0 <= i < list.len() ==> (#[trigger] list@[i]).tells_of(
                            self@,
                            self@.files[ids[i]],
                        )
                },
    {
        let ids = file_keys(&self.files);
        let ghost order = texts(ids@);
        proof {
            assert forall|i: int| 0 <= i < ids.len() implies self@.files.contains_key(
                #[trigger] ids@[i]@,
            ) by {
                assert(order[i] == ids@[i]@);
                assert(order.to_set().contains(order[i]));
            }
        }
        let list = self.describe_files(&ids);
        assert forall|i: int| 0 <= i < list.len() implies (#[trigger] list@[i]).tells_of(
            self@,
            self@.files[order[i]],
        ) by {
            assert(order[i] == ids@[i]@);
        }
        assert(order.to_set() == self@.files.dom());
        list
    }

    /// The shared files `ids`, as they are listed in the window.
    pub fn describe_files(&self, ids: &Vec<String>) -> (list: Vec<ActiveFile>)
        requires
            forall|i: int| 0 <= i < ids.len() ==> self@.files.contains_key(#[trigger] ids@[i]@),
        ensures
            list.len() == ids.len(),
            forall|i: int|
                0 <= i < list.len() ==> (#[trigger] list@[i]).tells_of(
                    self@,
                    self@.files[ids@[i]@],
                ),
    {
        let base = link_base(&self.public_url);
        let mut list: Vec<ActiveFile> = Vec::new();
        let mut i: usize = 0;
        while i < ids.len()
            invariant
                i <= ids.len(),
                base@ == crate::links::base_url(self@.public_url),
                forall|k: int| 0 <= k < ids.len() ==> self@.files.contains_key(#[trigger] ids@[k]@),
                list.len() == i,
                forall|k: int|
                    0 <= k < i ==> (#[trigger] list@[k]).tells_of(self@, self@.files[ids@[k]@]),
            decreases ids.len() - i,
        {
            assert(self@.files.contains_key(ids@[i as int]@));
            let found = look_file(&self.files, ids[i].as_str());
            if let Some(file) = found {
                let peers = self.swarm(file.id.as_str()).len();
                let size_human = format_size(file.total_size);
                let url = download_url(base.as_str(), file.id.as_str());
                let on_lan = lan_url(&self.lan_ip, file.id.as_str());
                list.push(
                    ActiveFile {
                        id: file.id,
                        name: file.original_name,
                        total_size: file.total_size,
                        size_human,
                        chunk_count: file.chunk_count,
                        mime_type: file.mime_type,
                        download_url: url,
                        lan_url: on_lan,
                        peers,
                        downloads: file.download_count.load(),
                    },
                );
            }
            i = i + 1;
        }
        list
    }

    /// What is told of the peers `ids`; those that are gone are passed over.
    fn summaries(&self, ids: &Vec<String>) -> (list: Vec<PeerSummary>)
        ensures
            list.len() == present(self@.peers, texts(ids@)).len(),
            forall|i: int|
                0 <= i < list.len() ==> (#[trigger] list@[i]).tells_of(
                    present(self@.peers, texts(ids@))[i],
                ),
    {
        let ghost all = texts(ids@);
        let mut list: Vec<PeerSummary> = Vec::new();
        let mut i: usize = 0;
        assert(all.take(0) =~= Seq::empty());
        while i < ids.len()
            invariant
                i <= ids.len(),
                all == texts(ids@),
                list.len() == present(self@.peers, all.take(i as int)).len(),
                forall|k: int|
                    0 <= k < list.len() ==> (#[trigger] list@[k]).tells_of(
                        present(self@.peers, all.take(i as int))[k],
                    ),
            decreases ids.len() - i,
        {
            proof {
                assert(all.take(i + 1).drop_last() =~= all.take(i as int));
                assert(all.take(i + 1).last() == ids@[i as int]@);
            }
            if let Some(peer) = look_peer(&self.peers, ids[i].as_str()) {
                list.push(summary_of(&peer));
            }
            i = i + 1;
        }
        assert(all.take(i as int) =~= all);
        list
    }

    /// The metadata of the file `fid`, with its swarm.
    pub fn meta_handler(&self, fid: &str) -> (reply: Result<FileMeta, Refusal>)
        ensures
            match reply {
                Ok(meta) => {
                    &&& self@.files.contains_key(fid@)
                    &&& meta.tells_of(self@.files[fid@], self@.swarm_peers(fid@))
                },
                Err(refusal) => !self@.files.contains_key(fid@) && refusal == Refusal::NotFound,
            },
    {
        match look_file(&self.files, fid) {
            Some(file) => {
                let ids = self.swarm(fid);
                let peers = self.summaries(&ids);
                Ok(
                    FileMeta {
                        id: file.id,
                        name: file.original_name,
                        total_size: file.total_size,
                        chunk_count: file.chunk_count,
                        mime_type: file.mime_type,
                        peers,
                        lan_port: LAN_PORT,
                    },
                )
            },
            None => Err(Refusal::NotFound),
        }
    }

    /// What is to be done for a request for chunk `cidx` of the file `fid`.
    pub fn chunk_handler(&self, fid: &str, cidx: u32) -> (plan: Result<ChunkPlan, Refusal>)
        ensures
            match plan {
                Ok(p) => self@.chunk_plan(fid@, cidx) == Ok::<ChunkPlanView, Refusal>(p@),
                Err(e) => self@.chunk_plan(fid@, cidx) == Err::<ChunkPlanView, Refusal>(e),
            },
    {
        match look_file(&self.files, fid) {
            Some(file) => match chunk_span(file.total_size, cidx) {
                Some(span) => {
                    if file.total_size == 0 {
                        Ok(ChunkPlan::Empty)
                    } else {
                        Ok(
                            ChunkPlan::Read {
                                path: file.path,
                                offset: span.offset,
                                size: span.size,
                            },
                        )
                    }
                },
                None => Err(Refusal::ChunkNotFound),
            },
            None => Err(Refusal::FileNotFound),
        }
    }

    /// The headers of the reply to a request for chunk `cidx`, once `plan` has
    /// been carried out; `read` says how that went, where there was anything to
    /// read.
    pub fn chunk_reply(&mut self, plan: &ChunkPlan, cidx: u32, read: ChunkRead) -> (reply: Result<
        Vec<Header>,
        Refusal,
    >)
        ensures
            final(self)@ == old(self)@.answered(plan@, read),
            old(self)@.sound() ==> final(self)@.sound(),
            match reply {
                Ok(headers) => {
                    &&& plan@ is Empty || read == ChunkRead::Done
                    &&& header_pairs(headers@) == chunk_header_pairs(plan@.bytes(), cidx)
                },
                Err(e) => {
                    &&& plan@ is Read
                    &&& read == ChunkRead::OpenFailed && e == Refusal::DiskError || read
                        == ChunkRead::ReadFailed && e == Refusal::ReadError
                },
            },
    {
        match plan {
            ChunkPlan::Empty => Ok(chunk_headers(0, cidx)),
            ChunkPlan::Read { path: _, offset: _, size } => match read {
                ChunkRead::OpenFailed => Err(Refusal::DiskError),
                ChunkRead::ReadFailed => Err(Refusal::ReadError),
                ChunkRead::Done => {
                    self.bytes_down = self.bytes_down.wrapping_add(*size);
                    assert(self@ =~= old(self)@.sent(*size));
                    Ok(chunk_headers(*size, cidx))
                },
            },
        }
    }

    /// Counts a download of the whole file `fid`, and says what to send.
    pub fn fullfile_handler(&mut self, fid: &str) -> (reply: Result<FullFile, Refusal>)
        requires
            old(self)@.sound(),
        ensures
            final(self)@ == old(self)@.downloaded(fid@),
            final(self)@.sound(),
            match reply {
                Ok(full) => {
                    &&& old(self)@.files.contains_key(fid@)
                    &&& full.tells_of(old(self)@.files[fid@])
                },
                Err(e) => !old(self)@.files.contains_key(fid@) && e == Refusal::NotFound,
            },
    {
        proof {
            law_downloading_keeps_sound(self@, fid@);
        }
        match look_file(&self.files, fid) {
            Some(file) => {
                let full = FullFile {
                    path: file.path.clone(),
                    original_name: file.original_name.clone(),
                    mime_type: file.mime_type.clone(),
                };
                let size = file.total_size;
                let mut counted = file;
                let before = counted.download_count.fetch_add(1);
                put_file(&mut self.files, fid.to_owned(), counted);
                self.bytes_down = self.bytes_down.wrapping_add(size);
                assert(self@ =~= old(self)@.downloaded(fid@));
                Ok(full)
            },
            None => Err(Refusal::NotFound),
        }
    }

    /// Enters a peer in the swarm of the file `fid`. One that gives no id gets
    /// a new one.
    pub fn signal_handler(
        &mut self,
        fid: &str,
        peer_id: Option<String>,
        lan_addr: Option<String>,
    ) -> (reply: Result<Joined, Refusal>)
        requires
            old(self)@.sound(),
        ensures
            final(self)@.sound(),
            match reply {
                Ok(joined) => {
                    &&& old(self)@.signal_bus.contains_key(fid@)
                    &&& match peer_id {
                        Some(given) => joined.peer_id@ == given@,
                        None => is_uuid(joined.peer_id@),
                    }
                    &&& joined.tells_of(
                        final(self)@,
                        fid@,
                        joined.peer_id@,
                        opt_text(lan_addr),
                    )
                    &&& exists|now: Timestamp|
                        now.valid() && final(self)@ == #[trigger] old(self)@.joined(
                            fid@,
                            joined.peer_id@,
                            opt_text(lan_addr),
                            now,
                        )
                },
                Err(e) => {
                    &&& !old(self)@.signal_bus.contains_key(fid@)
                    &&& e == Refusal::NoSuchFile
                    &&& final(self)@ == old(self)@
                },
            },
    {
        let id = match peer_id {
            Some(given) => given,
            None => new_id(),
        };
        self.signal_handler_as(fid, id, lan_addr, utc_now())
    }

    /// `signal_handler`, with the id of the peer and the present moment.
    pub fn signal_handler_as(
        &mut self,
        fid: &str,
        peer_id: String,
        lan_addr: Option<String>,
        now: Timestamp,
    ) -> (reply: Result<Joined, Refusal>)
        requires
            old(self)@.sound(),
            now.valid(),
        ensures
            final(self)@.sound(),
            match reply {
                Ok(joined) => {
                    &&& old(self)@.signal_bus.contains_key(fid@)
                    &&& joined.tells_of(final(self)@, fid@, peer_id@, opt_text(lan_addr))
                    &&& final(self)@ == old(self)@.joined(fid@, peer_id@, opt_text(lan_addr), now)
                },
                Err(e) => {
                    &&& !old(self)@.signal_bus.contains_key(fid@)
                    &&& e == Refusal::NoSuchFile
                    &&& final(self)@ == old(self)@
                },
            },
    {
        let channel = match look_channel(&self.signal_bus, fid) {
            Some(channel) => channel,
            None => {
                return Err(Refusal::NoSuchFile);
            },
        };
        let heard = listener(&channel);
        proof {
            law_joining_keeps_sound(self@, fid@, peer_id@, opt_text(lan_addr), now);
        }
        let chunks = match look_file(&self.files, fid) {
            Some(file) => file.chunk_count,
            None => 0,
        };
        let peer = PeerInfo {
            peer_id: peer_id.clone(),
            file_id: fid.to_owned(),
            has_chunks: Vec::new(),
            lan_addr: copy_opt(&lan_addr),
            joined_at: now,
            last_active: now,
        };
        put_peer(&mut self.peers, peer_id.clone(), peer);
        if let Some(mut ids) = look_list(&self.file_peers, fid) {
            if !holds_text(&ids, peer_id.as_str()) {
                let ghost before = texts(ids@);
                ids.push(peer_id.clone());
                assert(texts(ids@) =~= before.push(peer_id@));
                put_list(&mut self.file_peers, fid.to_owned(), ids);
            }
        }
        assert(self@ =~= old(self)@.joined(fid@, peer_id@, opt_text(lan_addr), now));
        let announcement = Outgoing {
            channel,
            msg: SignalMsg::PeerJoined {
                peer_id: peer_id.clone(),
                lan_addr,
                has_chunks: Vec::new(),
            },
        };
        let peer_count = self.swarm(fid).len();
        let swarm = SwarmEvent {
            file_id: fid.to_owned(),
            peer_count,
            chunks_available: chunks as usize,
        };
        Ok(Joined { peer_id, announcement, swarm, heard })
    }

    /// Takes note of a message to the swarm of the file `fid`, and addresses it to
    /// the signaling channel of the file, where it has one.
    pub fn signal_post_handler(&mut self, fid: &str, msg: SignalMsg) -> (out: Option<Outgoing>)
        requires
            old(self)@.sound(),
        ensures
            final(self)@.sound(),
            exists|now: Timestamp|
                now.valid() && final(self)@ == #[trigger] old(self)@.noted(msg@, now),
            match out {
                Some(o) => {
                    &&& old(self)@.signal_bus.contains_key(fid@)
                    &&& channel_of(o.channel) == old(self)@.signal_bus[fid@]
                    &&& o.msg == msg
                },
                None => !old(self)@.signal_bus.contains_key(fid@),
            },
    {
        self.signal_post_handler_as(fid, msg, utc_now())
    }

    /// `signal_post_handler`, with the present moment.
    pub fn signal_post_handler_as(
        &mut self,
        fid: &str,
        msg: SignalMsg,
        now: Timestamp,
    ) -> (out: Option<Outgoing>)
        requires
            old(self)@.sound(),
            now.valid(),
        ensures
            final(self)@ == old(self)@.noted(msg@, now),
            final(self)@.sound(),
            match out {
                Some(o) => {
                    &&& old(self)@.signal_bus.contains_key(fid@)
                    &&& channel_of(o.channel) == old(self)@.signal_bus[fid@]
                    &&& o.msg == msg
                },
                None => !old(self)@.signal_bus.contains_key(fid@),
            },
    {
        proof {
            law_noting_keeps_sound(self@, msg@, now);
        }
        if let SignalMsg::ChunkUpdate { peer_id, new_chunks } = &msg {
            if let Some(mut peer) = look_peer(&self.peers, peer_id.as_str()) {
                peer.has_chunks = with_new_chunks(peer.has_chunks, new_chunks);
                peer.last_active = now;
                put_peer(&mut self.peers, peer_id.clone(), peer);
            }
        }
        assert(self@ =~= old(self)@.noted(msg@, now));
        self.relay(fid, msg)
    }

    /// The peers in the swarm of the file `fid`, and how long each has been
    /// there.
    pub fn peers_handler(&self, fid: &str) -> (reply: SwarmPeers)
        requires
            self@.sound(),
        ensures
            reply.file_id@ == fid@,
            exists|nows: Seq<Timestamp>| #[trigger]
                told_at(reply.peers@, self@.swarm_peers(fid@), nows),
    {
        let ids = self.swarm(fid);
        let ghost all = texts(ids@);
        let ghost mut nows: Seq<Timestamp> = Seq::empty();
        let mut peers: Vec<PeerStatus> = Vec::new();
        let mut i: usize = 0;
        assert(all.take(0) =~= Seq::empty());
        while i < ids.len()
            invariant
                i <= ids.len(),
                self@.sound(),
                all == texts(ids@),
                told_at(peers@, present(self@.peers, all.take(i as int)), nows),
            decreases ids.len() - i,
        {
            proof {
                assert(all.take(i + 1).drop_last() =~= all.take(i as int));
                assert(all.take(i + 1).last() == ids@[i as int]@);
            }
            if let Some(peer) = look_peer(&self.peers, ids[i].as_str()) {
                assert(self@.sound_peer(ids@[i as int]@));
                let now = utc_now();
                peers.push(peer_status(&peer, now));
                proof {
                    nows = nows.push(now);
                }
            }
            i = i + 1;
        }
        assert(all.take(i as int) =~= all);
        assert(told_at(peers@, self@.swarm_peers(fid@), nows));
        let reply = SwarmPeers { file_id: fid.to_owned(), peers };
        assert(told_at(reply.peers@, self@.swarm_peers(fid@), nows));
        reply
    }

    /// Drops the peers that are stale at present.
    pub fn cleanup(&mut self)
        requires
            old(self)@.sound(),
        ensures
            final(self)@.sound(),
            exists|now: Timestamp|
                now.valid() && final(self)@ == #[trigger] old(self)@.cleaned(now),
    {
        self.cleanup_at(utc_now());
    }

    /// Drops the peers that are stale at `now`.
    pub fn cleanup_at(&mut self, now: Timestamp)
        requires
            old(self)@.sound(),
            now.valid(),
        ensures
            final(self)@ == old(self)@.cleaned(now),
            final(self)@.sound(),
    {
        proof {
            law_cleaning_keeps_sound(self@, now);
        }
        let ghost rows = self@.peers;
        let ids = peer_keys(&self.peers);
        let ghost all = texts(ids@);
        let mut gone: Vec<String> = Vec::new();
        let mut i: usize = 0;
        while i < ids.len()
            invariant
                i <= ids.len(),
                self@.sound(),
                now.valid(),
                rows == self@.peers,
                all == texts(ids@),
                all.to_set() == rows.dom(),
                forall|k: int|
                    0 <= k < i && stale(rows[all[k]], now) ==> texts(gone@).contains(
                        #[trigger] all[k],
                    ),
                forall|j: int|
                    0 <= j < gone.len() ==> {
                        &&& rows.contains_key((#[trigger] gone@[j])@)
                        &&& stale(rows[gone@[j]@], now)
                    },
            decreases ids.len() - i,
        {
            let ghost before = texts(gone@);
            assert(all[i as int] == ids@[i as int]@);
            assert(all.to_set().contains(all[i as int]));
            if let Some(peer) = look_peer(&self.peers, ids[i].as_str()) {
                assert(self@.sound_peer(all[i as int]));
                if longer_ago(now, peer.last_active, STALE_SECONDS) && !has_prefix(
                    peer.peer_id.as_str(),
                    "sender-",
                ) {
                    gone.push(peer.peer_id);
                    proof {
                        assert(texts(gone@) =~= before.push(all[i as int]));
                        assert(texts(gone@)[before.len() as int] == all[i as int]);
                        assert forall|k: int|
                            0 <= k <= i && stale(rows[all[k]], now) implies texts(gone@).contains(
                            #[trigger] all[k],
                        ) by {
                            if k < i {
                                let j = choose|j: int| 0 <= j < before.len() && before[j] == all[k];
                                assert(texts(gone@)[j] == all[k]);
                            }
                        }
                    }
                }
            }
            i = i + 1;
        }
        take_all(&mut self.peers, &gone);
        proof {
            let dropped = Set::new(
                |p: Seq<char>| rows.contains_key(p) && stale(rows[p], now),
            );
            assert forall|p: Seq<char>|
                texts(gone@).to_set().contains(p) <==> dropped.contains(p) by {
                if dropped.contains(p) {
                    assert(all.to_set().contains(p));
                    let k = choose|k: int| 0 <= k < all.len() && all[k] == p;
                    assert(texts(gone@).contains(all[k]));
                }
                if texts(gone@).contains(p) {
                    let j = choose|j: int| 0 <= j < texts(gone@).len() && texts(gone@)[j] == p;
                    assert(gone@[j]@ == p);
                }
            }
            assert(texts(gone@).to_set() =~= dropped);
            assert(self@ =~= old(self)@.cleaned(now));
        }
    }

    /// The counts of bytes received and sent.
    pub fn traffic(&self) -> (reading: Reading)
        ensures
            reading.up == self@.bytes_up,
            reading.down == self@.bytes_down,
    {
        Reading { up: self.bytes_up, down: self.bytes_down }
    }

    /// The number of peers in all swarms.
    pub fn peer_count(&self) -> (n: usize)
        ensures
            n == self@.peers.dom().len(),
    {
        peer_count(&self.peers)
    }
}

} // verus!
