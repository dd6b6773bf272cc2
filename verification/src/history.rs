//! Laws of everything that can happen to the server, one change after another.

use crate::channel::ChannelView;
use crate::chunks::announced_chunks;
use crate::clock::Timestamp;
use crate::ident::is_uuid;
use crate::laws::{
    law_cleaning_keeps_linked, law_cleaning_keeps_sound, law_deleting_keeps_linked,
    law_deleting_keeps_sound, law_downloading_keeps_linked, law_downloading_keeps_sound,
    law_forgetting_keeps_apart, law_joining_keeps_linked, law_joining_keeps_sound,
    law_noting_keeps_linked, law_noting_keeps_sound, law_registering_keeps_apart,
    law_registering_keeps_linked, law_registering_keeps_sound, law_uploading_keeps_sound,
    lemma_stays_linked,
};
use crate::model::{FileView, SignalView};
use crate::registry::{ChunkPlanView, ChunkRead, StateView, BUS_CAPACITY};
use crate::sharing::law_vanishing_is_unsharing;
use vstd::prelude::*;

verus! {

/// A change to what the server knows.
pub enum Change {
    /// A file of the watched folder is shared.
    Registered {
        file: FileView,
        lan_ip: Option<Seq<char>>,
        joined_at: Timestamp,
        channel: ChannelView,
    },
    /// An upload is shared.
    Uploaded { file: FileView, joined_at: Timestamp, channel: ChannelView },
    /// A file is gone from the watched folder.
    Forgotten { path: Seq<char>, id: Seq<char> },
    /// A file is deleted in the app.
    Deleted { id: Seq<char> },
    /// A peer joins a swarm.
    Joined {
        fid: Seq<char>,
        peer_id: Seq<char>,
        lan_addr: Option<Seq<char>>,
        now: Timestamp,
    },
    /// A message is posted to a swarm.
    Noted { msg: SignalView, now: Timestamp },
    /// Stale peers are dropped.
    Cleaned { now: Timestamp },
    /// A whole file is downloaded.
    Downloaded { fid: Seq<char> },
    /// A chunk is asked for.
    Answered { plan: ChunkPlanView, read: ChunkRead },
    /// The address of a tunnel is set.
    Tunnelled { url: Seq<char> },
}

impl Change {
    /// Whether the file `fid` is neither shared anew nor unshared.
    pub open spec fn leaves(self, fid: Seq<char>) -> bool {
        match self {
            Change::Registered { file, lan_ip, joined_at, channel } => file.id != fid,
            Change::Uploaded { file, joined_at, channel } => file.id != fid,
            Change::Forgotten { path, id } => id != fid,
            Change::Deleted { id } => id != fid,
            _ => true,
        }
    }
}

/// Whether `file` can be shared in the state `s`, with the channel `channel`:
/// neither its id nor the channel is in use.
pub open spec fn can_share(
    s: StateView,
    file: FileView,
    joined_at: Timestamp,
    channel: ChannelView,
) -> bool {
    &&& is_uuid(file.id)
    &&& !s.files.contains_key(file.id)
    &&& file.chunk_count == announced_chunks(file.total_size)
    &&& file.created_at.valid()
    &&& joined_at.valid()
    &&& channel.capacity == BUS_CAPACITY
    &&& s.is_new(channel)
}

impl StateView {
    /// The state after a change.
    pub open spec fn changed(self, change: Change) -> StateView {
        match change {
            Change::Registered { file, lan_ip, joined_at, channel } => self.registered(
                file,
                lan_ip,
                joined_at,
                channel,
            ),
            Change::Uploaded { file, joined_at, channel } => self.uploaded(
                file,
                joined_at,
                channel,
            ),
            Change::Forgotten { path, id } => self.forgotten(path, id),
            Change::Deleted { id } => self.deleted(id),
            Change::Joined { fid, peer_id, lan_addr, now } => self.joined(
                fid,
                peer_id,
                lan_addr,
                now,
            ),
            Change::Noted { msg, now } => self.noted(msg, now),
            Change::Cleaned { now } => self.cleaned(now),
            Change::Downloaded { fid } => self.downloaded(fid),
            Change::Answered { plan, read } => self.answered(plan, read),
            Change::Tunnelled { url } => self.tunnelled(url),
        }
    }

    /// Whether a change can happen: what is drawn is not in use, what is
    /// forgotten is known, and a swarm that is joined is that of a shared file.
    pub open spec fn allows(self, change: Change) -> bool {
        match change {
            Change::Registered { file, lan_ip, joined_at, channel } => can_share(
                self,
                file,
                joined_at,
                channel,
            ),
            Change::Uploaded { file, joined_at, channel } => can_share(
                self,
                file,
                joined_at,
                channel,
            ),
            Change::Forgotten { path, id } => self.path_index.contains_key(path)
                && self.path_index[path] == id,
            Change::Joined { fid, peer_id, lan_addr, now } => self.signal_bus.contains_key(fid)
                && now.valid(),
            Change::Noted { msg, now } => now.valid(),
            _ => true,
        }
    }

    /// The state after some changes, one after another.
    pub open spec fn after(self, changes: Seq<Change>) -> StateView
        decreases changes.len(),
    {
        if changes.len() == 0 {
            self
        } else {
            self.after(changes.drop_last()).changed(changes.last())
        }
    }

    /// Whether some changes can happen, one after another.
    pub open spec fn allows_all(self, changes: Seq<Change>) -> bool
        decreases changes.len(),
    {
        changes.len() == 0 || {
            &&& self.allows_all(changes.drop_last())
            &&& self.after(changes.drop_last()).allows(changes.last())
        }
    }
}

proof fn lemma_change_keeps(s: StateView, change: Change)
    requires
        s.sound(),
        s.linked(),
        s.apart(),
        s.allows(change),
    ensures
        s.changed(change).sound(),
        s.changed(change).linked(),
        s.changed(change).apart(),
{
    match change {
        Change::Registered { file, lan_ip, joined_at, channel } => {
            law_registering_keeps_sound(s, file, lan_ip, joined_at, channel);
            law_registering_keeps_linked(s, file, lan_ip, joined_at, channel);
            law_registering_keeps_apart(s, file, lan_ip, joined_at, channel);
        },
        Change::Uploaded { file, joined_at, channel } => {
            let t = s.registered(file, s.lan_ip, joined_at, channel);
            let u = s.uploaded(file, joined_at, channel);
            law_uploading_keeps_sound(s, file, joined_at, channel);
            law_registering_keeps_linked(s, file, s.lan_ip, joined_at, channel);
            law_registering_keeps_apart(s, file, s.lan_ip, joined_at, channel);
            lemma_same_tables_keep(t, u);
        },
        Change::Forgotten { path, id } => {
            law_vanishing_is_unsharing(s, path);
            law_deleting_keeps_sound(s, id);
            law_deleting_keeps_linked(s, id);
            law_forgetting_keeps_apart(s, path, id);
        },
        Change::Deleted { id } => {
            law_deleting_keeps_sound(s, id);
            law_deleting_keeps_linked(s, id);
            if s.files.contains_key(id) {
                law_forgetting_keeps_apart(s, s.files[id].path, id);
            }
        },
        Change::Joined { fid, peer_id, lan_addr, now } => {
            law_joining_keeps_sound(s, fid, peer_id, lan_addr, now);
            law_joining_keeps_linked(s, fid, peer_id, lan_addr, now);
        },
        Change::Noted { msg, now } => {
            law_noting_keeps_sound(s, msg, now);
            law_noting_keeps_linked(s, msg, now);
        },
        Change::Cleaned { now } => {
            law_cleaning_keeps_sound(s, now);
            law_cleaning_keeps_linked(s, now);
        },
        Change::Downloaded { fid } => {
            law_downloading_keeps_sound(s, fid);
            law_downloading_keeps_linked(s, fid);
        },
        Change::Answered { plan, read } => {
            lemma_same_tables_keep(s, s.answered(plan, read));
        },
        Change::Tunnelled { url } => {
            lemma_same_tables_keep(s, s.tunnelled(url));
        },
    }
}

/// The invariants speak of the tables alone.
proof fn lemma_same_tables_keep(s: StateView, t: StateView)
    requires
        s.sound(),
        s.linked(),
        t.files == s.files,
        t.peers == s.peers,
        t.file_peers == s.file_peers,
        t.signal_bus == s.signal_bus,
        t.path_index == s.path_index,
    ensures
        t.sound(),
        t.linked(),
{
    assert forall|k: Seq<char>| #[trigger] t.files.contains_key(k) implies t.sound_file(k) by {
        assert(s.files.contains_key(k) && s.sound_file(k));
    }
    assert forall|p: Seq<char>| #[trigger] t.peers.contains_key(p) implies t.sound_peer(p) by {
        assert(s.peers.contains_key(p) && s.sound_peer(p));
    }
    lemma_stays_linked(s, t);
}

/// Whatever happens, the server stays sound and linked, and its channels apart.
pub proof fn law_invariants_hold_throughout(s: StateView, changes: Seq<Change>)
    requires
        s.sound(),
        s.linked(),
        s.apart(),
        s.allows_all(changes),
    ensures
        s.after(changes).sound(),
        s.after(changes).linked(),
        s.after(changes).apart(),
    decreases changes.len(),
{
    if changes.len() > 0 {
        law_invariants_hold_throughout(s, changes.drop_last());
        lemma_change_keeps(s.after(changes.drop_last()), changes.last());
    }
}

/// A file keeps its signaling channel as long as it is shared.
pub proof fn law_channels_stay(s: StateView, changes: Seq<Change>, fid: Seq<char>)
    requires
        s.signal_bus.contains_key(fid),
        forall|i: int| 0 <= i < changes.len() ==> (#[trigger] changes[i]).leaves(fid),
    ensures
        s.after(changes).signal_bus.contains_key(fid),
        s.after(changes).signal_bus[fid] == s.signal_bus[fid],
    decreases changes.len(),
{
    if changes.len() > 0 {
        let front = changes.drop_last();
        assert forall|i: int| 0 <= i < front.len() implies (#[trigger] front[i]).leaves(fid) by {
            assert(front[i] == changes[i]);
        }
        law_channels_stay(s, front, fid);
        assert(changes[changes.len() - 1].leaves(fid));
    }
}

/// What is posted for a file is addressed to the channel that all listen to who
/// joined its swarm since it was shared, whatever happened in between; and it is
/// addressed to the channel of no other file. Here `s` is the state in which one
/// joined the swarm of `fid`, and the changes are those up to the posting.
pub proof fn law_posts_reach_those_who_joined(
    s: StateView,
    changes: Seq<Change>,
    fid: Seq<char>,
    other: Seq<char>,
)
    requires
        s.sound(),
        s.linked(),
        s.apart(),
        s.allows_all(changes),
        s.signal_bus.contains_key(fid),
        forall|i: int| 0 <= i < changes.len() ==> (#[trigger] changes[i]).leaves(fid),
        other != fid,
    ensures
        s.after(changes).signal_bus.contains_key(fid),
        s.after(changes).signal_bus[fid].identity == s.signal_bus[fid].identity,
        s.after(changes).signal_bus.contains_key(other) ==> s.after(
            changes,
        ).signal_bus[other].identity != s.signal_bus[fid].identity,
{
    law_channels_stay(s, changes, fid);
    law_invariants_hold_throughout(s, changes);
}

} // verus!
