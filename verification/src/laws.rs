//! What every change to the registry keeps.

use crate::channel::ChannelView;
use crate::chunks::announced_chunks;
use crate::clock::Timestamp;
use crate::ident::{is_uuid, sender_id};
use crate::model::{FileView, SignalView};
use crate::names::mime_of;
use crate::registry::{new_file, ArrivalView, EntryView, StateView, BUS_CAPACITY};
use vstd::prelude::*;

verus! {

/// The server starts out sound and linked, with its channels apart.
pub proof fn law_initial_state_is_sound(
    upload_dir: Seq<char>,
    sandbox_dir: Seq<char>,
    lan_ip: Option<Seq<char>>,
)
    ensures
        StateView::initial(upload_dir, sandbox_dir, lan_ip).sound(),
        StateView::initial(upload_dir, sandbox_dir, lan_ip).linked(),
        StateView::initial(upload_dir, sandbox_dir, lan_ip).apart(),
{
    let s = StateView::initial(upload_dir, sandbox_dir, lan_ip);
    assert(s.file_peers.dom() =~= s.files.dom());
    assert(s.signal_bus.dom() =~= s.files.dom());
}

/// Sharing a file keeps the server sound.
pub proof fn law_registering_keeps_sound(
    s: StateView,
    file: FileView,
    lan_ip: Option<Seq<char>>,
    joined_at: Timestamp,
    channel: ChannelView,
)
    requires
        s.sound(),
        is_uuid(file.id),
        file.chunk_count == announced_chunks(file.total_size),
        file.created_at.valid(),
        joined_at.valid(),
        channel.capacity == BUS_CAPACITY,
    ensures
        s.registered(file, lan_ip, joined_at, channel).sound(),
{
    let t = s.registered(file, lan_ip, joined_at, channel);
    assert(t.file_peers.dom() =~= t.files.dom());
    assert(t.signal_bus.dom() =~= t.files.dom());
    assert forall|id: Seq<char>| #[trigger] t.files.contains_key(id) implies t.sound_file(id) by {
        if id != file.id {
            assert(s.files.contains_key(id) && s.sound_file(id));
        }
    }
    assert forall|p: Seq<char>| #[trigger] t.peers.contains_key(p) implies t.sound_peer(p) by {
        if p != sender_id(file.id) {
            assert(s.peers.contains_key(p) && s.sound_peer(p));
        }
    }
}

/// Forgetting a file keeps the server sound.
pub proof fn law_forgetting_keeps_sound(s: StateView, path: Seq<char>, id: Seq<char>)
    requires
        s.sound(),
    ensures
        s.forgotten(path, id).sound(),
{
    let t = s.forgotten(path, id);
    assert(t.file_peers.dom() =~= t.files.dom());
    assert(t.signal_bus.dom() =~= t.files.dom());
    assert forall|k: Seq<char>| #[trigger] t.files.contains_key(k) implies t.sound_file(k) by {
        assert(s.files.contains_key(k) && s.sound_file(k));
    }
    assert forall|p: Seq<char>| #[trigger] t.peers.contains_key(p) implies t.sound_peer(p) by {
        assert(s.peers.contains_key(p) && s.sound_peer(p));
    }
}

/// Stopping to share a file keeps the server sound.
pub proof fn law_deleting_keeps_sound(s: StateView, id: Seq<char>)
    requires
        s.sound(),
    ensures
        s.deleted(id).sound(),
{
    if s.files.contains_key(id) {
        law_forgetting_keeps_sound(s, s.files[id].path, id);
    }
}

/// A peer that joins keeps the server sound.
pub proof fn law_joining_keeps_sound(
    s: StateView,
    fid: Seq<char>,
    peer_id: Seq<char>,
    lan_addr: Option<Seq<char>>,
    now: Timestamp,
)
    requires
        s.sound(),
        now.valid(),
    ensures
        s.joined(fid, peer_id, lan_addr, now).sound(),
{
    let t = s.joined(fid, peer_id, lan_addr, now);
    assert(t.file_peers.dom() =~= t.files.dom());
    assert forall|k: Seq<char>| #[trigger] t.files.contains_key(k) implies t.sound_file(k) by {
        assert(s.files.contains_key(k) && s.sound_file(k));
    }
    assert forall|p: Seq<char>| #[trigger] t.peers.contains_key(p) implies t.sound_peer(p) by {
        if p != peer_id {
            assert(s.peers.contains_key(p) && s.sound_peer(p));
        }
    }
}

/// A message to a swarm keeps the server sound.
pub proof fn law_noting_keeps_sound(s: StateView, msg: SignalView, now: Timestamp)
    requires
        s.sound(),
        now.valid(),
    ensures
        s.noted(msg, now).sound(),
{
    let t = s.noted(msg, now);
    assert forall|k: Seq<char>| #[trigger] t.files.contains_key(k) implies t.sound_file(k) by {
        assert(s.files.contains_key(k) && s.sound_file(k));
    }
    assert forall|p: Seq<char>| #[trigger] t.peers.contains_key(p) implies t.sound_peer(p) by {
        assert(s.peers.contains_key(p) && s.sound_peer(p));
    }
}

/// Dropping stale peers keeps the server sound.
pub proof fn law_cleaning_keeps_sound(s: StateView, now: Timestamp)
    requires
        s.sound(),
    ensures
        s.cleaned(now).sound(),
{
    let t = s.cleaned(now);
    assert forall|k: Seq<char>| #[trigger] t.files.contains_key(k) implies t.sound_file(k) by {
        assert(s.files.contains_key(k) && s.sound_file(k));
    }
    assert forall|p: Seq<char>| #[trigger] t.peers.contains_key(p) implies t.sound_peer(p) by {
        assert(s.peers.contains_key(p) && s.sound_peer(p));
    }
}

/// A full download keeps the server sound.
pub proof fn law_downloading_keeps_sound(s: StateView, fid: Seq<char>)
    requires
        s.sound(),
    ensures
        s.downloaded(fid).sound(),
{
    let t = s.downloaded(fid);
    assert(t.files.dom() =~= s.files.dom());
    assert forall|k: Seq<char>| #[trigger] t.files.contains_key(k) implies t.sound_file(k) by {
        assert(s.files.contains_key(k) && s.sound_file(k));
    }
    assert forall|p: Seq<char>| #[trigger] t.peers.contains_key(p) implies t.sound_peer(p) by {
        assert(s.peers.contains_key(p) && s.sound_peer(p));
    }
}

/// Importing an entry that is found at the start keeps the server sound.
pub proof fn law_importing_keeps_sound(
    s: StateView,
    entry: EntryView,
    lan_ip: Option<Seq<char>>,
    arrival: ArrivalView,
)
    requires
        s.sound(),
        arrival.valid(),
    ensures
        s.import_one(entry, lan_ip, arrival).sound(),
{
    if s.imports(entry) {
        let file = new_file(
            arrival,
            entry.name,
            entry.size->0,
            mime_of(entry.name),
            entry.path,
        );
        law_registering_keeps_sound(s, file, lan_ip, arrival.joined_at, arrival.channel);
    }
}

/// An upload keeps the server sound.
pub proof fn law_uploading_keeps_sound(s: StateView,
    file: FileView,
    joined_at: Timestamp,
    channel: ChannelView,
)
    requires
        s.sound(),
        is_uuid(file.id),
        file.chunk_count == announced_chunks(file.total_size),
        file.created_at.valid(),
        joined_at.valid(),
        channel.capacity == BUS_CAPACITY,
    ensures
        s.uploaded(file, joined_at, channel).sound(),
{
    law_registering_keeps_sound(s, file, s.lan_ip, joined_at, channel);
    let t = s.registered(file, s.lan_ip, joined_at, channel);
    let u = s.uploaded(file, joined_at, channel);
    assert forall|k: Seq<char>| #[trigger] u.files.contains_key(k) implies u.sound_file(k) by {
        assert(t.files.contains_key(k) && t.sound_file(k));
    }
    assert forall|p: Seq<char>| #[trigger] u.peers.contains_key(p) implies u.sound_peer(p) by {
        assert(t.peers.contains_key(p) && t.sound_peer(p));
    }
}

/// A change that keeps the index, and of every file its path, keeps the server
/// linked, where each peer is listed or is as it was in the swarms as they were.
pub proof fn lemma_stays_linked(s: StateView, t: StateView)
    requires
        s.linked(),
        t.path_index == s.path_index,
        forall|id: Seq<char>| #[trigger]
            s.files.contains_key(id) ==> t.files.contains_key(id) && t.files[id].path
                == s.files[id].path,
        forall|p: Seq<char>| #[trigger]
            t.peers.contains_key(p) ==> t.listed(p) || (t.file_peers == s.file_peers
                && s.peers.contains_key(p) && t.peers[p].file_id == s.peers[p].file_id),
    ensures
        t.linked(),
{
    assert forall|path: Seq<char>| #[trigger]
        t.path_index.contains_key(path) implies t.leads(path) by {
        assert(s.path_index.contains_key(path) && s.leads(path));
    }
    assert forall|p: Seq<char>| #[trigger] t.peers.contains_key(p) implies t.listed(p) by {
        if s.peers.contains_key(p) {
            assert(s.listed(p));
        }
    }
}

/// Sharing a file under an id that is not in use keeps the server linked.
pub proof fn law_registering_keeps_linked(
    s: StateView,
    file: FileView,
    lan_ip: Option<Seq<char>>,
    joined_at: Timestamp,
    channel: ChannelView,
)
    requires
        s.sound(),
        s.linked(),
        !s.files.contains_key(file.id),
    ensures
        s.registered(file, lan_ip, joined_at, channel).linked(),
{
    let t = s.registered(file, lan_ip, joined_at, channel);
    let sender = sender_id(file.id);
    assert forall|path: Seq<char>| #[trigger]
        t.path_index.contains_key(path) implies t.leads(path) by {
        if path != file.path {
            assert(s.path_index.contains_key(path));
        }
    }
    assert forall|p: Seq<char>| #[trigger] t.peers.contains_key(p) implies t.listed(p) by {
        if p != sender {
            assert(s.peers.contains_key(p));
            assert(s.files.dom().contains(s.peers[p].file_id));
        } else {
            assert(t.file_peers[file.id][0] == sender);
        }
    }
}

/// Stopping to share a file keeps the server linked.
pub proof fn law_deleting_keeps_linked(s: StateView, id: Seq<char>)
    requires
        s.sound(),
        s.linked(),
    ensures
        s.deleted(id).linked(),
{
    let t = s.deleted(id);
    if s.files.contains_key(id) {
        assert(s.file_peers.dom().contains(id));
        assert forall|path: Seq<char>| #[trigger]
        t.path_index.contains_key(path) implies t.leads(path) by {
            assert(s.path_index.contains_key(path));
        }
        assert forall|p: Seq<char>| #[trigger] t.peers.contains_key(p) implies t.listed(p) by {
            assert(s.peers.contains_key(p));
            assert(!s.file_peers[id].to_set().contains(p));
        }
    }
}

/// A peer that joins the swarm of a shared file keeps the server linked.
pub proof fn law_joining_keeps_linked(
    s: StateView,
    fid: Seq<char>,
    peer_id: Seq<char>,
    lan_addr: Option<Seq<char>>,
    now: Timestamp,
)
    requires
        s.sound(),
        s.linked(),
        s.signal_bus.contains_key(fid),
    ensures
        s.joined(fid, peer_id, lan_addr, now).linked(),
{
    let t = s.joined(fid, peer_id, lan_addr, now);
    assert(s.signal_bus.dom().contains(fid));
    assert(s.file_peers.dom().contains(fid));
    assert forall|p: Seq<char>| #[trigger] t.peers.contains_key(p) implies t.listed(p) by {
        if p == peer_id {
            if !s.file_peers[fid].contains(peer_id) {
                assert(t.file_peers[fid][s.file_peers[fid].len() as int] == peer_id);
            }
        } else {
            assert(s.peers.contains_key(p));
            let f = s.peers[p].file_id;
            let k = choose|k: int|
                0 <= k < s.file_peers[f].len() && s.file_peers[f][k] == p;
            assert(t.file_peers[f][k] == p);
        }
    }
    lemma_stays_linked(s, t);
}

/// A message to a swarm keeps the server linked.
pub proof fn law_noting_keeps_linked(s: StateView, msg: SignalView, now: Timestamp)
    requires
        s.linked(),
    ensures
        s.noted(msg, now).linked(),
{
    let t = s.noted(msg, now);
    lemma_stays_linked(s, t);
}

/// Dropping stale peers keeps the server linked.
pub proof fn law_cleaning_keeps_linked(s: StateView, now: Timestamp)
    requires
        s.linked(),
    ensures
        s.cleaned(now).linked(),
{
    let t = s.cleaned(now);
    lemma_stays_linked(s, t);
}

/// A full download keeps the server linked.
pub proof fn law_downloading_keeps_linked(s: StateView, fid: Seq<char>)
    requires
        s.linked(),
    ensures
        s.downloaded(fid).linked(),
{
    let t = s.downloaded(fid);
    lemma_stays_linked(s, t);
}

/// Sharing a file with a channel of its own keeps the channels apart.
pub proof fn law_registering_keeps_apart(
    s: StateView,
    file: FileView,
    lan_ip: Option<Seq<char>>,
    joined_at: Timestamp,
    channel: ChannelView,
)
    requires
        s.apart(),
        s.is_new(channel),
    ensures
        s.registered(file, lan_ip, joined_at, channel).apart(),
{
    let t = s.registered(file, lan_ip, joined_at, channel);
    assert forall|a: Seq<char>, b: Seq<char>| #[trigger]
        t.signal_bus.contains_key(a) && #[trigger] t.signal_bus.contains_key(b) && a
            != b implies t.signal_bus[a].identity != t.signal_bus[b].identity by {
        if a != file.id {
            assert(s.signal_bus.contains_key(a));
        }
        if b != file.id {
            assert(s.signal_bus.contains_key(b));
        }
    }
}

/// Forgetting a file keeps the channels of the others apart.
pub proof fn law_forgetting_keeps_apart(s: StateView, path: Seq<char>, id: Seq<char>)
    requires
        s.apart(),
    ensures
        s.forgotten(path, id).apart(),
{
    let t = s.forgotten(path, id);
    assert forall|a: Seq<char>, b: Seq<char>| #[trigger]
        t.signal_bus.contains_key(a) && #[trigger] t.signal_bus.contains_key(b) && a
            != b implies t.signal_bus[a].identity != t.signal_bus[b].identity by {
        assert(s.signal_bus.contains_key(a) && s.signal_bus.contains_key(b));
    }
}

} // verus!
