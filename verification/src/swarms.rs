//! Laws of swarms: who is in them, what they have, and when they go.

use crate::clock::{nanos_between, Timestamp};
use crate::ident::{sender_id, sender_prefix};
use crate::model::PeerView;
use crate::registry::{chunks_not_in, present, stale, StateView};
use crate::text::starts_with;
use vstd::prelude::*;

verus! {

/// A peer that joins the swarm of a file is in it, once, with no chunks; those
/// that were in it stay where they were.
pub proof fn law_joining_enters_the_swarm(
    s: StateView,
    fid: Seq<char>,
    peer_id: Seq<char>,
    lan_addr: Option<Seq<char>>,
    now: Timestamp,
)
    requires
        s.sound(),
        s.files.contains_key(fid),
    ensures
        ({
            let t = s.joined(fid, peer_id, lan_addr, now);
            &&& t.swarm(fid).contains(peer_id)
            &&& t.swarm(fid).no_duplicates()
            &&& s.swarm(fid).is_prefix_of(t.swarm(fid))
            &&& t.swarm(fid).len() == s.swarm(fid).len() + if s.swarm(fid).contains(peer_id) {
                0int
            } else {
                1int
            }
            &&& t.peers[peer_id] == (PeerView {
                peer_id,
                file_id: fid,
                has_chunks: Seq::empty(),
                lan_addr,
                joined_at: now,
                last_active: now,
            })
        }),
{
    let t = s.joined(fid, peer_id, lan_addr, now);
    assert(s.sound_file(fid));
    assert(s.file_peers.dom().contains(fid));
    if !s.swarm(fid).contains(peer_id) {
        assert(t.swarm(fid)[s.swarm(fid).len() as int] == peer_id);
    }
}

/// Joining a swarm again does not enter a peer twice.
pub proof fn law_joining_again_keeps_the_swarm(
    s: StateView,
    fid: Seq<char>,
    peer_id: Seq<char>,
    first_addr: Option<Seq<char>>,
    second_addr: Option<Seq<char>>,
    first: Timestamp,
    second: Timestamp,
)
    ensures
        ({
            let t = s.joined(fid, peer_id, first_addr, first);
            t.joined(fid, peer_id, second_addr, second).file_peers == t.file_peers
        }),
{
    let t = s.joined(fid, peer_id, first_addr, first);
    if s.file_peers.contains_key(fid) && !s.file_peers[fid].contains(peer_id) {
        assert(t.file_peers[fid][s.file_peers[fid].len() as int] == peer_id);
    }
}

/// A peer that joins one swarm leaves the other swarms as they are, and the
/// other peers.
pub proof fn law_joining_leaves_others(
    s: StateView,
    fid: Seq<char>,
    peer_id: Seq<char>,
    lan_addr: Option<Seq<char>>,
    now: Timestamp,
    other_file: Seq<char>,
    other_peer: Seq<char>,
)
    requires
        other_file != fid,
        other_peer != peer_id,
    ensures
        ({
            let t = s.joined(fid, peer_id, lan_addr, now);
            &&& t.files == s.files
            &&& t.swarm(other_file) == s.swarm(other_file)
            &&& t.peers.contains_key(other_peer) <==> s.peers.contains_key(other_peer)
            &&& t.peers[other_peer] == s.peers[other_peer]
        }),
{
}

proof fn lemma_chunks_not_in(known: Seq<u32>, new_chunks: Seq<u32>, c: u32)
    ensures
        chunks_not_in(known, new_chunks).contains(c) <==> new_chunks.contains(c) && !known.contains(
            c,
        ),
    decreases new_chunks.len(),
{
    if new_chunks.len() > 0 {
        let front = new_chunks.drop_last();
        let n = front.len() as int;
        let before = chunks_not_in(known, front);
        let after = chunks_not_in(known, new_chunks);
        lemma_chunks_not_in(known, front, c);
        if after.contains(c) {
            let i = choose|i: int| 0 <= i < after.len() && after[i] == c;
            if i < before.len() {
                assert(before[i] == c);
                let k = choose|k: int| 0 <= k < front.len() && front[k] == c;
                assert(new_chunks[k] == c);
            } else {
                assert(new_chunks[n] == c);
            }
        }
        if new_chunks.contains(c) && !known.contains(c) {
            let k = choose|k: int| 0 <= k < new_chunks.len() && new_chunks[k] == c;
            if k < n {
                assert(front[k] == c);
                let i = choose|i: int| 0 <= i < before.len() && before[i] == c;
                assert(after[i] == c);
            } else {
                assert(after[before.len() as int] == c);
            }
        }
    }
}

proof fn lemma_nothing_new(known: Seq<u32>, new_chunks: Seq<u32>)
    requires
        forall|i: int| 0 <= i < new_chunks.len() ==> known.contains(#[trigger] new_chunks[i]),
    ensures
        chunks_not_in(known, new_chunks) == Seq::<u32>::empty(),
    decreases new_chunks.len(),
{
    if new_chunks.len() > 0 {
        let front = new_chunks.drop_last();
        assert forall|i: int| 0 <= i < front.len() implies known.contains(#[trigger] front[i]) by {
            assert(front[i] == new_chunks[i]);
        }
        lemma_nothing_new(known, front);
        assert(known.contains(new_chunks[new_chunks.len() - 1]));
    }
}

/// After a chunk update a peer has what it had, in the same places, and the new
/// chunks, and no others.
pub proof fn law_updates_add_chunks(
    s: StateView,
    peer_id: Seq<char>,
    new_chunks: Seq<u32>,
    now: Timestamp,
    c: u32,
)
    requires
        s.peers.contains_key(peer_id),
    ensures
        ({
            let before = s.peers[peer_id].has_chunks;
            let after = s.with_chunks(peer_id, new_chunks, now).peers[peer_id].has_chunks;
            &&& s.with_chunks(peer_id, new_chunks, now).peers[peer_id].last_active == now
            &&& before.is_prefix_of(after)
            &&& after.contains(c) <==> before.contains(c) || new_chunks.contains(c)
        }),
{
    let before = s.peers[peer_id].has_chunks;
    let added = chunks_not_in(before, new_chunks);
    let after = s.with_chunks(peer_id, new_chunks, now).peers[peer_id].has_chunks;
    assert(after == before + added);
    lemma_chunks_not_in(before, new_chunks, c);
    if before.contains(c) {
        let i = choose|i: int| 0 <= i < before.len() && before[i] == c;
        assert(after[i] == c);
    }
    if added.contains(c) {
        let i = choose|i: int| 0 <= i < added.len() && added[i] == c;
        assert(after[before.len() + i] == c);
    }
    if after.contains(c) {
        let i = choose|i: int| 0 <= i < after.len() && after[i] == c;
        if i < before.len() {
            assert(before[i] == c);
        } else {
            assert(added[i - before.len()] == c);
        }
    }
}

/// A chunk update that comes twice has the effect of the later one alone.
pub proof fn law_updates_can_repeat(
    s: StateView,
    peer_id: Seq<char>,
    new_chunks: Seq<u32>,
    first: Timestamp,
    second: Timestamp,
)
    ensures
        s.with_chunks(peer_id, new_chunks, first).with_chunks(peer_id, new_chunks, second)
            == s.with_chunks(peer_id, new_chunks, second),
{
    if s.peers.contains_key(peer_id) {
        let t = s.with_chunks(peer_id, new_chunks, first);
        let known = t.peers[peer_id].has_chunks;
        assert forall|i: int| 0 <= i < new_chunks.len() implies known.contains(
            #[trigger] new_chunks[i],
        ) by {
            law_updates_add_chunks(s, peer_id, new_chunks, first, new_chunks[i]);
        }
        lemma_nothing_new(known, new_chunks);
        assert(known + Seq::<u32>::empty() =~= known);
        assert(t.with_chunks(peer_id, new_chunks, second).peers =~= s.with_chunks(
            peer_id,
            new_chunks,
            second,
        ).peers);
    }
}

proof fn lemma_added_once(known: Seq<u32>, new_chunks: Seq<u32>)
    requires
        new_chunks.no_duplicates(),
    ensures
        chunks_not_in(known, new_chunks).no_duplicates(),
    decreases new_chunks.len(),
{
    if new_chunks.len() > 0 {
        let front = new_chunks.drop_last();
        lemma_added_once(known, front);
        let before = chunks_not_in(known, front);
        lemma_chunks_not_in(known, front, new_chunks.last());
        if before.contains(new_chunks.last()) {
            let k = choose|k: int| 0 <= k < front.len() && front[k] == new_chunks.last();
            assert(new_chunks[k] == new_chunks[new_chunks.len() - 1]);
        }
    }
}

/// Chunk updates that name no chunk twice keep the list of a peer free of
/// duplicates.
pub proof fn law_updates_list_chunks_once(
    s: StateView,
    peer_id: Seq<char>,
    new_chunks: Seq<u32>,
    now: Timestamp,
)
    requires
        s.peers.contains_key(peer_id),
        s.peers[peer_id].has_chunks.no_duplicates(),
        new_chunks.no_duplicates(),
    ensures
        s.with_chunks(peer_id, new_chunks, now).peers[peer_id].has_chunks.no_duplicates(),
{
    let before = s.peers[peer_id].has_chunks;
    let added = chunks_not_in(before, new_chunks);
    let after = before + added;
    lemma_added_once(before, new_chunks);
    assert forall|i: int, j: int| 0 <= i < j < after.len() implies after[i] != after[j] by {
        if i < before.len() && j >= before.len() {
            let c = after[j];
            assert(added[j - before.len()] == c);
            lemma_chunks_not_in(before, new_chunks, c);
            assert(before[i] != c);
        }
    }
}

/// Senders are never dropped.
pub proof fn law_senders_stay(s: StateView, now: Timestamp, id: Seq<char>)
    requires
        s.sound(),
        s.peers.contains_key(sender_id(id)),
    ensures
        s.cleaned(now).peers.contains_key(sender_id(id)),
        s.cleaned(now).peers[sender_id(id)] == s.peers[sender_id(id)],
{
    assert(s.sound_peer(sender_id(id)));
    let sender = sender_id(id);
    assert(sender.take(sender_prefix().len() as int) =~= sender_prefix());
    assert(starts_with(sender, sender_prefix()));
}

/// After cleaning up, no peer is stale, and every peer that was not stale is
/// still there.
pub proof fn law_cleaning_drops_just_the_stale(s: StateView, now: Timestamp, p: Seq<char>)
    ensures
        s.cleaned(now).peers.contains_key(p) <==> s.peers.contains_key(p) && !stale(
            s.peers[p],
            now,
        ),
        s.cleaned(now).peers.contains_key(p) ==> s.cleaned(now).peers[p] == s.peers[p],
{
}

/// Cleaning up twice at one moment is cleaning up once.
pub proof fn law_cleaning_twice_is_once(s: StateView, now: Timestamp)
    ensures
        s.cleaned(now).cleaned(now) == s.cleaned(now),
{
    let t = s.cleaned(now);
    assert(t.cleaned(now).peers =~= t.peers);
}

/// A peer that is not a sender is dropped just when it has not been active for
/// more than five minutes.
pub proof fn law_receivers_stay_for_five_minutes(s: StateView, now: Timestamp, p: Seq<char>)
    requires
        s.sound(),
        s.peers.contains_key(p),
        !starts_with(p, sender_prefix()),
    ensures
        s.cleaned(now).peers.contains_key(p) <==> nanos_between(now, s.peers[p].last_active)
            <= 5 * 60 * 1_000_000_000,
{
    assert(s.sound_peer(p));
}

/// A peer that tells of chunks is kept for five minutes from then on, whenever it
/// joined.
pub proof fn law_active_peers_stay(
    s: StateView,
    p: Seq<char>,
    new_chunks: Seq<u32>,
    told: Timestamp,
    now: Timestamp,
)
    requires
        s.peers.contains_key(p),
        nanos_between(now, told) <= 5 * 60 * 1_000_000_000,
    ensures
        s.with_chunks(p, new_chunks, told).cleaned(now).peers.contains_key(p),
{
}

proof fn lemma_present(peers: Map<Seq<char>, PeerView>, ids: Seq<Seq<char>>, peer: PeerView)
    ensures
        present(peers, ids).contains(peer) <==> exists|i: int|
            0 <= i < ids.len() && peers.contains_key(#[trigger] ids[i]) && peers[ids[i]] == peer,
    decreases ids.len(),
{
    if ids.len() > 0 {
        let front = ids.drop_last();
        let n = front.len() as int;
        let before = present(peers, front);
        let after = present(peers, ids);
        lemma_present(peers, front, peer);
        if after.contains(peer) {
            let k = choose|k: int| 0 <= k < after.len() && after[k] == peer;
            if k < before.len() {
                assert(before[k] == peer);
                let i = choose|i: int|
                    0 <= i < front.len() && peers.contains_key(#[trigger] front[i])
                        && peers[front[i]] == peer;
                assert(ids[i] == front[i]);
            } else {
                assert(ids[n] == ids.last());
            }
        }
        if exists|i: int|
            0 <= i < ids.len() && peers.contains_key(#[trigger] ids[i]) && peers[ids[i]] == peer {
            let i = choose|i: int|
                0 <= i < ids.len() && peers.contains_key(#[trigger] ids[i]) && peers[ids[i]]
                    == peer;
            if i < n {
                assert(front[i] == ids[i]);
                let k = choose|k: int| 0 <= k < before.len() && before[k] == peer;
                assert(after[k] == peer);
            } else {
                assert(after[before.len() as int] == peer);
            }
        }
    }
}

/// A file is told with just those peers that its swarm lists and that are not
/// gone.
pub proof fn law_swarm_peers_are_listed_and_present(s: StateView, fid: Seq<char>, p: Seq<char>)
    requires
        s.sound(),
        s.peers.contains_key(p),
    ensures
        s.swarm_peers(fid).contains(s.peers[p]) <==> s.swarm(fid).contains(p),
{
    let ids = s.swarm(fid);
    lemma_present(s.peers, ids, s.peers[p]);
    assert(s.sound_peer(p));
    if s.swarm_peers(fid).contains(s.peers[p]) {
        let i = choose|i: int|
            0 <= i < ids.len() && s.peers.contains_key(#[trigger] ids[i]) && s.peers[ids[i]]
                == s.peers[p];
        assert(s.sound_peer(ids[i]));
        assert(ids[i] == p);
    }
    if ids.contains(p) {
        let i = choose|i: int| 0 <= i < ids.len() && ids[i] == p;
        assert(s.peers.contains_key(ids[i]));
    }
}

} // verus!
