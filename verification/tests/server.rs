use gimmeurl::channel::{another_sender, Outgoing};
use gimmeurl::clock::{longer_ago, Timestamp};
use gimmeurl::http::Refusal;
use gimmeurl::model::{AtomicWrap, SignalMsg};
use gimmeurl::registry::{ChunkRead, BUS_CAPACITY};
use gimmeurl::sandbox::{FileStat, Watcher};
use gimmeurl::state::{peer_status, shown_path, AppState, Arrival, ChunkPlan, SandboxEntry};

const ID: &str = "0123abcd-0000-4000-8000-000000000001";
const ID2: &str = "fedc9876-0000-4000-8000-000000000002";

fn at(secs: i64) -> Timestamp {
    Timestamp { secs, nanos: 0 }
}

fn arrival(id: &str) -> Arrival {
    let channel = tokio::sync::broadcast::channel(BUS_CAPACITY).0;
    Arrival { id: id.to_string(), created_at: at(100), joined_at: at(101), channel }
}

fn server() -> AppState {
    AppState::new("/up".to_string(), "/box".to_string(), Some("10.0.0.5".to_string()))
}

fn stat(size: u64) -> Option<FileStat> {
    Some(FileStat { is_file: true, size })
}

/// A server that shares a file of 600000 bytes.
fn sharing() -> AppState {
    let mut s = server();
    s.register_sandbox_path_as("/box/a.txt", "a.txt", stat(600_000), arrival(ID)).unwrap();
    s
}

fn uuid_like(id: &str) -> bool {
    id.len() == 36
        && id.bytes().enumerate().all(|(i, b)| match i {
            8 | 13 | 18 | 23 => b == b'-',
            14 => b == b'4',
            _ => b.is_ascii_hexdigit() && !b.is_ascii_uppercase(),
        })
}

#[test]
fn a_new_server_shares_nothing() {
    let mut s = server();
    assert_eq!(s.get_sandbox_folder(), "/box");
    assert_eq!(s.upload_folder(), "/up");
    assert!(s.get_active_files().is_empty());
    assert!(s.indexed().is_empty());
    assert_eq!(s.peer_count(), 0);
    assert_eq!(s.traffic().up, 0);
    assert_eq!(s.traffic().down, 0);
    assert_eq!(s.meta_handler(ID).err(), Some(Refusal::NotFound));
    assert_eq!(s.chunk_handler(ID, 0).err(), Some(Refusal::FileNotFound));
    assert_eq!(s.fullfile_handler(ID).err(), Some(Refusal::NotFound));
    assert_eq!(s.signal_handler(ID, None, None).err(), Some(Refusal::NoSuchFile));
    assert_eq!(s.open_file_in_sandbox(ID), Err("not found".to_string()));
    assert_eq!(s.delete_file(ID), None);
    assert!(s.listen(ID).is_none());
}

#[test]
fn shared_files_are_announced() {
    let mut s = server();
    let event = s
        .register_sandbox_path_as("/box/a.PNG", "a.PNG", stat(600_000), arrival(ID))
        .unwrap();
    assert_eq!(event.file_id, ID);
    assert_eq!(event.name, "a.PNG");
    assert_eq!(event.total_size, 600_000);
    assert_eq!(event.chunk_count, 3);
    assert_eq!(event.mime_type, "image/png");
    assert_eq!(event.download_url, format!("http://localhost:3737/get/{}", ID));

    let record = s.file(ID).unwrap();
    assert_eq!(record.path, "/box/a.PNG");
    assert_eq!(record.created_at, at(100));
    assert_eq!(record.download_count.load(), 0);
    assert!(s.listen(ID).is_some());
    assert!(s.knows_path("/box/a.PNG"));
    assert_eq!(s.open_file_in_sandbox(ID), Ok("/box/a.PNG".to_string()));
}

#[test]
fn shared_files_are_seeded_by_their_sender() {
    let s = sharing();
    assert_eq!(s.swarm(ID), vec!["sender-0123abcd".to_string()]);
    let sender = s.peer("sender-0123abcd").unwrap();
    assert_eq!(sender.file_id, ID);
    assert_eq!(sender.has_chunks, vec![0, 1, 2]);
    assert_eq!(sender.lan_addr, Some("10.0.0.5:3738".to_string()));
    assert_eq!(sender.joined_at, at(101));

    let meta = s.meta_handler(ID).unwrap();
    assert_eq!(meta.id, ID);
    assert_eq!(meta.name, "a.txt");
    assert_eq!(meta.total_size, 600_000);
    assert_eq!(meta.chunk_count, 3);
    assert_eq!(meta.mime_type, "text/plain");
    assert_eq!(meta.lan_port, 3738);
    assert_eq!(meta.peers.len(), 1);
    assert_eq!(meta.peers[0].peer_id, "sender-0123abcd");
    assert_eq!(meta.peers[0].has_chunks, vec![0, 1, 2]);
}

#[test]
fn drawn_ids_are_uuids() {
    let mut s = server();
    let a = s.register_sandbox_path("/box/a", "a", stat(1)).unwrap();
    let b = s.register_sandbox_path("/box/b", "b", stat(1)).unwrap();
    assert!(uuid_like(&a.file_id));
    assert!(uuid_like(&b.file_id));
    assert_ne!(a.file_id, b.file_id);
    assert!(s.file(&a.file_id).unwrap().created_at.secs > 1_600_000_000);
}

#[test]
fn only_new_ordinary_files_are_taken() {
    let mut s = sharing();
    assert!(s.register_sandbox_path("/box/a.txt", "a.txt", stat(1)).is_none());
    assert!(s.register_sandbox_path("/box/b", "b", None).is_none());
    let folder = Some(FileStat { is_file: false, size: 0 });
    assert!(s.register_sandbox_path("/box/b", "b", folder).is_none());
    assert_eq!(s.get_active_files().len(), 1);
    assert!(s.register_sandbox_path("/box/b", "b", stat(1)).is_some());
    assert_eq!(s.get_active_files().len(), 2);
}

#[test]
fn existing_files_are_imported() {
    let entry = |name: &str, is_file: bool, size: Option<u64>| SandboxEntry {
        name: name.to_string(),
        path: format!("/box/{}", name),
        is_file,
        size,
    };
    let entries = vec![
        entry("a.zip", true, Some(300_000)),
        entry(".hidden", true, Some(1)),
        entry("dir", false, Some(1)),
        entry("unreadable", true, None),
        entry("b", true, Some(0)),
    ];
    let mut s = server();
    s.import_existing_sandbox_files_sync(&entries, &None);
    let mut files = s.get_active_files();
    files.sort_by(|x, y| x.name.cmp(&y.name));
    assert_eq!(files.len(), 2);
    assert_eq!(files[0].name, "a.zip");
    assert_eq!(files[0].mime_type, "application/zip");
    assert_eq!(files[0].chunk_count, 2);
    assert_eq!(files[0].peers, 1);
    assert_eq!(files[0].downloads, 0);
    assert_eq!(files[1].name, "b");
    assert_eq!(files[1].chunk_count, 1);
    assert!(uuid_like(&files[0].id));
    let sender = s.peer(&format!("sender-{}", &files[0].id[..8])).unwrap();
    assert_eq!(sender.lan_addr, None);

    s.import_existing_sandbox_files_sync(&entries, &None);
    assert_eq!(s.get_active_files().len(), 2);
    assert_eq!(s.peer_count(), 2);
}

#[test]
fn one_entry_is_imported() {
    let mut s = server();
    let entry = SandboxEntry {
        name: "m.mp3".to_string(),
        path: "/box/m.mp3".to_string(),
        is_file: true,
        size: Some(5),
    };
    s.import_entry(&entry, &Some("10.0.0.9".to_string()), arrival(ID));
    assert_eq!(s.file(ID).unwrap().mime_type, "audio/mpeg");
    let sender = s.peer("sender-0123abcd").unwrap();
    assert_eq!(sender.lan_addr, Some("10.0.0.9:3738".to_string()));
    s.import_entry(&entry, &None, arrival(ID2));
    assert!(s.file(ID2).is_none());
}

#[test]
fn uploads_are_shared_and_counted() {
    let mut s = server();
    let mime = Some("image/x-test".to_string());
    let out = s.register_upload_as("p.png", &mime, "/up/p (1).png", 2048, arrival(ID));
    let link = format!("http://localhost:3737/get/{}", ID);
    assert_eq!(out.reply.id, ID);
    assert_eq!(out.reply.name, "p.png");
    assert_eq!(out.reply.size_human, "2 KiB");
    assert_eq!(out.reply.chunk_count, 1);
    assert_eq!(out.reply.download_url, link);
    assert_eq!(out.event.file_id, ID);
    assert_eq!(out.event.download_url, link);
    assert_eq!(out.event.lan_url, Some(format!("http://10.0.0.5:3737/get/{}", ID)));
    assert!(out.event.qr_svg.contains("<svg"));
    match out.ready.msg {
        SignalMsg::FileReady { file_id, name, total_size, chunk_count, lan_addr } => {
            assert_eq!(file_id, ID);
            assert_eq!(name, "p.png");
            assert_eq!(total_size, 2048);
            assert_eq!(chunk_count, 1);
            assert_eq!(lan_addr, Some("10.0.0.5:3737".to_string()));
        }
        _ => unreachable!(),
    }
    assert_eq!(s.file(ID).unwrap().mime_type, "image/x-test");
    assert_eq!(s.traffic().up, 2048);
    assert!(s.knows_path("/up/p (1).png"));

    s.register_upload_as("q", &None, "/up/q", 1, arrival(ID2));
    assert_eq!(s.file(ID2).unwrap().mime_type, "application/octet-stream");
    assert_eq!(s.traffic().up, 2049);

    let drawn = s.register_upload("r", &None, "/up/r", 0);
    assert!(uuid_like(&drawn.reply.id));
    assert_eq!(drawn.reply.size_human, "0 B");
}

#[test]
fn listed_files() {
    let mut s = sharing();
    s.register_upload_as("b", &None, "/up/b", 1_048_576, arrival(ID2));
    s.set_tunnel_url("https://t.example/");
    let list = s.describe_files(&vec![ID2.to_string(), ID.to_string()]);
    assert_eq!(list.len(), 2);
    assert_eq!(list[0].id, ID2);
    assert_eq!(list[0].size_human, "1 MiB");
    assert_eq!(list[0].chunk_count, 4);
    assert_eq!(list[1].id, ID);
    assert_eq!(list[1].name, "a.txt");
    assert_eq!(list[1].total_size, 600_000);
    assert_eq!(list[1].size_human, "585.94 KiB");
    assert_eq!(list[1].download_url, format!("https://t.example/get/{}", ID));
    assert_eq!(list[1].lan_url, Some(format!("http://10.0.0.5:3737/get/{}", ID)));
    assert_eq!(list[1].peers, 1);

    let mut ids: Vec<String> = s.get_active_files().into_iter().map(|f| f.id).collect();
    ids.sort();
    assert_eq!(ids, vec![ID.to_string(), ID2.to_string()]);
}

#[test]
fn tunnel_addresses_are_used_for_links() {
    let mut s = server();
    assert_eq!(s.set_tunnel_url("  https://t.example//  "), "https://t.example");
    let event = s.register_sandbox_path_as("/box/a", "a", stat(1), arrival(ID)).unwrap();
    assert_eq!(event.download_url, format!("https://t.example/get/{}", ID));
    assert_eq!(s.set_tunnel_url(" / "), "");
    let event = s.register_sandbox_path_as("/box/b", "b", stat(1), arrival(ID2)).unwrap();
    assert_eq!(event.download_url, format!("http://localhost:3737/get/{}", ID2));
}

#[test]
fn chunks_are_planned_and_counted() {
    let mut s = sharing();
    let plan = s.chunk_handler(ID, 2).unwrap();
    match &plan {
        ChunkPlan::Read { path, offset, size } => {
            assert_eq!(path, "/box/a.txt");
            assert_eq!(*offset, 524_288);
            assert_eq!(*size, 75_712);
        }
        ChunkPlan::Empty => unreachable!(),
    }
    assert_eq!(s.chunk_handler(ID, 3).err(), Some(Refusal::ChunkNotFound));

    assert_eq!(s.chunk_reply(&plan, 2, ChunkRead::OpenFailed).err(), Some(Refusal::DiskError));
    assert_eq!(s.chunk_reply(&plan, 2, ChunkRead::ReadFailed).err(), Some(Refusal::ReadError));
    assert_eq!(s.traffic().down, 0);
    let headers = s.chunk_reply(&plan, 2, ChunkRead::Done).unwrap();
    assert_eq!(headers[1].value, "75712");
    assert_eq!(headers[2].value, "2");
    assert_eq!(s.traffic().down, 75_712);
}

#[test]
fn empty_files_have_one_chunk() {
    let mut s = server();
    s.register_sandbox_path_as("/box/e", "e", stat(0), arrival(ID)).unwrap();
    let plan = s.chunk_handler(ID, 0).unwrap();
    assert!(matches!(plan, ChunkPlan::Empty));
    assert_eq!(s.chunk_handler(ID, 1).err(), Some(Refusal::ChunkNotFound));
    let headers = s.chunk_reply(&plan, 0, ChunkRead::OpenFailed).unwrap();
    assert_eq!(headers[1].value, "0");
    assert_eq!(headers[2].value, "0");
    assert_eq!(s.traffic().down, 0);
}

#[test]
fn serving_all_chunks_counts_the_file() {
    let mut s = sharing();
    let data: Vec<u8> = (0..600_000u32).map(|i| (i % 253) as u8).collect();
    let mut got: Vec<u8> = Vec::new();
    for i in 0..s.meta_handler(ID).unwrap().chunk_count {
        let plan = s.chunk_handler(ID, i).unwrap();
        if let ChunkPlan::Read { offset, size, .. } = &plan {
            got.extend_from_slice(&data[*offset as usize..(*offset + *size) as usize]);
        }
        s.chunk_reply(&plan, i, ChunkRead::Done).unwrap();
    }
    assert_eq!(s.traffic().down, 600_000);
    assert_eq!(got, data);
}

#[test]
fn full_downloads_are_counted() {
    let mut s = sharing();
    for n in 1..4u64 {
        let full = s.fullfile_handler(ID).unwrap();
        assert_eq!(full.path, "/box/a.txt");
        assert_eq!(full.original_name, "a.txt");
        assert_eq!(full.mime_type, "text/plain");
        assert_eq!(s.file(ID).unwrap().download_count.load(), n);
        assert_eq!(s.traffic().down, n * 600_000);
    }
    assert_eq!(s.get_active_files()[0].downloads, 3);
}

#[test]
fn counters_wrap_around() {
    let mut counter = AtomicWrap::new(u64::MAX);
    assert_eq!(counter.fetch_add(2), u64::MAX);
    assert_eq!(counter.load(), 1);
    let mut copy = counter.clone();
    copy.fetch_add(1);
    assert_eq!(copy.load(), 2);
    assert_eq!(counter.load(), 1);
}

#[test]
fn deleted_files_leave_nothing() {
    let mut s = sharing();
    s.register_upload_as("b", &None, "/up/b", 1, arrival(ID2));
    s.signal_handler_as(ID, "bob".to_string(), None, at(200)).unwrap();
    assert_eq!(s.peer_count(), 3);

    assert_eq!(s.delete_file(ID), Some("/box/a.txt".to_string()));
    assert!(s.file(ID).is_none());
    assert!(!s.knows_path("/box/a.txt"));
    assert!(s.swarm(ID).is_empty());
    assert!(s.peer("bob").is_none());
    assert!(s.peer("sender-0123abcd").is_none());
    assert!(s.listen(ID).is_none());
    assert_eq!(s.chunk_handler(ID, 0).err(), Some(Refusal::FileNotFound));
    assert_eq!(s.signal_handler(ID, None, None).err(), Some(Refusal::NoSuchFile));

    assert!(s.file(ID2).is_some());
    assert_eq!(s.swarm(ID2), vec!["sender-fedc9876".to_string()]);
    assert_eq!(s.peer_count(), 1);
    assert_eq!(s.delete_file(ID), None);
}

#[test]
fn deleting_undoes_sharing() {
    let mut s = server();
    s.register_upload_as("b", &None, "/up/b", 1, arrival(ID2));
    s.register_sandbox_path_as("/box/a.txt", "a.txt", stat(5), arrival(ID)).unwrap();
    s.delete_file(ID);
    assert_eq!(s.get_active_files().len(), 1);
    assert_eq!(s.indexed().len(), 1);
    assert_eq!(s.peer_count(), 1);
    let again = s.register_sandbox_path_as("/box/a.txt", "a.txt", stat(5), arrival(ID));
    assert!(again.is_some());
}

#[test]
fn vanished_files_are_forgotten() {
    let mut s = sharing();
    let index = s.indexed();
    assert_eq!(index.len(), 1);
    assert_eq!(index[0].path, "/box/a.txt");
    assert_eq!(index[0].file_id, ID);
    assert!(s.forget_path("/box/a.txt", ID, true).is_none());
    assert!(s.file(ID).is_some());
    let event = s.forget_path("/box/a.txt", ID, false).unwrap();
    assert_eq!(event.file_id, ID);
    assert!(s.file(ID).is_none());
    assert!(s.indexed().is_empty());
    assert_eq!(s.peer_count(), 0);
}

#[test]
fn files_to_show_must_be_on_disk() {
    assert_eq!(shown_path("/box/a".to_string(), true), Ok("/box/a".to_string()));
    assert_eq!(
        shown_path("/box/a".to_string(), false),
        Err("file missing on disk".to_string())
    );
}

#[test]
fn peers_join_swarms() {
    let mut s = sharing();
    let joined = s
        .signal_handler_as(ID, "bob".to_string(), Some("10.0.0.6:1".to_string()), at(200))
        .unwrap();
    assert_eq!(joined.peer_id, "bob");
    assert_eq!(joined.swarm.file_id, ID);
    assert_eq!(joined.swarm.peer_count, 2);
    assert_eq!(joined.swarm.chunks_available, 3);
    match joined.announcement.msg {
        SignalMsg::PeerJoined { peer_id, lan_addr, has_chunks } => {
            assert_eq!(peer_id, "bob");
            assert_eq!(lan_addr, Some("10.0.0.6:1".to_string()));
            assert!(has_chunks.is_empty());
        }
        _ => unreachable!(),
    }
    assert_eq!(s.swarm(ID), vec!["sender-0123abcd".to_string(), "bob".to_string()]);
    assert_eq!(s.meta_handler(ID).unwrap().peers.len(), 2);

    let again = s.signal_handler_as(ID, "bob".to_string(), None, at(300)).unwrap();
    assert_eq!(again.swarm.peer_count, 2);
    assert_eq!(s.swarm(ID).len(), 2);
    assert_eq!(s.peer("bob").unwrap().lan_addr, None);
    assert_eq!(s.peer("bob").unwrap().joined_at, at(300));
}

#[test]
fn nameless_peers_get_an_id() {
    let mut s = sharing();
    let joined = s.signal_handler(ID, None, None).unwrap();
    assert!(uuid_like(&joined.peer_id));
    assert!(s.swarm(ID).contains(&joined.peer_id));
    let named = s.signal_handler(ID, Some("ann".to_string()), None).unwrap();
    assert_eq!(named.peer_id, "ann");
    assert_eq!(named.swarm.peer_count, 3);
}

#[test]
fn chunk_updates_are_noted() {
    let mut s = sharing();
    s.signal_handler_as(ID, "bob".to_string(), None, at(200)).unwrap();
    let update = |chunks: Vec<u32>| SignalMsg::ChunkUpdate {
        peer_id: "bob".to_string(),
        new_chunks: chunks,
    };
    assert!(s.signal_post_handler(ID, update(vec![2, 0])).is_some());
    assert_eq!(s.peer("bob").unwrap().has_chunks, vec![2, 0]);
    s.signal_post_handler(ID, update(vec![0, 1, 2]));
    assert_eq!(s.peer("bob").unwrap().has_chunks, vec![2, 0, 1]);
    s.signal_post_handler(ID, update(vec![0, 1, 2]));
    assert_eq!(s.peer("bob").unwrap().has_chunks, vec![2, 0, 1]);
    s.signal_post_handler(ID, update(vec![7, 7]));
    assert_eq!(s.peer("bob").unwrap().has_chunks, vec![2, 0, 1, 7, 7]);
    assert_eq!(s.peer("sender-0123abcd").unwrap().has_chunks, vec![0, 1, 2]);
}

#[test]
fn updates_for_unknown_files_are_noted_and_not_relayed() {
    let mut s = sharing();
    s.signal_handler_as(ID, "bob".to_string(), None, at(200)).unwrap();
    let msg = SignalMsg::ChunkUpdate { peer_id: "bob".to_string(), new_chunks: vec![1] };
    assert!(s.signal_post_handler(ID2, msg).is_none());
    assert_eq!(s.peer("bob").unwrap().has_chunks, vec![1]);
    let msg = SignalMsg::ChunkUpdate { peer_id: "nobody".to_string(), new_chunks: vec![1] };
    assert!(s.signal_post_handler(ID, msg).is_some());
    assert!(s.peer("nobody").is_none());
}

#[test]
fn messages_are_relayed_unchanged() {
    let mut s = sharing();
    let text = |t: &str| t.to_string();
    let messages = vec![
        SignalMsg::Offer { from: text("a"), to: text("b"), sdp: text("s") },
        SignalMsg::Answer { from: text("b"), to: text("a"), sdp: text("t") },
        SignalMsg::Ice { from: text("a"), to: text("b"), candidate: text("c") },
        SignalMsg::PeerLeft { peer_id: text("a") },
        SignalMsg::PeerJoined { peer_id: text("a"), lan_addr: None, has_chunks: vec![1] },
    ];
    for msg in messages {
        let sent = format!("{:?}", msg.clone());
        let relayed = s.signal_post_handler(ID, msg).unwrap();
        assert_eq!(format!("{:?}", relayed.msg), sent);
    }
    assert_eq!(s.peer_count(), 1);
}

#[test]
fn peers_are_listed_with_their_age() {
    let mut s = sharing();
    s.signal_handler(ID, Some("bob".to_string()), None).unwrap();
    let list = s.peers_handler(ID);
    assert_eq!(list.file_id, ID);
    assert_eq!(list.peers.len(), 2);
    assert_eq!(list.peers[0].peer.peer_id, "sender-0123abcd");
    assert_eq!(list.peers[0].peer.has_chunks, vec![0, 1, 2]);
    assert!(list.peers[0].age_secs > 1_600_000_000);
    assert_eq!(list.peers[1].peer.peer_id, "bob");
    assert!(list.peers[1].age_secs >= 0 && list.peers[1].age_secs < 60);
    assert!(s.peers_handler(ID2).peers.is_empty());
}

#[test]
fn ages_are_whole_seconds() {
    let s = sharing();
    let sender = s.peer("sender-0123abcd").unwrap();
    let age = |secs: i64, nanos: u32| peer_status(&sender, Timestamp { secs, nanos }).age_secs;
    assert_eq!(age(101, 0), 0);
    assert_eq!(age(101, 999_999_999), 0);
    assert_eq!(age(102, 0), 1);
    assert_eq!(age(161, 5), 60);
    assert_eq!(age(100, 1), 0);
    assert_eq!(age(99, 0), -2);
    assert_eq!(peer_status(&sender, at(101)).peer.peer_id, "sender-0123abcd");
}

#[test]
fn stale_peers_are_dropped() {
    let mut s = sharing();
    s.signal_handler_as(ID, "old".to_string(), None, at(1000)).unwrap();
    s.signal_handler_as(ID, "new".to_string(), None, at(1001)).unwrap();
    // Five minutes are not enough, a nanosecond more is.
    s.cleanup_at(at(1000 + 300));
    assert!(s.peer("old").is_some());
    s.cleanup_at(Timestamp { secs: 1000 + 300, nanos: 1 });
    assert!(s.peer("old").is_none());
    assert!(s.peer("new").is_some());
    s.cleanup_at(Timestamp { secs: 1000 + 300, nanos: 1 });
    assert_eq!(s.peer_count(), 2);
    assert!(s.peer("sender-0123abcd").is_some());
    // The swarm still lists the peer, but nobody is told of it.
    assert_eq!(s.swarm(ID).len(), 3);
    assert_eq!(s.meta_handler(ID).unwrap().peers.len(), 2);
    assert_eq!(s.peers_handler(ID).peers.len(), 2);
}

#[test]
fn idle_peers_are_dropped() {
    let mut s = sharing();
    s.signal_handler_as(ID, "p1".to_string(), None, at(1000)).unwrap();
    s.cleanup_at(at(1330));
    assert!(s.peer("p1").is_none());
}

#[test]
fn active_peers_stay() {
    let mut s = sharing();
    s.signal_handler_as(ID, "bob".to_string(), None, at(1000)).unwrap();
    let update = SignalMsg::ChunkUpdate { peer_id: "bob".to_string(), new_chunks: vec![1] };
    s.signal_post_handler_as(ID, update, at(1540));
    s.cleanup_at(at(1600));
    let bob = s.peer("bob").unwrap();
    assert_eq!(bob.joined_at, at(1000));
    assert_eq!(bob.last_active, at(1540));
    assert_eq!(peer_status(&bob, at(1600)).age_secs, 600);
    s.cleanup_at(at(1841));
    assert!(s.peer("bob").is_none());
}

#[test]
fn moments_are_compared_to_the_nanosecond() {
    let m = |secs: i64, nanos: u32| Timestamp { secs, nanos };
    assert!(!longer_ago(m(300, 5), m(0, 5), 300));
    assert!(longer_ago(m(300, 6), m(0, 5), 300));
    assert!(!longer_ago(m(300, 4), m(0, 5), 300));
    assert!(longer_ago(m(301, 4), m(0, 5), 300));
    assert!(!longer_ago(m(0, 0), m(900, 0), 300));
    assert!(!longer_ago(m(0, 1), m(300, 0), 300));
}

#[test]
fn senders_are_never_dropped() {
    let mut s = sharing();
    s.signal_handler_as(ID, "old".to_string(), None, at(1000)).unwrap();
    s.signal_handler_as(ID, "sender-like".to_string(), None, at(1000)).unwrap();
    s.cleanup();
    assert!(s.peer("sender-0123abcd").is_some());
    assert!(s.peer("sender-like").is_some());
    assert!(s.peer("old").is_none());
}

#[test]
fn peers_of_two_swarms_leave_with_either() {
    let mut s = sharing();
    s.register_upload_as("b", &None, "/up/b", 1, arrival(ID2));
    s.signal_handler_as(ID, "bob".to_string(), None, at(200)).unwrap();
    s.signal_handler_as(ID2, "bob".to_string(), None, at(201)).unwrap();
    assert_eq!(s.peer("bob").unwrap().file_id, ID2);
    s.delete_file(ID);
    assert!(s.peer("bob").is_none());
    assert_eq!(s.swarm(ID2).len(), 2);
}

#[test]
fn messages_can_be_copied() {
    let msg = SignalMsg::FileReady {
        file_id: "f".to_string(),
        name: "n".to_string(),
        total_size: 1,
        chunk_count: 1,
        lan_addr: Some("h:1".to_string()),
    };
    assert_eq!(format!("{:?}", msg.clone()), format!("{:?}", msg));
    let msg = SignalMsg::ChunkUpdate { peer_id: "p".to_string(), new_chunks: vec![3, 1] };
    assert_eq!(format!("{:?}", msg.clone()), format!("{:?}", msg));
    let sharing = sharing();
    let peer = sharing.peer("sender-0123abcd").unwrap();
    assert_eq!(format!("{:?}", peer.clone()), format!("{:?}", peer));
    let record = sharing.file(ID).unwrap();
    assert_eq!(format!("{:?}", record.clone()), format!("{:?}", record));
}

/// Runs one scan over `files`, and does what the watcher says.
fn scan(s: &mut AppState, watcher: &mut Watcher, files: &[(&str, u64)]) {
    for (name, size) in files {
        let path = format!("/box/{}", name);
        let expected = watcher.expects(name, &path, stat(*size));
        let due = expected && !s.knows_path(&path);
        let event = s.meet(watcher, name, &path, stat(*size), stat(*size));
        assert_eq!(event.is_some(), due);
    }
    for gone in watcher.finish_scan(s.indexed()) {
        s.forget_path(&gone.path, &gone.file_id, false);
    }
}

fn names(s: &AppState) -> Vec<String> {
    let mut names: Vec<String> = s.get_active_files().into_iter().map(|f| f.name).collect();
    names.sort();
    names
}

#[test]
fn the_folder_is_mirrored() {
    let mut s = server();
    let mut watcher = Watcher::new();
    scan(&mut s, &mut watcher, &[("a", 1), ("b", 1)]);
    assert!(names(&s).is_empty());
    scan(&mut s, &mut watcher, &[("a", 1), ("b", 2)]);
    assert_eq!(names(&s), vec!["a"]);
    scan(&mut s, &mut watcher, &[("a", 1), ("b", 2)]);
    assert_eq!(names(&s), vec!["a"]);
    scan(&mut s, &mut watcher, &[("a", 1), ("b", 2)]);
    assert_eq!(names(&s), vec!["a", "b"]);
    scan(&mut s, &mut watcher, &[("b", 2)]);
    assert_eq!(names(&s), vec!["b"]);
    assert_eq!(s.peer_count(), 1);
    scan(&mut s, &mut watcher, &[]);
    assert!(names(&s).is_empty());
    assert_eq!(s.peer_count(), 0);
}

/// Sends a message.
fn send(out: Outgoing) {
    let _ = out.channel.send(out.msg);
}

fn left(peer_id: &str) -> SignalMsg {
    SignalMsg::PeerLeft { peer_id: peer_id.to_string() }
}

#[test]
fn messages_are_heard_by_all_who_listen() {
    let mut s = sharing();
    let mut first = s.listen(ID).unwrap();
    let joined = s.signal_handler_as(ID, "bob".to_string(), None, at(200)).unwrap();
    send(joined.announcement);
    let mut bob = joined.heard;
    s.register_upload("b", &None, "/up/b", 1);
    s.set_tunnel_url("https://t.example");
    send(s.signal_post_handler(ID, left("ann")).unwrap());
    send(s.relay(ID, left("eve")).unwrap());
    for heard in [&mut first, &mut bob] {
        match heard.try_recv().unwrap() {
            SignalMsg::PeerJoined { peer_id, .. } => assert_eq!(peer_id, "bob"),
            _ => unreachable!(),
        }
        for name in ["ann", "eve"] {
            match heard.try_recv().unwrap() {
                SignalMsg::PeerLeft { peer_id } => assert_eq!(peer_id, name),
                _ => unreachable!(),
            }
        }
        assert!(heard.try_recv().is_err());
    }
    assert!(s.relay(ID2, left("ann")).is_none());
}

#[test]
fn ready_messages_go_to_the_channel_of_the_upload() {
    let mut s = sharing();
    let mut other = s.listen(ID).unwrap();
    let out = s.register_upload("b", &None, "/up/b", 1);
    let mut heard = s.listen(&out.reply.id).unwrap();
    send(out.ready);
    assert!(matches!(heard.try_recv(), Ok(SignalMsg::FileReady { .. })));
    assert!(other.try_recv().is_err());
}

#[test]
fn channels_are_kept_apart() {
    let mut s = sharing();
    let a = s.register_sandbox_path("/box/a", "a", stat(1)).unwrap();
    let b = s.register_sandbox_path("/box/b", "b", stat(1)).unwrap();
    let mut heard = s.listen(&a.file_id).unwrap();
    let mut other = s.listen(&b.file_id).unwrap();
    send(s.signal_post_handler(&a.file_id, left("ann")).unwrap());
    assert!(heard.try_recv().is_ok());
    assert!(other.try_recv().is_err());
}

#[test]
fn channels_hold_the_last_messages() {
    let mut s = sharing();
    let a = s.register_sandbox_path("/box/a", "a", stat(1)).unwrap();
    let mut heard = s.listen(&a.file_id).unwrap();
    for n in 0..BUS_CAPACITY + 1 {
        send(s.signal_post_handler(&a.file_id, left(&format!("{}", n))).unwrap());
    }
    // The oldest message is lost, the others are there.
    assert!(heard.try_recv().is_err());
    for n in 1..BUS_CAPACITY + 1 {
        match heard.try_recv().unwrap() {
            SignalMsg::PeerLeft { peer_id } => assert_eq!(peer_id, format!("{}", n)),
            _ => unreachable!(),
        }
    }
    assert!(heard.try_recv().is_err());
}

#[test]
fn drawn_channels_are_new() {
    let s = sharing();
    let drawn = Arrival::draw(&s);
    assert!(uuid_like(&drawn.id));
    let mut heard = s.listen(ID).unwrap();
    assert!(drawn.channel.send(left("ann")).is_err());
    assert!(heard.try_recv().is_err());
}

#[test]
fn senders_can_be_copied() {
    let (channel, mut heard) = tokio::sync::broadcast::channel(4);
    let copy = another_sender(&channel);
    assert!(copy.same_channel(&channel));
    assert!(copy.send(left("ann")).is_ok());
    assert!(heard.try_recv().is_ok());
}

#[test]
fn channels_close_with_their_files() {
    let mut s = sharing();
    let heard = s.listen(ID).unwrap();
    assert!(!heard.is_closed());
    s.delete_file(ID);
    assert!(heard.is_closed());
}

#[test]
fn scans_leave_hidden_and_known_files() {
    let mut s = server();
    let mut watcher = Watcher::new();
    s.register_upload_as(".env", &None, "/box/.env", 3, arrival(ID));
    let known = s.register_sandbox_path("/box/k", "k", stat(7)).unwrap();
    for round in 0..4u64 {
        assert!(!watcher.observe(".env", "/box/.env", stat(3)));
        assert!(!watcher.observe(".new", "/box/.new", stat(3)));
        if watcher.observe("k", "/box/k", stat(100 + round / 3)) {
            assert!(s.register_sandbox_path("/box/k", "k", stat(100)).is_none());
        }
        for gone in watcher.finish_scan(s.indexed()) {
            assert_eq!(gone.path, "/box/.env");
            assert!(s.forget_path(&gone.path, &gone.file_id, true).is_none());
        }
    }
    assert!(s.knows_path("/box/.env"));
    assert!(!s.knows_path("/box/.new"));
    assert_eq!(s.file(&known.file_id).unwrap().total_size, 7);
    assert_eq!(s.get_active_files().len(), 2);
}

#[test]
fn settled_files_are_shared_as_they_are_now() {
    let mut s = server();
    let mut watcher = Watcher::new();
    let gone = s.meet_as(&mut watcher, "a.txt", "/box/a.txt", stat(5), stat(5), arrival(ID));
    assert!(gone.is_none());
    watcher.finish_scan(vec![]);
    // Gone by the time it is looked at again.
    let gone = s.meet_as(&mut watcher, "a.txt", "/box/a.txt", stat(5), None, arrival(ID));
    assert!(gone.is_none());
    watcher.finish_scan(vec![]);
    let event = s
        .meet_as(&mut watcher, "a.txt", "/box/a.txt", stat(5), stat(6), arrival(ID))
        .unwrap();
    assert_eq!(event.file_id, ID);
    assert_eq!(event.total_size, 6);
    assert_eq!(event.mime_type, "text/plain");
    assert!(s.listen(ID).is_some());
}
