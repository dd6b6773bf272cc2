//! The tables of the server: concurrent maps of the `dashmap` crate, keyed by
//! text and changed through exclusive access only.

use crate::channel::{another_sender, channel_capacity, channel_of, sender_channel, ChannelView};
use crate::model::{FileRecord, FileView, PeerInfo, PeerView, SignalMsg};
use crate::text::{copy_texts, texts};
use dashmap::DashMap;
use tokio::sync::broadcast::Sender;
use vstd::prelude::*;

verus! {

/// `dashmap::DashMap`.
#[verifier::external_type_specification]
#[verifier::external_body]
#[verifier::reject_recursive_types(K)]
#[verifier::reject_recursive_types(V)]
#[verifier::reject_recursive_types(S)]
pub struct ExDashMap<K, V, S>(DashMap<K, V, S>);

/// The files that a table holds, by id.
pub uninterp spec fn file_rows(table: DashMap<String, FileRecord>) -> Map<Seq<char>, FileView>;

/// The peers that a table holds, by id.
pub uninterp spec fn peer_rows(table: DashMap<String, PeerInfo>) -> Map<Seq<char>, PeerView>;

/// The lists of names that a table holds.
pub uninterp spec fn list_rows(table: DashMap<String, Vec<String>>) -> Map<
    Seq<char>,
    Seq<Seq<char>>,
>;

/// The channels that the senders in a table send on.
pub uninterp spec fn channel_rows(table: DashMap<String, Sender<SignalMsg>>) -> Map<
    Seq<char>,
    ChannelView,
>;

/// The texts that a table holds.
pub uninterp spec fn text_rows(table: DashMap<String, String>) -> Map<Seq<char>, Seq<char>>;

/// `tokio::sync::broadcast::channel`, without its first receiver. The channel is
/// claimed to be made for `capacity` messages, and to be none of those that a
/// table in use holds senders of: every call makes a channel of its own.
#[verifier::external_body]
pub(crate) fn open_channel(
    in_use: &DashMap<String, Sender<SignalMsg>>,
    capacity: usize,
) -> (channel: Sender<SignalMsg>)
    requires
        0 < capacity <= 0x7fff_ffff,
    ensures
        channel_capacity(channel) == capacity,
        forall|k: Seq<char>| #[trigger]
            channel_rows(*in_use).contains_key(k) ==> channel_rows(*in_use)[k].identity
                != sender_channel(channel),
{
    let _ = in_use;
    tokio::sync::broadcast::channel::<SignalMsg>(capacity).0
}

/// `DashMap::new`, for files. The new table is claimed to be empty.
#[verifier::external_body]
pub(crate) fn new_file_table() -> (table: DashMap<String, FileRecord>)
    ensures
        (file_rows(table) == Map::<Seq<char>, FileView>::empty()),
{
    DashMap::new()
}

/// `DashMap::insert`, for files. The table is claimed to hold `value` under
/// `key` afterwards, in place of what it held there, and all else as before.
#[verifier::external_body]
pub(crate) fn put_file(table: &mut DashMap<String, FileRecord>, key: String, value: FileRecord)
    ensures
        file_rows(*final(table)) == file_rows(*old(table)).insert(key@, value@),
{
    table.insert(key, value);
}

/// `DashMap::remove`, for files. The table is claimed to hold nothing under
/// `key` afterwards, and all else as before; what it held there is handed out.
#[verifier::external_body]
pub(crate) fn take_file(
    table: &mut DashMap<String, FileRecord>,
    key: &str,
) -> (value: Option<FileRecord>)
    ensures
        file_rows(*final(table)) == file_rows(*old(table)).remove(key@),
        match value {
            Some(v) => {
                &&& file_rows(*old(table)).contains_key(key@)
                &&& v@ == file_rows(*old(table))[key@]
            },
            None => !file_rows(*old(table)).contains_key(key@),
        },
{
    table.remove(key).map(|entry| entry.1)
}

/// `DashMap::view`, for files, with a closure that copies the row. It is claimed
/// to give the row that the table holds under `key`, where it holds one.
#[verifier::external_body]
pub(crate) fn look_file(
    table: &DashMap<String, FileRecord>,
    key: &str,
) -> (value: Option<FileRecord>)
    ensures
        match value {
            Some(v) => {
                &&& file_rows(*table).contains_key(key@)
                &&& v@ == file_rows(*table)[key@]
            },
            None => !file_rows(*table).contains_key(key@),
        },
{
    table.view(key, |_, row| row.clone())
}

/// The keys that `DashMap::iter` goes over, for files. They are claimed to be
/// those that the table holds something under, each once; in which order is left
/// open.
#[verifier::external_body]
pub(crate) fn file_keys(table: &DashMap<String, FileRecord>) -> (list: Vec<String>)
    ensures
        texts(list@).no_duplicates(),
        texts(list@).to_set() == file_rows(*table).dom(),
{
    table.iter().map(|entry| entry.key().clone()).collect()
}

/// `DashMap::new`, for peers. The new table is claimed to be empty.
#[verifier::external_body]
pub(crate) fn new_peer_table() -> (table: DashMap<String, PeerInfo>)
    ensures
        (peer_rows(table) == Map::<Seq<char>, PeerView>::empty()),
{
    DashMap::new()
}

/// `DashMap::insert`, for peers. The table is claimed to hold `value` under
/// `key` afterwards, in place of what it held there, and all else as before.
#[verifier::external_body]
pub(crate) fn put_peer(table: &mut DashMap<String, PeerInfo>, key: String, value: PeerInfo)
    ensures
        peer_rows(*final(table)) == peer_rows(*old(table)).insert(key@, value@),
{
    table.insert(key, value);
}

/// `DashMap::remove`, for peers. The table is claimed to hold nothing under
/// `key` afterwards, and all else as before; what it held there is handed out.
#[verifier::external_body]
pub(crate) fn take_peer(
    table: &mut DashMap<String, PeerInfo>,
    key: &str,
) -> (value: Option<PeerInfo>)
    ensures
        peer_rows(*final(table)) == peer_rows(*old(table)).remove(key@),
        match value {
            Some(v) => {
                &&& peer_rows(*old(table)).contains_key(key@)
                &&& v@ == peer_rows(*old(table))[key@]
            },
            None => !peer_rows(*old(table)).contains_key(key@),
        },
{
    table.remove(key).map(|entry| entry.1)
}

/// `DashMap::view`, for peers, with a closure that copies the row. It is claimed
/// to give the row that the table holds under `key`, where it holds one.
#[verifier::external_body]
pub(crate) fn look_peer(table: &DashMap<String, PeerInfo>, key: &str) -> (value: Option<PeerInfo>)
    ensures
        match value {
            Some(v) => {
                &&& peer_rows(*table).contains_key(key@)
                &&& v@ == peer_rows(*table)[key@]
            },
            None => !peer_rows(*table).contains_key(key@),
        },
{
    table.view(key, |_, row| row.clone())
}

/// The keys that `DashMap::iter` goes over, for peers. They are claimed to be
/// those that the table holds something under, each once; in which order is left
/// open.
#[verifier::external_body]
pub(crate) fn peer_keys(table: &DashMap<String, PeerInfo>) -> (list: Vec<String>)
    ensures
        texts(list@).no_duplicates(),
        texts(list@).to_set() == peer_rows(*table).dom(),
{
    table.iter().map(|entry| entry.key().clone()).collect()
}

/// `DashMap::len`, for peers. It is claimed to be the number of keys that the
/// table holds something under.
#[verifier::external_body]
pub(crate) fn peer_count(table: &DashMap<String, PeerInfo>) -> (n: usize)
    ensures
        n == peer_rows(*table).dom().len(),
{
    table.len()
}

/// `DashMap::new`, for lists of names. The new table is claimed to be empty.
#[verifier::external_body]
pub(crate) fn new_list_table() -> (table: DashMap<String, Vec<String>>)
    ensures
        (list_rows(table) == Map::<Seq<char>, Seq<Seq<char>>>::empty()),
{
    DashMap::new()
}

/// `DashMap::insert`, for lists of names. The table is claimed to hold `value` under
/// `key` afterwards, in place of what it held there, and all else as before.
#[verifier::external_body]
pub(crate) fn put_list(table: &mut DashMap<String, Vec<String>>, key: String, value: Vec<String>)
    ensures
        list_rows(*final(table)) == list_rows(*old(table)).insert(key@, texts(value@)),
{
    table.insert(key, value);
}

/// `DashMap::remove`, for lists of names. The table is claimed to hold nothing under
/// `key` afterwards, and all else as before; what it held there is handed out.
#[verifier::external_body]
pub(crate) fn take_list(
    table: &mut DashMap<String, Vec<String>>,
    key: &str,
) -> (value: Option<Vec<String>>)
    ensures
        list_rows(*final(table)) == list_rows(*old(table)).remove(key@),
        match value {
            Some(v) => {
                &&& list_rows(*old(table)).contains_key(key@)
                &&& texts(v@) == list_rows(*old(table))[key@]
            },
            None => !list_rows(*old(table)).contains_key(key@),
        },
{
    table.remove(key).map(|entry| entry.1)
}

/// `DashMap::view`, for lists of names, with a closure that copies the row. It is claimed
/// to give the row that the table holds under `key`, where it holds one.
#[verifier::external_body]
pub(crate) fn look_list(
    table: &DashMap<String, Vec<String>>,
    key: &str,
) -> (value: Option<Vec<String>>)
    ensures
        match value {
            Some(v) => {
                &&& list_rows(*table).contains_key(key@)
                &&& texts(v@) == list_rows(*table)[key@]
            },
            None => !list_rows(*table).contains_key(key@),
        },
{
    table.view(key, |_, row| copy_texts(row))
}

/// `DashMap::new`, for channels. The new table is claimed to be empty.
#[verifier::external_body]
pub(crate) fn new_channel_table() -> (table: DashMap<String, Sender<SignalMsg>>)
    ensures
        (channel_rows(table) == Map::<Seq<char>, ChannelView>::empty()),
{
    DashMap::new()
}

/// `DashMap::insert`, for channels. The table is claimed to hold `value` under
/// `key` afterwards, in place of what it held there, and all else as before.
#[verifier::external_body]
pub(crate) fn put_channel(
    table: &mut DashMap<String, Sender<SignalMsg>>,
    key: String,
    value: Sender<SignalMsg>,
)
    ensures
        channel_rows(*final(table)) == channel_rows(*old(table)).insert(key@, channel_of(value)),
{
    table.insert(key, value);
}

/// `DashMap::remove`, for channels. The table is claimed to hold nothing under
/// `key` afterwards, and all else as before; what it held there is handed out.
#[verifier::external_body]
pub(crate) fn take_channel(
    table: &mut DashMap<String, Sender<SignalMsg>>,
    key: &str,
) -> (value: Option<Sender<SignalMsg>>)
    ensures
        channel_rows(*final(table)) == channel_rows(*old(table)).remove(key@),
        match value {
            Some(v) => {
                &&& channel_rows(*old(table)).contains_key(key@)
                &&& channel_of(v) == channel_rows(*old(table))[key@]
            },
            None => !channel_rows(*old(table)).contains_key(key@),
        },
{
    table.remove(key).map(|entry| entry.1)
}

/// `DashMap::view`, for channels, with a closure that copies the row. It is claimed
/// to give the row that the table holds under `key`, where it holds one.
#[verifier::external_body]
pub(crate) fn look_channel(
    table: &DashMap<String, Sender<SignalMsg>>,
    key: &str,
) -> (value: Option<Sender<SignalMsg>>)
    ensures
        match value {
            Some(v) => {
                &&& channel_rows(*table).contains_key(key@)
                &&& channel_of(v) == channel_rows(*table)[key@]
            },
            None => !channel_rows(*table).contains_key(key@),
        },
{
    table.view(key, |_, row| another_sender(row))
}

/// `DashMap::new`, for texts. The new table is claimed to be empty.
#[verifier::external_body]
pub(crate) fn new_text_table() -> (table: DashMap<String, String>)
    ensures
        (text_rows(table) == Map::<Seq<char>, Seq<char>>::empty()),
{
    DashMap::new()
}

/// `DashMap::insert`, for texts. The table is claimed to hold `value` under
/// `key` afterwards, in place of what it held there, and all else as before.
#[verifier::external_body]
pub(crate) fn put_text(table: &mut DashMap<String, String>, key: String, value: String)
    ensures
        text_rows(*final(table)) == text_rows(*old(table)).insert(key@, value@),
{
    table.insert(key, value);
}

/// `DashMap::remove`, for texts. The table is claimed to hold nothing under
/// `key` afterwards, and all else as before; what it held there is handed out.
#[verifier::external_body]
pub(crate) fn take_text(table: &mut DashMap<String, String>, key: &str) -> (value: Option<String>)
    ensures
        text_rows(*final(table)) == text_rows(*old(table)).remove(key@),
        match value {
            Some(v) => {
                &&& text_rows(*old(table)).contains_key(key@)
                &&& v@ == text_rows(*old(table))[key@]
            },
            None => !text_rows(*old(table)).contains_key(key@),
        },
{
    table.remove(key).map(|entry| entry.1)
}

/// `DashMap::view`, for texts, with a closure that copies the row. It is claimed
/// to give the row that the table holds under `key`, where it holds one.
#[verifier::external_body]
pub(crate) fn look_text(table: &DashMap<String, String>, key: &str) -> (value: Option<String>)
    ensures
        match value {
            Some(v) => {
                &&& text_rows(*table).contains_key(key@)
                &&& v@ == text_rows(*table)[key@]
            },
            None => !text_rows(*table).contains_key(key@),
        },
{
    table.view(key, |_, row| row.clone())
}

/// `DashMap::contains_key`, for texts. It is claimed to say whether the table
/// holds something under `key`.
#[verifier::external_body]
pub(crate) fn has_text(table: &DashMap<String, String>, key: &str) -> (found: bool)
    ensures
        found == text_rows(*table).contains_key(key@),
{
    table.contains_key(key)
}

/// The keys that `DashMap::iter` goes over, for texts. They are claimed to be
/// those that the table holds something under, each once; in which order is left
/// open.
#[verifier::external_body]
pub(crate) fn text_keys(table: &DashMap<String, String>) -> (list: Vec<String>)
    ensures
        texts(list@).no_duplicates(),
        texts(list@).to_set() == text_rows(*table).dom(),
{
    table.iter().map(|entry| entry.key().clone()).collect()
}

} // verus!
