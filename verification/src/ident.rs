//! Identifiers of files and peers.

use vstd::prelude::*;

verus! {

/// A lower-case hexadecimal digit.
pub open spec fn hex_digit(c: char) -> bool {
    '0' <= c <= '9' || 'a' <= c <= 'f'
}

/// The hyphenated form of a random (version 4) UUID.
pub open spec fn is_uuid(s: Seq<char>) -> bool {
    &&& s.len() == 36
    &&& s[8] == '-' && s[13] == '-' && s[18] == '-' && s[23] == '-'
    &&& forall|i: int|
        0 <= i < 36 && i != 8 && i != 13 && i != 18 && i != 23 ==> hex_digit(#[trigger] s[i])
    &&& s[14] == '4'
    &&& s[19] == '8' || s[19] == '9' || s[19] == 'a' || s[19] == 'b'
}

/// What the id of every sending peer starts with.
pub open spec fn sender_prefix() -> Seq<char> {
    "sender-"@
}

/// The id of the peer that a file is sent by: the prefix and the first eight
/// characters of the file's id.
pub open spec fn sender_id(file_id: Seq<char>) -> Seq<char> {
    sender_prefix() + file_id.take(8)
}

/// A new random id, from `uuid::Uuid::new_v4`. It is claimed to be a
/// version 4 UUID in the hyphenated form that `Uuid` displays itself in; which
/// one is left to chance.
#[verifier::external_body]
pub(crate) fn new_id() -> (id: String)
    ensures
        is_uuid(id@),
{
    uuid::Uuid::new_v4().to_string()
}

/// The id of the peer that the file `file_id` is sent by.
pub fn sender_peer_id(file_id: &str) -> (id: String)
    requires
        is_uuid(file_id@),
    ensures
        id@ == sender_id(file_id@),
{
    let mut id = "sender-".to_owned();
    id.append(file_id.substring_char(0, 8));
    assert(file_id@.subrange(0, 8) =~= file_id@.take(8));
    id
}

} // verus!
