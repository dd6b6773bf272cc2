//! Replies of the local server: refusals and headers.

use crate::text::{decimal, decimal_text};
use axum::http::HeaderValue;
use vstd::prelude::*;

verus! {

/// Why a request is refused.
#[derive(Clone, Copy, PartialEq, Eq, Structural, Debug)]
pub enum Refusal {
    /// A chunk was asked for, of a file that is not shared.
    FileNotFound,
    /// A chunk was asked for that the file does not have.
    ChunkNotFound,
    /// The file cannot be opened.
    DiskError,
    /// The chunk cannot be read.
    ReadError,
    /// A file was asked for that is not shared.
    NotFound,
    /// Signaling was asked for, for a file that is not shared.
    NoSuchFile,
}

impl Refusal {
    /// The status code.
    pub open spec fn code(self) -> u16 {
        match self {
            Refusal::DiskError => 500,
            Refusal::ReadError => 500,
            _ => 404,
        }
    }

    /// The text of the reply.
    pub open spec fn words(self) -> Seq<char> {
        match self {
            Refusal::FileNotFound => "file not found"@,
            Refusal::ChunkNotFound => "chunk not found"@,
            Refusal::DiskError => "disk error"@,
            Refusal::ReadError => "read error"@,
            Refusal::NotFound => "not found"@,
            Refusal::NoSuchFile => "no such file"@,
        }
    }

    /// The status code.
    pub fn status(self) -> (code: u16)
        ensures
            code == self.code(),
    {
        match self {
            Refusal::DiskError => 500,
            Refusal::ReadError => 500,
            _ => 404,
        }
    }

    /// The text of the reply.
    pub fn message(self) -> (text: &'static str)
        ensures
            text@ == self.words(),
    {
        match self {
            Refusal::FileNotFound => "file not found",
            Refusal::ChunkNotFound => "chunk not found",
            Refusal::DiskError => "disk error",
            Refusal::ReadError => "read error",
            Refusal::NotFound => "not found",
            Refusal::NoSuchFile => "no such file",
        }
    }
}

/// One header of a reply.
#[derive(Debug)]
pub struct Header {
    /// The name of the header.
    pub name: String,
    /// Its value.
    pub value: String,
}

impl View for Header {
    type V = (Seq<char>, Seq<char>);

    open spec fn view(&self) -> (Seq<char>, Seq<char>) {
        (self.name@, self.value@)
    }
}

/// The names and values of a list of headers.
pub open spec fn header_pairs(headers: Seq<Header>) -> Seq<(Seq<char>, Seq<char>)> {
    headers.map_values(|h: Header| h@)
}

/// A text that can be the value of a header: it has no ASCII control character
/// but the tab.
pub open spec fn header_text(s: Seq<char>) -> bool {
    forall|i: int|
        0 <= i < s.len() ==> (#[trigger] s[i] == '\t' || (s[i] as u32 >= 32 && s[i] as u32 != 127))
}

/// Whether `axum::http::HeaderValue::from_str` takes the text. It is claimed
/// to take just the texts that have no ASCII control character but the tab.
#[verifier::external_body]
fn is_header_text(text: &str) -> (ok: bool)
    ensures
        ok == header_text(text@),
{
    HeaderValue::from_str(text).is_ok()
}

fn header(name: &str, value: &str) -> (h: Header)
    ensures
        h@ == (name@, value@),
{
    Header { name: name.to_owned(), value: value.to_owned() }
}

/// The headers of a reply that carries chunk `index`, of `size` bytes.
pub open spec fn chunk_header_pairs(size: u64, index: u32) -> Seq<(Seq<char>, Seq<char>)> {
    seq![
        ("Content-Type"@, "application/octet-stream"@),
        ("Content-Length"@, decimal(size as nat)),
        ("X-Chunk-Index"@, decimal(index as nat)),
        ("Cache-Control"@, "no-store"@),
        ("Access-Control-Allow-Origin"@, "*"@),
    ]
}

/// The headers of a reply that carries chunk `index`, of `size` bytes.
pub fn chunk_headers(size: u64, index: u32) -> (headers: Vec<Header>)
    ensures
        header_pairs(headers@) == chunk_header_pairs(size, index),
{
    let mut headers: Vec<Header> = Vec::new();
    headers.push(header("Content-Type", "application/octet-stream"));
    headers.push(header("Content-Length", decimal_text(size).as_str()));
    headers.push(header("X-Chunk-Index", decimal_text(index as u64).as_str()));
    headers.push(header("Cache-Control", "no-store"));
    headers.push(header("Access-Control-Allow-Origin", "*"));
    assert(header_pairs(headers@) =~= chunk_header_pairs(size, index));
    headers
}

/// The value that makes a browser save a reply under the name `name`.
pub open spec fn attachment(name: Seq<char>) -> Seq<char> {
    "attachment; filename=\""@ + name + "\""@
}

/// The type to send a file with: its own, where that can be sent.
pub open spec fn sendable_type(mime: Seq<char>) -> Seq<char> {
    if header_text(mime) {
        mime
    } else {
        "application/octet-stream"@
    }
}

/// The headers of a reply that carries a whole file of `len` bytes.
pub open spec fn file_header_pairs(name: Seq<char>, mime: Seq<char>, len: nat) -> Seq<
    (Seq<char>, Seq<char>),
> {
    seq![
        ("Content-Disposition"@, attachment(name)),
        ("Content-Type"@, sendable_type(mime)),
        ("Content-Length"@, decimal(len)),
        ("Cache-Control"@, "no-store"@),
        ("X-Powered-By"@, "GimmeURL-HybridEngine"@),
    ]
}

/// The headers of a reply that carries a whole file of `len` bytes, which came
/// with the name `name`.
pub fn file_headers(name: &str, mime: &str, len: usize) -> (headers: Vec<Header>)
    requires
        header_text(name@),
    ensures
        header_pairs(headers@) == file_header_pairs(name@, mime@, len as nat),
{
    let mut saved_as = "attachment; filename=\"".to_owned();
    saved_as.append(name);
    saved_as.append("\"");
    let sent_type = if is_header_text(mime) {
        mime
    } else {
        "application/octet-stream"
    };
    let mut headers: Vec<Header> = Vec::new();
    headers.push(header("Content-Disposition", saved_as.as_str()));
    headers.push(header("Content-Type", sent_type));
    headers.push(header("Content-Length", decimal_text(len as u64).as_str()));
    headers.push(header("Cache-Control", "no-store"));
    headers.push(header("X-Powered-By", "GimmeURL-HybridEngine"));
    assert(header_pairs(headers@) =~= file_header_pairs(name@, mime@, len as nat));
    headers
}

proof fn lemma_decimal_is_sendable(n: nat)
    ensures
        header_text(decimal(n)),
    decreases n,
{
    if n >= 10 {
        lemma_decimal_is_sendable(n / 10);
    }
}

/// Every header of a chunk's reply can be sent.
pub proof fn law_chunk_headers_can_be_sent(size: u64, index: u32)
    ensures
        forall|i: int|
            0 <= i < chunk_header_pairs(size, index).len() ==> header_text(
                #[trigger] chunk_header_pairs(size, index)[i].1,
            ),
{
    reveal_strlit("application/octet-stream");
    reveal_strlit("no-store");
    reveal_strlit("*");
    lemma_decimal_is_sendable(size as nat);
    lemma_decimal_is_sendable(index as nat);
}

/// Every header of a whole file's reply can be sent, whatever its type, where
/// its name can be.
pub proof fn law_file_headers_can_be_sent(name: Seq<char>, mime: Seq<char>, len: nat)
    requires
        header_text(name),
    ensures
        forall|i: int|
            0 <= i < file_header_pairs(name, mime, len).len() ==> header_text(
                #[trigger] file_header_pairs(name, mime, len)[i].1,
            ),
{
    reveal_strlit("attachment; filename=\"");
    reveal_strlit("\"");
    reveal_strlit("application/octet-stream");
    reveal_strlit("no-store");
    reveal_strlit("GimmeURL-HybridEngine");
    lemma_decimal_is_sendable(len);
}

} // verus!
