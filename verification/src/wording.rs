//! Laws of text: what names, numbers, links and replies are made of, spelled
//! out in characters.

use crate::http::{
    attachment, chunk_header_pairs, file_header_pairs, header_pairs, header_text, Header, Refusal,
};
use crate::ident::{is_uuid, sender_id, sender_prefix};
use crate::links::{
    base_url, clean_url, download_link, opt_host_port, opt_lan_link, LAN_PORT, PORT,
};
use crate::names::{
    candidate_name, extension_text, hidden, is_part, last_component, last_resort, mime_of,
    parts_for, parts_of, plain_path, reads_as, safe_for, safe_parts, stem_and_extension,
    stored_name, value_of, verbatim, NameParts, LAST_NUMBER,
};
use crate::render::{in_words, link_qr, link_qr_or_nothing, qr_image, QrFault};
use crate::sandbox::SandboxBase;
use crate::text::{
    ascii_lowercase, decimal, digit, last_position, opt_text, starts_with, texts, trimmed,
    white_space, without_leading_space, without_trailing, without_trailing_space,
};
use vstd::prelude::*;

verus! {

// Characters.

/// White space is what Unicode calls so: the blanks and line ends of ASCII, and
/// those beyond it.
pub proof fn law_white_space(c: char)
    ensures
        white_space(c) <==> {
            let n = c as u32;
            ||| c == ' ' || c == '\t' || c == '\n' || c == '\r' || n == 11 || n == 12
            ||| n == 0x85 || n == 0xa0 || n == 0x1680
            ||| 0x2000 <= n <= 0x200a
            ||| n == 0x2028 || n == 0x2029 || n == 0x202f || n == 0x205f || n == 0x3000
        },
{
}

/// Lowering moves the capitals of ASCII by thirty-two and leaves every other
/// character; a text keeps its length, and each character its place.
pub proof fn law_lowering(s: Seq<char>, i: int)
    requires
        0 <= i < s.len(),
    ensures
        ascii_lowercase(s).len() == s.len(),
        'A' <= s[i] <= 'Z' ==> ascii_lowercase(s)[i] as u32 == s[i] as u32 + 32,
        !('A' <= s[i] <= 'Z') ==> ascii_lowercase(s)[i] == s[i],
{
}

// Trimming.

proof fn lemma_leading(s: Seq<char>) -> (i: int)
    ensures
        0 <= i <= s.len(),
        without_leading_space(s) == s.skip(i),
        forall|k: int| 0 <= k < i ==> white_space(#[trigger] s[k]),
        i < s.len() ==> !white_space(s[i]),
    decreases s.len(),
{
    if s.len() > 0 && white_space(s[0]) {
        let j = lemma_leading(s.drop_first());
        assert(s.skip(j + 1) =~= s.drop_first().skip(j));
        assert forall|k: int| 0 <= k < j + 1 implies white_space(#[trigger] s[k]) by {
            if k > 0 {
                assert(s.drop_first()[k - 1] == s[k]);
            }
        }
        if j < s.drop_first().len() {
            assert(s.drop_first()[j] == s[j + 1]);
        }
        j + 1
    } else {
        assert(s.skip(0) =~= s);
        0
    }
}

proof fn lemma_trailing(s: Seq<char>) -> (j: int)
    ensures
        0 <= j <= s.len(),
        without_trailing_space(s) == s.take(j),
        forall|k: int| j <= k < s.len() ==> white_space(#[trigger] s[k]),
        0 < j ==> !white_space(s[j - 1]),
    decreases s.len(),
{
    if s.len() > 0 && white_space(s.last()) {
        let j = lemma_trailing(s.drop_last());
        assert(s.take(j) =~= s.drop_last().take(j));
        assert forall|k: int| j <= k < s.len() implies white_space(#[trigger] s[k]) by {
            if k < s.len() - 1 {
                assert(s.drop_last()[k] == s[k]);
            }
        }
        if 0 < j {
            assert(s.drop_last()[j - 1] == s[j - 1]);
        }
        j
    } else {
        assert(s.take(s.len() as int) =~= s);
        s.len() as int
    }
}

/// Trimming takes the white space off both ends, and nothing else: what is left
/// is one piece of the text, all before it and all after it is white space, and
/// its own ends are not.
pub proof fn law_trimming(s: Seq<char>)
    ensures
        exists|i: int, j: int|
            {
                &&& 0 <= i <= j <= s.len()
                &&& trimmed(s) == #[trigger] s.subrange(i, j)
                &&& forall|k: int| 0 <= k < i ==> white_space(#[trigger] s[k])
                &&& forall|k: int| j <= k < s.len() ==> white_space(#[trigger] s[k])
            },
        trimmed(s).len() > 0 ==> !white_space(trimmed(s)[0]) && !white_space(trimmed(s).last()),
{
    let i = lemma_leading(s);
    let rest = s.skip(i);
    let n = lemma_trailing(rest);
    let j = i + n;
    assert(rest.take(n) =~= s.subrange(i, j));
    assert forall|k: int| j <= k < s.len() implies white_space(#[trigger] s[k]) by {
        assert(rest[k - i] == s[k]);
    }
    if n > 0 {
        assert(rest[0] == s[i]);
        assert(rest[n - 1] == trimmed(s).last());
    }
}

proof fn lemma_run(s: Seq<char>, c: char) -> (j: int)
    ensures
        0 <= j <= s.len(),
        without_trailing(s, c) == s.take(j),
        forall|k: int| j <= k < s.len() ==> #[trigger] s[k] == c,
        0 < j ==> s[j - 1] != c,
    decreases s.len(),
{
    if s.len() > 0 && s.last() == c {
        let j = lemma_run(s.drop_last(), c);
        assert(s.take(j) =~= s.drop_last().take(j));
        assert forall|k: int| j <= k < s.len() implies #[trigger] s[k] == c by {
            if k < s.len() - 1 {
                assert(s.drop_last()[k] == s[k]);
            }
        }
        if 0 < j {
            assert(s.drop_last()[j - 1] == s[j - 1]);
        }
        j
    } else {
        assert(s.take(s.len() as int) =~= s);
        s.len() as int
    }
}

/// A cleaned address is what is left of the address without white space at its
/// ends and then without slashes at its end: one piece of it, with nothing but
/// white space before it, and after it nothing but slashes and then white space.
pub proof fn law_cleaning_an_address(url: Seq<char>)
    ensures
        exists|i: int, j: int, k: int|
            {
                &&& 0 <= i <= j <= k <= url.len()
                &&& clean_url(url) == #[trigger] url.subrange(i, j)
                &&& forall|m: int| 0 <= m < i ==> white_space(#[trigger] url[m])
                &&& #[trigger] url.subrange(j, k) == Seq::new((k - j) as nat, |m: int| '/')
                &&& forall|m: int| k <= m < url.len() ==> white_space(#[trigger] url[m])
            },
        clean_url(url).len() > 0 ==> clean_url(url).last() != '/',
        clean_url(url).len() > 0 ==> !white_space(clean_url(url)[0]),
{
    law_trimming(url);
    let t = trimmed(url);
    let (i, k) = choose|i: int, k: int|
        {
            &&& 0 <= i <= k <= url.len()
            &&& t == #[trigger] url.subrange(i, k)
            &&& forall|m: int| 0 <= m < i ==> white_space(#[trigger] url[m])
            &&& forall|m: int| k <= m < url.len() ==> white_space(#[trigger] url[m])
        };
    let n = lemma_run(t, '/');
    let j = i + n;
    assert(t.take(n) =~= url.subrange(i, j));
    assert(url.subrange(j, k) =~= Seq::new((k - j) as nat, |m: int| '/')) by {
        assert forall|m: int| 0 <= m < k - j implies url.subrange(j, k)[m] == '/' by {
            assert(t[n + m] == url[j + m]);
        }
    }
    if n > 0 {
        assert(clean_url(url)[0] == t[0]);
        assert(clean_url(url).last() == t[n - 1]);
    }
}

// Search in a text.

/// The last position of a character: it stands there and nowhere after; it is -1
/// just where the character does not occur.
pub proof fn law_last_position(s: Seq<char>, c: char)
    ensures
        -1 <= last_position(s, c) < s.len(),
        last_position(s, c) >= 0 ==> s[last_position(s, c)] == c,
        forall|k: int| last_position(s, c) < k < s.len() ==> #[trigger] s[k] != c,
        last_position(s, c) == -1 <==> !s.contains(c),
    decreases s.len(),
{
    if s.len() > 0 && s.last() != c {
        let front = s.drop_last();
        law_last_position(front, c);
        assert forall|k: int| last_position(s, c) < k < s.len() implies #[trigger] s[k] != c by {
            if k < s.len() - 1 {
                assert(front[k] == s[k]);
            }
        }
        if s.contains(c) {
            let k = choose|k: int| 0 <= k < s.len() && s[k] == c;
            assert(front[k] == c);
        }
        if front.contains(c) {
            let k = choose|k: int| 0 <= k < front.len() && front[k] == c;
            assert(s[k] == c);
        }
    } else if s.len() > 0 {
        assert(s[s.len() - 1] == c);
    }
}

/// A text starts with another just where something can be put behind the other
/// to give it.
pub proof fn law_starts_with(s: Seq<char>, prefix: Seq<char>)
    ensures
        starts_with(s, prefix) <==> exists|rest: Seq<char>| s == #[trigger] (prefix + rest),
{
    if starts_with(s, prefix) {
        assert(s =~= prefix + s.skip(prefix.len() as int));
    }
    if exists|rest: Seq<char>| s == #[trigger] (prefix + rest) {
        let rest = choose|rest: Seq<char>| s == #[trigger] (prefix + rest);
        assert(s.take(prefix.len() as int) =~= prefix);
    }
}

// Numbers.

/// Whether a text is a number in decimal: digits, and no zero in front unless it
/// is zero itself.
pub open spec fn is_decimal(s: Seq<char>) -> bool {
    &&& s.len() > 0
    &&& forall|i: int| 0 <= i < s.len() ==> '0' <= #[trigger] s[i] <= '9'
    &&& s[0] == '0' ==> s.len() == 1
}

/// A number is written in digits that read back as the number.
pub proof fn law_decimal_reads_back(n: nat)
    ensures
        is_decimal(decimal(n)),
        value_of(decimal(n)) == n,
        n > 0 ==> decimal(n)[0] != '0',
    decreases n,
{
    if n < 10 {
        let one = seq![digit(n)];
        assert(one.drop_last() =~= Seq::empty());
        assert(value_of(one.drop_last()) == 0);
    } else {
        law_decimal_reads_back(n / 10);
        assert(decimal(n).drop_last() =~= decimal(n / 10));
        assert(decimal(n)[0] == decimal(n / 10)[0]);
    }
}

/// The ports of the server in decimal.
pub proof fn law_ports()
    ensures
        decimal(PORT as nat) == "3737"@,
        decimal(LAN_PORT as nat) == "3738"@,
{
    reveal_strlit("3737");
    reveal_strlit("3738");
    reveal_with_fuel(decimal, 5);
    assert(decimal(PORT as nat) =~= "3737"@);
    assert(decimal(LAN_PORT as nat) =~= "3738"@);
}

// Lists of texts.

/// A list of strings is read string by string, and an optional string as what it
/// is.
pub proof fn law_texts(list: Seq<String>, i: int, s: String)
    requires
        0 <= i < list.len(),
    ensures
        texts(list).len() == list.len(),
        texts(list)[i] == list[i]@,
        opt_text(Some(s)) == Some(s@),
        opt_text(None) == None::<Seq<char>>,
{
}

// Links.

/// A link leads to the public address where there is one, and else to the local
/// server; behind the address it has `/get/` and the whole id.
pub proof fn law_links_spelled_out(public_url: Seq<char>, ip: Seq<char>, id: Seq<char>)
    ensures
        public_url.len() > 0 ==> download_link(base_url(public_url), id) == public_url + "/get/"@
            + id,
        public_url.len() == 0 ==> download_link(base_url(public_url), id)
            == "http://localhost:3737"@ + "/get/"@ + id,
        opt_lan_link(Some(ip), id) == Some("http://"@ + ip + ":3737/get/"@ + id),
        opt_lan_link(None, id) == None::<Seq<char>>,
        opt_host_port(Some(ip), 3737) == Some(ip + ":3737"@),
        opt_host_port(Some(ip), 3738) == Some(ip + ":3738"@),
        opt_host_port(None, 3737) == None::<Seq<char>>,
        opt_host_port(None, 3738) == None::<Seq<char>>,
{
    law_ports();
    reveal_strlit("http://localhost:3737");
    reveal_strlit("http://localhost:");
    reveal_strlit("3737");
    reveal_strlit("3738");
    reveal_strlit(":");
    reveal_strlit("/get/");
    reveal_strlit(":3737/get/");
    reveal_strlit(":3737");
    reveal_strlit(":3738");
    assert("http://localhost:"@ + "3737"@ =~= "http://localhost:3737"@);
    assert("http://"@ + ip + ":"@ + "3737"@ + "/get/"@ + id =~= "http://"@ + ip + ":3737/get/"@
        + id);
    assert(ip + ":"@ + "3737"@ =~= ip + ":3737"@);
    assert(ip + ":"@ + "3738"@ =~= ip + ":3738"@);
}

/// The id of a sender is `sender-` and the first eight characters of the id of
/// its file.
pub proof fn law_sender_ids(file_id: Seq<char>)
    requires
        is_uuid(file_id),
    ensures
        sender_prefix() == "sender-"@,
        sender_id(file_id).len() == 15,
        sender_id(file_id).take(7) == "sender-"@,
        forall|i: int| 0 <= i < 8 ==> sender_id(file_id)[7 + i] == #[trigger] file_id[i],
{
    reveal_strlit("sender-");
    assert(sender_id(file_id).take(7) =~= "sender-"@);
}

/// A QR code is drawn of all of an address, at least 180 pixels wide and high, in
/// the colours of the app; a fault is put in words, and leaves an event without an
/// image.
pub proof fn law_qr_codes(url: Seq<char>, svg: Seq<char>, fault: QrFault)
    ensures
        link_qr(url) == qr_image(vstd::utf8::encode_utf8(url), 180, "#0a0a0f"@, "#ffffff"@),
        in_words(Ok(svg)) == Ok::<Seq<char>, Seq<char>>(svg),
        in_words(Err(fault)) == Err::<Seq<char>, Seq<char>>(fault.words()),
        link_qr(url) matches Ok(image) ==> link_qr_or_nothing(url) == image,
        link_qr(url) is Err ==> link_qr_or_nothing(url) == Seq::<char>::empty(),
{
}

// Headers.

/// A header can hold the tab and every character from the blank on but the one
/// for deleting, and no other: a text can be sent just where all its characters
/// can.
pub proof fn law_header_texts(s: Seq<char>, c: char)
    ensures
        header_text(seq![c]) <==> c == '\t' || (c as u32 >= 32 && c as u32 != 127),
        header_text(s.push(c)) <==> header_text(s) && header_text(seq![c]),
        header_text(Seq::empty()),
{
    let t = s.push(c);
    assert(seq![c][0] == c);
    if header_text(t) {
        assert forall|i: int| 0 <= i < s.len() implies (#[trigger] s[i] == '\t' || (s[i] as u32
            >= 32 && s[i] as u32 != 127)) by {
            assert(t[i] == s[i]);
        }
        assert(t[s.len() as int] == c);
    }
    if header_text(s) && header_text(seq![c]) {
        assert forall|i: int| 0 <= i < t.len() implies (#[trigger] t[i] == '\t' || (t[i] as u32
            >= 32 && t[i] as u32 != 127)) by {
            if i < s.len() {
                assert(t[i] == s[i]);
            }
        }
    }
}

/// A list of headers is read header by header.
pub proof fn law_header_lists(headers: Seq<Header>, i: int)
    requires
        0 <= i < headers.len(),
    ensures
        header_pairs(headers).len() == headers.len(),
        header_pairs(headers)[i] == (headers[i].name@, headers[i].value@),
{
}

/// The reply to a full download says how long the file is, once: its only
/// `Content-Length` reads as the number of bytes that are sent. It names the file
/// by its whole name, and gives its type wherever a header can hold it.
pub proof fn law_file_replies(name: Seq<char>, mime: Seq<char>, len: nat)
    ensures
        ({
            let h = file_header_pairs(name, mime, len);
            &&& h.len() == 5
            &&& forall|i: int|
                0 <= i < h.len() ==> ((#[trigger] h[i]).0 == "Content-Length"@ <==> i == 2)
            &&& is_decimal(h[2].1)
            &&& value_of(h[2].1) == len
            &&& h[0].0 == "Content-Disposition"@
            &&& h[0].1 == "attachment; filename=\""@ + name + "\""@
            &&& h[1].0 == "Content-Type"@
            &&& header_text(mime) ==> h[1].1 == mime
            &&& !header_text(mime) ==> h[1].1 == "application/octet-stream"@
            &&& h[3] == ("Cache-Control"@, "no-store"@)
            &&& h[4] == ("X-Powered-By"@, "GimmeURL-HybridEngine"@)
        }),
{
    law_decimal_reads_back(len);
    reveal_strlit("Content-Disposition");
    reveal_strlit("Content-Type");
    reveal_strlit("Content-Length");
    reveal_strlit("Cache-Control");
    reveal_strlit("X-Powered-By");
    let h = file_header_pairs(name, mime, len);
    assert(h[0].0.len() == 19 && h[1].0.len() == 12 && h[2].0.len() == 14 && h[3].0.len() == 13
        && h[4].0.len() == 12);
    assert forall|i: int| 0 <= i < h.len() implies ((#[trigger] h[i]).0 == "Content-Length"@ <==> i
        == 2) by {
        assert(i == 0 || i == 1 || i == 2 || i == 3 || i == 4);
    }
}

/// The reply that carries a chunk says how long the chunk is and which one it is:
/// its only `Content-Length` reads as the number of bytes in the chunk, and its
/// only `X-Chunk-Index` as the index that was asked for.
pub proof fn law_chunk_replies(size: u64, index: u32)
    ensures
        ({
            let h = chunk_header_pairs(size, index);
            &&& h.len() == 5
            &&& forall|i: int|
                0 <= i < h.len() ==> ((#[trigger] h[i]).0 == "Content-Length"@ <==> i == 1)
            &&& forall|i: int|
                0 <= i < h.len() ==> ((#[trigger] h[i]).0 == "X-Chunk-Index"@ <==> i == 2)
            &&& is_decimal(h[1].1)
            &&& value_of(h[1].1) == size
            &&& is_decimal(h[2].1)
            &&& value_of(h[2].1) == index
            &&& h[0] == ("Content-Type"@, "application/octet-stream"@)
            &&& h[3] == ("Cache-Control"@, "no-store"@)
            &&& h[4] == ("Access-Control-Allow-Origin"@, "*"@)
        }),
{
    law_decimal_reads_back(size as nat);
    law_decimal_reads_back(index as nat);
    reveal_strlit("Content-Type");
    reveal_strlit("Content-Length");
    reveal_strlit("X-Chunk-Index");
    reveal_strlit("Cache-Control");
    reveal_strlit("Access-Control-Allow-Origin");
    let h = chunk_header_pairs(size, index);
    assert(h[0].0.len() == 12 && h[1].0.len() == 14 && h[2].0.len() == 13 && h[3].0.len() == 13
        && h[4].0.len() == 27);
    assert(h[2].0[0] == 'X' && h[3].0[0] == 'C');
    assert forall|i: int| 0 <= i < h.len() implies {
        &&& ((#[trigger] h[i]).0 == "Content-Length"@ <==> i == 1)
        &&& (h[i].0 == "X-Chunk-Index"@ <==> i == 2)
    } by {
        assert(i == 0 || i == 1 || i == 2 || i == 3 || i == 4);
    }
}

// Names.

/// A text is part of another just where something can be put before it and behind
/// it to give the other.
pub proof fn law_parts_stand_in_the_text(part: Seq<char>, whole: Seq<char>)
    ensures
        is_part(part, whole) <==> exists|before: Seq<char>, behind: Seq<char>|
            whole == #[trigger] (before + part + behind),
{
    if is_part(part, whole) {
        let (i, j) = choose|i: int, j: int|
            0 <= i <= j <= whole.len() && part == #[trigger] whole.subrange(i, j);
        assert(whole =~= whole.take(i) + part + whole.skip(j));
    }
    if exists|before: Seq<char>, behind: Seq<char>| whole == #[trigger] (before + part + behind) {
        let (before, behind) = choose|before: Seq<char>, behind: Seq<char>|
            whole == #[trigger] (before + part + behind);
        let i = before.len() as int;
        assert(part =~= whole.subrange(i, i + part.len()));
    }
}

/// Windows takes just those paths word for word that start with two backslashes,
/// a question mark and a backslash.
pub proof fn law_verbatim_paths(path: Seq<char>)
    ensures
        verbatim(path) <==> path.len() >= 4 && path[0] == '\\' && path[1] == '\\' && path[2] == '?'
            && path[3] == '\\',
{
    reveal_strlit("\\\\?\\");
    let prefix = "\\\\?\\"@;
    if verbatim(path) {
        assert(path.take(4)[0] == prefix[0] && path.take(4)[1] == prefix[1] && path.take(4)[2]
            == prefix[2] && path.take(4)[3] == prefix[3]);
    }
    if path.len() >= 4 && path[0] == '\\' && path[1] == '\\' && path[2] == '?' && path[3] == '\\' {
        assert(path.take(4) =~= prefix);
    }
}

/// Every path is plain that has no backslash, no letter and colon at its start and
/// no two slashes there.
pub proof fn law_plain_paths(path: Seq<char>)
    requires
        forall|i: int| 0 <= i < path.len() ==> #[trigger] path[i] != '\\',
        path.len() >= 2 ==> !(path[1] == ':' && ('a' <= path[0] <= 'z' || 'A' <= path[0] <= 'Z')),
        path.len() >= 2 ==> !(path[0] == '/' && path[1] == '/'),
    ensures
        plain_path(path),
{
}

/// What a safe name is, spelled out: it is not empty, has no white space at its
/// ends, is `file` or a part of the name, and has no slash, unless Windows takes
/// the name word for word.
pub proof fn law_safe_names(safe: Seq<char>, name: Seq<char>)
    requires
        safe_for(safe, name),
    ensures
        safe.len() > 0,
        !white_space(safe[0]) && !white_space(safe.last()),
        safe == "file"@ || is_part(safe, name),
        !verbatim(name) ==> !safe.contains('/'),
{
    law_trimming(safe);
}

/// What is said of the parts of tried names: each holds what is said of a safe
/// name of its slashes.
pub proof fn law_safe_parts(parts: NameParts, name: Seq<char>)
    requires
        safe_parts(parts, name),
    ensures
        safe_for(parts.base, name),
        !verbatim(name) ==> !parts.stem.contains('/') && !parts.ext.contains('/'),
{
}

/// The last component of a path, by how paths are put together: it is the name
/// behind the last slash; slashes and single dots at the end do not count; behind
/// two dots there is none, nor in a path of nothing.
pub proof fn law_last_components(folder: Seq<char>, name: Seq<char>)
    requires
        folder.len() > 0 ==> folder.last() == '/',
        name.len() > 0,
        !name.contains('/'),
    ensures
        name != "."@ && name != ".."@ ==> last_component(folder + name) == Some(name),
        name == ".."@ ==> last_component(folder + name) is None,
        name == "."@ ==> last_component(folder + name) == last_component(folder),
        last_component(folder + name + "/"@) == last_component(folder + name),
        last_component(Seq::empty()) is None,
{
    reveal_strlit("/");
    reveal_strlit(".");
    reveal_strlit("..");
    let path = folder + name;
    law_last_position(path, '/');
    assert(path.last() == name.last());
    assert(name.contains(name.last()));
    let at = last_position(path, '/');
    if at >= folder.len() {
        assert(name[at - folder.len()] == '/');
        assert(name.contains('/'));
    }
    if folder.len() > 0 {
        assert(path[folder.len() - 1] == '/');
    }
    assert(at == folder.len() - 1);
    assert(path.skip(at + 1) =~= name);
    if name == "."@ {
        assert(path.drop_last() =~= folder);
        if folder.len() == 0 {
            assert(last_component(folder) is None);
        }
    }
    assert((path + "/"@).drop_last() =~= path);
    assert((path + "/"@).last() == '/');
}

/// A stored name keeps all of the component but the white space at its ends; it
/// is `file` just where there is nothing else.
pub proof fn law_stored_names_keep_all(c: Seq<char>)
    ensures
        (exists|k: int| 0 <= k < c.len() && !white_space(#[trigger] c[k])) ==> exists|
            i: int,
            j: int,
        |
            {
                &&& 0 <= i < j <= c.len()
                &&& stored_name(Some(c)) == #[trigger] c.subrange(i, j)
                &&& forall|k: int| 0 <= k < i ==> white_space(#[trigger] c[k])
                &&& forall|k: int| j <= k < c.len() ==> white_space(#[trigger] c[k])
                &&& !white_space(c[i]) && !white_space(c[j - 1])
            },
        (forall|k: int| 0 <= k < c.len() ==> white_space(#[trigger] c[k])) ==> stored_name(Some(c))
            == "file"@,
        stored_name(None) == "file"@,
{
    law_trimming(c);
    let (i, j) = choose|i: int, j: int|
        {
            &&& 0 <= i <= j <= c.len()
            &&& trimmed(c) == #[trigger] c.subrange(i, j)
            &&& forall|k: int| 0 <= k < i ==> white_space(#[trigger] c[k])
            &&& forall|k: int| j <= k < c.len() ==> white_space(#[trigger] c[k])
        };
    if exists|k: int| 0 <= k < c.len() && !white_space(#[trigger] c[k]) {
        let k = choose|k: int| 0 <= k < c.len() && !white_space(#[trigger] c[k]);
        assert(i <= k < j);
        assert(stored_name(Some(c)) == c.subrange(i, j));
        assert(trimmed(c)[0] == c[i] && trimmed(c).last() == c[j - 1]);
    }
    if forall|k: int| 0 <= k < c.len() ==> white_space(#[trigger] c[k]) {
        if trimmed(c).len() > 0 {
            assert(trimmed(c)[0] == c[i]);
        }
    }
}

/// A name is hidden just where it starts with a dot.
pub proof fn law_hidden_names(name: Seq<char>)
    ensures
        hidden(name) <==> exists|rest: Seq<char>| name == #[trigger] (seq!['.'] + rest),
{
    if hidden(name) {
        assert(name =~= seq!['.'] + name.skip(1));
    }
}

/// The media type of a name depends on what is behind its last dot alone, and
/// without a dot on the whole name.
pub proof fn law_mime_looks_behind_the_last_dot(stem: Seq<char>, ext: Seq<char>)
    requires
        !ext.contains('.'),
    ensures
        mime_of(stem + "."@ + ext) == mime_of(ext),
{
    reveal_strlit(".");
    let name = stem + "."@ + ext;
    law_last_position(name, '.');
    law_last_position(ext, '.');
    assert(name[stem.len() as int] == '.');
    let at = last_position(name, '.');
    if at > stem.len() {
        assert(ext[at - stem.len() - 1] == '.');
    }
    assert(at == stem.len());
    assert(name.skip(at + 1) =~= ext);
    assert(ext.skip(0) =~= ext);
}

proof fn lemma_extensions_differ()
    ensures
        "png"@.len() == 3 && "jpg"@.len() == 3 && "gif"@.len() == 3 && "svg"@.len() == 3,
        "pdf"@.len() == 3 && "txt"@.len() == 3 && "zip"@.len() == 3 && "mp4"@.len() == 3,
        "mov"@.len() == 3 && "mp3"@.len() == 3,
        "jpeg"@.len() == 4 && "webp"@.len() == 4 && "json"@.len() == 4,
        "png"@[0] == 'p' && "png"@[1] == 'n',
        "jpg"@[0] == 'j',
        "gif"@[0] == 'g',
        "svg"@[0] == 's',
        "pdf"@[0] == 'p' && "pdf"@[1] == 'd',
        "txt"@[0] == 't',
        "zip"@[0] == 'z',
        "mp4"@[0] == 'm' && "mp4"@[1] == 'p' && "mp4"@[2] == '4',
        "mov"@[0] == 'm' && "mov"@[1] == 'o',
        "mp3"@[0] == 'm' && "mp3"@[1] == 'p' && "mp3"@[2] == '3',
        "jpeg"@[1] == 'p',
        "webp"@[1] == 'e',
        "json"@[1] == 's',
{
    reveal_strlit("png");
    reveal_strlit("jpg");
    reveal_strlit("jpeg");
    reveal_strlit("gif");
    reveal_strlit("webp");
    reveal_strlit("svg");
    reveal_strlit("pdf");
    reveal_strlit("txt");
    reveal_strlit("json");
    reveal_strlit("zip");
    reveal_strlit("mp4");
    reveal_strlit("mov");
    reveal_strlit("mp3");
}

/// The media types that are known, by extension, whether in capitals or not; all
/// else is a stream of bytes.
pub proof fn law_known_media_types(ext: Seq<char>)
    requires
        !ext.contains('.'),
    ensures
        ({
            let low = ascii_lowercase(ext);
            &&& low == "png"@ ==> mime_of(ext) == "image/png"@
            &&& low == "jpg"@ ==> mime_of(ext) == "image/jpeg"@
            &&& low == "jpeg"@ ==> mime_of(ext) == "image/jpeg"@
            &&& low == "gif"@ ==> mime_of(ext) == "image/gif"@
            &&& low == "webp"@ ==> mime_of(ext) == "image/webp"@
            &&& low == "svg"@ ==> mime_of(ext) == "image/svg+xml"@
            &&& low == "pdf"@ ==> mime_of(ext) == "application/pdf"@
            &&& low == "txt"@ ==> mime_of(ext) == "text/plain"@
            &&& low == "json"@ ==> mime_of(ext) == "application/json"@
            &&& low == "zip"@ ==> mime_of(ext) == "application/zip"@
            &&& low == "mp4"@ ==> mime_of(ext) == "video/mp4"@
            &&& low == "mov"@ ==> mime_of(ext) == "video/quicktime"@
            &&& low == "mp3"@ ==> mime_of(ext) == "audio/mpeg"@
            &&& !seq![
                "png"@,
                "jpg"@,
                "jpeg"@,
                "gif"@,
                "webp"@,
                "svg"@,
                "pdf"@,
                "txt"@,
                "json"@,
                "zip"@,
                "mp4"@,
                "mov"@,
                "mp3"@,
            ].contains(low) ==> mime_of(ext) == "application/octet-stream"@
        }),
{
    law_last_position(ext, '.');
    assert(extension_text(ext) =~= ext);
    lemma_extensions_differ();
    let low = ascii_lowercase(ext);
    let known = seq![
        "png"@,
        "jpg"@,
        "jpeg"@,
        "gif"@,
        "webp"@,
        "svg"@,
        "pdf"@,
        "txt"@,
        "json"@,
        "zip"@,
        "mp4"@,
        "mov"@,
        "mp3"@,
    ];
    if !known.contains(low) {
        assert(known[0] != low && known[1] != low && known[2] != low && known[3] != low);
        assert(known[4] != low && known[5] != low && known[6] != low && known[7] != low);
        assert(known[8] != low && known[9] != low && known[10] != low && known[11] != low);
        assert(known[12] != low);
    }
}

/// Stem and extension of a name: the extension is what is behind the last dot,
/// unless that dot is the first character; put together with the dot they are the
/// name. Without an extension the stem is the name.
pub proof fn law_stems_and_extensions(name: Seq<char>)
    ensures
        ({
            let (stem, ext) = stem_and_extension(Some(name));
            &&& !ext.contains('.')
            &&& stem == name && ext.len() == 0 || stem.len() > 0 && name == stem + "."@ + ext
            &&& (exists|k: int| 0 < k < name.len() && #[trigger] name[k] == '.') ==> name == stem
                + "."@ + ext
        }),
        stem_and_extension(None) == ("file"@, Seq::<char>::empty()),
{
    reveal_strlit(".");
    law_last_position(name, '.');
    let dot = last_position(name, '.');
    let (stem, ext) = stem_and_extension(Some(name));
    if dot > 0 {
        assert(name =~= stem + "."@ + ext);
        if ext.contains('.') {
            let k = choose|k: int| 0 <= k < ext.len() && ext[k] == '.';
            assert(name[dot + 1 + k] == '.');
        }
    }
}

/// The parts for a name: the base is the name that is stored, and stem and
/// extension are those of its last component.
pub proof fn law_parts(base: Seq<char>, file_name: Option<Seq<char>>)
    ensures
        parts_of(base, file_name).base == base,
        (parts_of(base, file_name).stem, parts_of(base, file_name).ext) == stem_and_extension(
            file_name,
        ),
{
}

/// For an ordinary name, one without slashes and without white space at its ends
/// that is not made of dots alone, the name is tried as it is, and then with a
/// number before its extension.
pub proof fn law_ordinary_names(folder: Seq<char>, name: Seq<char>, n: nat)
    requires
        folder.len() > 0 ==> folder.last() == '/',
        name.len() > 0,
        !name.contains('/'),
        name != "."@ && name != ".."@,
        !white_space(name[0]) && !white_space(name.last()),
    ensures
        candidate_name(parts_for(folder + name), 0) == name,
        !name.contains('.') && n > 0 ==> candidate_name(parts_for(folder + name), n) == name + " ("@
            + decimal(n) + ")"@,
        forall|stem: Seq<char>, ext: Seq<char>|
            name == #[trigger] (stem + "."@ + ext) && stem.len() > 0 && ext.len() > 0
                && !ext.contains('.') && n > 0 ==> candidate_name(parts_for(folder + name), n)
                == stem + " ("@ + decimal(n) + ")."@ + ext,
{
    reveal_strlit(".");
    law_last_components(folder, name);
    law_stored_names_keep_all(name);
    let (i, j) = choose|i: int, j: int|
        {
            &&& 0 <= i < j <= name.len()
            &&& stored_name(Some(name)) == #[trigger] name.subrange(i, j)
            &&& forall|k: int| 0 <= k < i ==> white_space(#[trigger] name[k])
            &&& forall|k: int| j <= k < name.len() ==> white_space(#[trigger] name[k])
            &&& !white_space(name[i]) && !white_space(name[j - 1])
        };
    assert(i == 0 && j == name.len());
    assert(name.subrange(0, name.len() as int) =~= name);
    law_last_components(Seq::empty(), name);
    assert(Seq::<char>::empty() + name =~= name);
    let parts = parts_for(folder + name);
    law_tried_names(parts, n, name);
    law_last_position(name, '.');
    assert forall|stem: Seq<char>, ext: Seq<char>|
        name == #[trigger] (stem + "."@ + ext) && stem.len() > 0 && ext.len() > 0 && !ext.contains(
            '.',
        ) && n > 0 implies candidate_name(parts, n) == stem + " ("@ + decimal(n) + ")."@ + ext by {
        let at = last_position(name, '.');
        assert(name[stem.len() as int] == '.');
        if at > stem.len() {
            assert(ext[at - stem.len() - 1] == '.');
        }
        assert(name.take(at) =~= stem);
        assert(name.skip(at + 1) =~= ext);
    }
}

/// The names that are tried: first the name itself; then the whole stem, a blank,
/// the number in brackets, and the extension behind a dot where there is one. When
/// all of the first thousand are taken, an id, a hyphen and the name are used.
pub proof fn law_tried_names(parts: NameParts, n: nat, id: Seq<char>)
    ensures
        candidate_name(parts, 0) == parts.base,
        n > 0 && parts.ext.len() == 0 ==> candidate_name(parts, n) == parts.stem + " ("@ + decimal(
            n,
        ) + ")"@,
        n > 0 && parts.ext.len() > 0 ==> candidate_name(parts, n) == parts.stem + " ("@ + decimal(
            n,
        ) + ")."@ + parts.ext,
        last_resort(parts, id) == id + "-"@ + parts.base,
        LAST_NUMBER == 999,
{
    reveal_strlit(")");
    reveal_strlit(".");
    reveal_strlit(").");
    let head = parts.stem + " ("@ + decimal(n);
    assert(head + ")"@ + ("."@ + parts.ext) =~= head + ")."@ + parts.ext);
    assert(head + ")"@ + Seq::<char>::empty() =~= head + ")"@);
}

/// However a path is read, the name that it ends in is a part of it that is not
/// empty and has no slash, unless Windows takes the path word for word.
pub proof fn law_readings(path: Seq<char>, component: Option<Seq<char>>)
    requires
        reads_as(path, component),
    ensures
        component matches Some(c) ==> c.len() > 0 && is_part(c, path) && (!verbatim(path)
            ==> !c.contains('/')),
{
}

// Fixed texts.

/// A refusal is the server's own fault, with the status 500, just where the disk
/// failed; every other one is of something that is not there, with 404. Each says
/// in its own words which it is.
pub proof fn law_refusals(r: Refusal)
    ensures
        r.code() == 500 <==> r == Refusal::DiskError || r == Refusal::ReadError,
        r.code() == 500 || r.code() == 404,
        r == Refusal::FileNotFound ==> r.words() == "file not found"@,
        r == Refusal::ChunkNotFound ==> r.words() == "chunk not found"@,
        r == Refusal::DiskError ==> r.words() == "disk error"@,
        r == Refusal::ReadError ==> r.words() == "read error"@,
        r == Refusal::NotFound ==> r.words() == "not found"@,
        r == Refusal::NoSuchFile ==> r.words() == "no such file"@,
{
}

/// What is said of a QR code that cannot be drawn.
pub proof fn law_faults_in_words(fault: QrFault)
    ensures
        fault == QrFault::DataTooLong ==> fault.words() == "data too long"@,
        fault == QrFault::InvalidVersion ==> fault.words() == "invalid version"@,
        fault == QrFault::UnsupportedCharacterSet ==> fault.words()
            == "unsupported character set"@,
        fault == QrFault::InvalidEciDesignator ==> fault.words() == "invalid ECI designator"@,
        fault == QrFault::InvalidCharacter ==> fault.words() == "invalid character"@,
{
}

/// The watched folder has one name among the documents and in the home of the
/// user, and one without blanks among temporary files.
pub proof fn law_folder_names(base: SandboxBase)
    ensures
        base != SandboxBase::Temp ==> base.folder() == "GimmeURL Sandbox"@,
        base == SandboxBase::Temp ==> base.folder() == "gimmeurl_sandbox"@,
{
}

} // verus!
