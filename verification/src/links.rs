//! The addresses that files are reached under.

use crate::text::{
    decimal, decimal_text, opt_text, trim, trim_end_char, trimmed, white_space,
    without_leading_space, without_trailing, without_trailing_space,
};
use vstd::prelude::*;

verus! {

/// The port of the local server.
pub const PORT: u16 = 3737;

/// The port of the raw LAN chunk server.
pub const LAN_PORT: u16 = 3738;

/// A tunnel address as it is kept: without surrounding white space, and then
/// without the slashes it ends in.
pub open spec fn clean_url(url: Seq<char>) -> Seq<char> {
    without_trailing(trimmed(url), '/')
}

/// The address that links start with: the public one, or the local server
/// where none is known.
pub open spec fn base_url(public_url: Seq<char>) -> Seq<char> {
    if public_url.len() == 0 {
        "http://localhost:"@ + decimal(PORT as nat)
    } else {
        public_url
    }
}

/// The address under which the file `id` is downloaded.
pub open spec fn download_link(base: Seq<char>, id: Seq<char>) -> Seq<char> {
    base + "/get/"@ + id
}

/// The address under which the file `id` is downloaded on the local network.
pub open spec fn lan_link(ip: Seq<char>, id: Seq<char>) -> Seq<char> {
    "http://"@ + ip + ":"@ + decimal(PORT as nat) + "/get/"@ + id
}

/// A host and a port.
pub open spec fn host_port(ip: Seq<char>, port: u16) -> Seq<char> {
    ip + ":"@ + decimal(port as nat)
}

/// `lan_link` for an address that may not be known.
pub open spec fn opt_lan_link(ip: Option<Seq<char>>, id: Seq<char>) -> Option<Seq<char>> {
    match ip {
        Some(ip) => Some(lan_link(ip, id)),
        None => None,
    }
}

/// `host_port` for an address that may not be known.
pub open spec fn opt_host_port(ip: Option<Seq<char>>, port: u16) -> Option<Seq<char>> {
    match ip {
        Some(ip) => Some(host_port(ip, port)),
        None => None,
    }
}

/// Cleans a tunnel address.
pub fn cleaned_url(url: &str) -> (clean: String)
    ensures
        clean@ == clean_url(url@),
{
    trim_end_char(trim(url).as_str(), '/')
}

/// The address that links start with.
pub fn link_base(public_url: &String) -> (base: String)
    ensures
        base@ == base_url(public_url@),
{
    if public_url.as_str().is_empty() {
        let mut base = "http://localhost:".to_owned();
        base.append(decimal_text(PORT as u64).as_str());
        base
    } else {
        public_url.clone()
    }
}

/// The address under which the file `id` is downloaded.
pub fn download_url(base: &str, id: &str) -> (url: String)
    ensures
        url@ == download_link(base@, id@),
{
    let mut url = base.to_owned();
    url.append("/get/");
    url.append(id);
    url
}

/// The address of the file `id` on the local network, where there is one.
pub fn lan_url(ip: &Option<String>, id: &str) -> (url: Option<String>)
    ensures
        opt_text(url) == opt_lan_link(opt_text(*ip), id@),
{
    match ip {
        Some(ip) => {
            let mut url = "http://".to_owned();
            url.append(ip.as_str());
            url.append(":");
            url.append(decimal_text(PORT as u64).as_str());
            url.append("/get/");
            url.append(id);
            Some(url)
        },
        None => None,
    }
}

/// Host and port on the local network, where there is one.
pub fn lan_addr(ip: &Option<String>, port: u16) -> (addr: Option<String>)
    ensures
        opt_text(addr) == opt_host_port(opt_text(*ip), port),
{
    match ip {
        Some(ip) => {
            let mut addr = ip.clone();
            addr.append(":");
            addr.append(decimal_text(port as u64).as_str());
            Some(addr)
        },
        None => None,
    }
}

/// A cleaned address does not end in a slash.
pub proof fn law_clean_url_ends_in_no_slash(url: Seq<char>)
    ensures
        clean_url(url).len() > 0 ==> clean_url(url).last() != '/',
{
    lemma_stripped(trimmed(url), '/');
}

proof fn lemma_stripped(s: Seq<char>, c: char)
    ensures
        without_trailing(s, c).len() > 0 ==> without_trailing(s, c).last() != c,
        without_trailing(s, c).len() <= s.len(),
        without_trailing(s, c) == s.take(without_trailing(s, c).len() as int),
    decreases s.len(),
{
    if s.len() > 0 && s.last() == c {
        lemma_stripped(s.drop_last(), c);
        let n = without_trailing(s, c).len() as int;
        assert(s.drop_last().take(n) =~= s.take(n));
    } else {
        assert(s.take(s.len() as int) =~= s);
    }
}

/// Cleaning an address twice is cleaning it once, unless white space is left at
/// its end, before the slashes that were taken off.
pub proof fn law_clean_address_stays_clean(url: Seq<char>)
    requires
        clean_url(url).len() > 0 ==> !white_space(clean_url(url).last()),
    ensures
        clean_url(clean_url(url)) == clean_url(url),
{
    let t = trimmed(url);
    let c = clean_url(url);
    lemma_stripped(t, '/');
    lemma_trimmed_starts_plain(url);
    if c.len() > 0 {
        assert(c[0] == t[0]);
        assert(without_leading_space(c) == c);
        assert(without_trailing_space(c) == c);
        assert(without_trailing(c, '/') == c);
    }
}

proof fn lemma_trimmed_starts_plain(s: Seq<char>)
    ensures
        trimmed(s).len() > 0 ==> !white_space(trimmed(s)[0]),
{
    lemma_front_is_plain(s);
    lemma_back_keeps_front(without_leading_space(s));
}

proof fn lemma_front_is_plain(s: Seq<char>)
    ensures
        without_leading_space(s).len() > 0 ==> !white_space(without_leading_space(s)[0]),
    decreases s.len(),
{
    if s.len() > 0 && white_space(s[0]) {
        lemma_front_is_plain(s.drop_first());
    }
}

proof fn lemma_back_keeps_front(s: Seq<char>)
    ensures
        without_trailing_space(s).len() > 0 ==> s.len() > 0 && without_trailing_space(s)[0] == s[0],
    decreases s.len(),
{
    if s.len() > 0 && white_space(s.last()) {
        lemma_back_keeps_front(s.drop_last());
    }
}

/// Links to different files are different.
pub proof fn law_links_identify_files(base: Seq<char>, a: Seq<char>, b: Seq<char>)
    requires
        download_link(base, a) == download_link(base, b),
    ensures
        a == b,
{
    let link = download_link(base, a);
    let from = (base + "/get/"@).len() as int;
    assert(link.skip(from) =~= a);
    assert(link.skip(from) =~= b);
}

} // verus!
