//! Names of files: the name a file is stored under and the type its name
//! suggests.

use crate::ident::{hex_digit, is_uuid, new_id};
use crate::text::{
    ascii_lower, ascii_lowercase, chars_of, decimal, decimal_text, find_last, has_prefix,
    last_position, lower_char, opt_text, spells, starts_with, trim, trimmed, white_space,
    without_leading_space, without_trailing_space,
};
use vstd::prelude::*;

verus! {

/// The last number that is tried for a name that is taken.
pub const LAST_NUMBER: u32 = 999;

/// Whether a path starts as those do that Windows takes word for word.
pub open spec fn verbatim(path: Seq<char>) -> bool {
    starts_with(path, "\\\\?\\"@)
}

/// Whether a path starts with the name of a drive: a letter and a colon.
pub open spec fn has_drive(path: Seq<char>) -> bool {
    &&& path.len() >= 2
    &&& 'a' <= path[0] <= 'z' || 'A' <= path[0] <= 'Z'
    &&& path[1] == ':'
}

/// A path with its backslashes made slashes.
pub open spec fn slashed(path: Seq<char>) -> Seq<char> {
    path.map_values(
        |c: char|
            if c == '\\' {
                '/'
            } else {
                c
            },
    )
}

/// Whether a path starts with two separators, be they slashes or backslashes.
pub open spec fn two_separators(path: Seq<char>) -> bool {
    path.len() >= 2 && slashed(path)[0] == '/' && slashed(path)[1] == '/'
}

/// A path that Unix and Windows read alike: it has no backslash, does not start
/// with the name of a drive, and has no two slashes at its start.
pub open spec fn plain_path(path: Seq<char>) -> bool {
    &&& !path.contains('\\')
    &&& !has_drive(path)
    &&& !(path.len() >= 2 && path[0] == '/' && path[1] == '/')
}

/// The name that a path ends in, as Unix reads it. Slashes at the end and `.`
/// components are passed over; a path that ends in `..`, or has no named
/// component at its end, has none.
pub open spec fn last_component(path: Seq<char>) -> Option<Seq<char>>
    decreases path.len(),
{
    if path.len() == 0 {
        None
    } else if path.last() == '/' {
        last_component(path.drop_last())
    } else {
        let name = path.skip(last_position(path, '/') + 1);
        if name == "."@ {
            if name.len() == path.len() {
                None
            } else {
                last_component(path.drop_last())
            }
        } else if name == ".."@ {
            None
        } else {
            Some(name)
        }
    }
}

/// The name to store a file under, given the last component of the name it
/// came with: that component without surrounding white space, or `file`.
pub open spec fn stored_name(component: Option<Seq<char>>) -> Seq<char> {
    match component {
        Some(name) => if trimmed(name).len() > 0 {
            trimmed(name)
        } else {
            "file"@
        },
        None => "file"@,
    }
}

/// Whether `part` stands in `whole`, in one piece.
pub open spec fn is_part(part: Seq<char>, whole: Seq<char>) -> bool {
    exists|i: int, j: int| 0 <= i <= j <= whole.len() && part == #[trigger] whole.subrange(i, j)
}

/// The name that a path ends in, as Windows reads it, where the path does not
/// start with two separators: a backslash separates as a slash does, and the name
/// of a drive is no part of it.
pub open spec fn windows_component(path: Seq<char>) -> Option<Seq<char>> {
    last_component(
        if has_drive(path) {
            slashed(path).skip(2)
        } else {
            slashed(path)
        },
    )
}

/// Whether `part` has no slash, or was taken from a path that Windows takes word
/// for word: there a slash does not separate.
pub open spec fn separated(part: Seq<char>, whole: Seq<char>) -> bool {
    !verbatim(whole) ==> !part.contains('/')
}

/// Whether Windows can read `component` as the name that `path` ends in. After
/// two separators a path can name a machine or a device first, so of such a path
/// only that the name has no backslash is said.
pub open spec fn windows_reads(path: Seq<char>, component: Option<Seq<char>>) -> bool {
    if two_separators(path) {
        component matches Some(c) ==> !c.contains('\\')
    } else {
        component == windows_component(path)
    }
}

/// Whether `component` is the name that `path` ends in, as Unix or as Windows
/// reads it.
pub open spec fn reads_as(path: Seq<char>, component: Option<Seq<char>>) -> bool {
    &&& component == last_component(path) || windows_reads(path, component)
    &&& component matches Some(c) ==> c.len() > 0 && is_part(c, path) && separated(c, path)
}

/// `std::path::Path::file_name`, as text. It is claimed to give what Unix or
/// what Windows reads as the name that the path ends in: a part of the path that
/// is not empty and has no slash, unless Windows takes the path word for word.
#[verifier::external_body]
fn path_file_name(path: &str) -> (name: Option<String>)
    ensures
        reads_as(path@, opt_text(name)),
{
    std::path::Path::new(path).file_name().and_then(|s| s.to_str()).map(|s| s.to_string())
}

/// The name to store a file under, given the last component of its name.
pub fn file_name_or_default(component: &Option<String>) -> (name: String)
    ensures
        name@ == stored_name(opt_text(*component)),
{
    if let Some(n) = component {
        let kept = trim(n.as_str());
        if !kept.as_str().is_empty() {
            return kept;
        }
    }
    "file".to_owned()
}

/// What holds of the name `safe` that a file is stored under, which came with
/// the name `name`: it is not empty, has no white space at either end, is `file`
/// or a part of the name, and has no slash, unless Windows takes the name word
/// for word.
pub open spec fn safe_for(safe: Seq<char>, name: Seq<char>) -> bool {
    &&& safe.len() > 0
    &&& trimmed(safe) == safe
    &&& safe == "file"@ || is_part(safe, name)
    &&& separated(safe, name)
}

/// The name to store a file under that came with the name `name`.
pub fn safe_file_name(name: &str) -> (safe: String)
    ensures
        safe_for(safe@, name@),
        exists|c: Option<Seq<char>>| reads_as(name@, c) && safe@ == #[trigger] stored_name(c),
        plain_path(name@) ==> safe@ == stored_name(last_component(name@)),
{
    let component = path_file_name(name);
    let safe = file_name_or_default(&component);
    proof {
        lemma_stored_is_safe(opt_text(component), name@);
        if plain_path(name@) {
            lemma_plain_is_read_alike(name@, opt_text(component));
        }
        assert(safe@ == stored_name(opt_text(component)));
    }
    safe
}

/// The text after the last dot of a name; all of it where there is no dot.
pub open spec fn extension_text(name: Seq<char>) -> Seq<char> {
    name.skip(last_position(name, '.') + 1)
}

/// The media type of files with the extension `ext`, in lower case.
pub open spec fn mime_of_extension(ext: Seq<char>) -> Seq<char> {
    if ext == "png"@ {
        "image/png"@
    } else if ext == "jpg"@ || ext == "jpeg"@ {
        "image/jpeg"@
    } else if ext == "gif"@ {
        "image/gif"@
    } else if ext == "webp"@ {
        "image/webp"@
    } else if ext == "svg"@ {
        "image/svg+xml"@
    } else if ext == "pdf"@ {
        "application/pdf"@
    } else if ext == "txt"@ {
        "text/plain"@
    } else if ext == "json"@ {
        "application/json"@
    } else if ext == "zip"@ {
        "application/zip"@
    } else if ext == "mp4"@ {
        "video/mp4"@
    } else if ext == "mov"@ {
        "video/quicktime"@
    } else if ext == "mp3"@ {
        "audio/mpeg"@
    } else {
        "application/octet-stream"@
    }
}

/// The media type that the name of a file suggests.
pub open spec fn mime_of(name: Seq<char>) -> Seq<char> {
    mime_of_extension(ascii_lowercase(extension_text(name)))
}

/// The media type that the name of a file suggests.
pub fn guess_mime(name: &str) -> (mime: String)
    ensures
        mime@ == mime_of(name@),
{
    let chars = chars_of(name);
    proof {
        lemma_last_position_bounds(name@, '.');
        assert(chars.len() == name@.len());
    }
    let from: usize = match find_last(&chars, '.') {
        Some(dot) => dot + 1,
        None => 0,
    };
    let mut ext: Vec<char> = Vec::new();
    let mut i: usize = from;
    let ghost wanted = ascii_lowercase(extension_text(name@));
    while i < chars.len()
        invariant
            chars@ == name@,
            from == last_position(name@, '.') + 1,
            from <= i <= chars.len(),
            wanted == ascii_lowercase(extension_text(name@)),
            ext@ == wanted.take(i - from),
        decreases chars.len() - i,
    {
        ext.push(lower_char(chars[i]));
        i = i + 1;
        assert(ext@ =~= wanted.take(i - from));
    }
    assert(wanted.take(i - from) =~= wanted);
    let mime = if spells(&ext, "png") {
        "image/png"
    } else if spells(&ext, "jpg") || spells(&ext, "jpeg") {
        "image/jpeg"
    } else if spells(&ext, "gif") {
        "image/gif"
    } else if spells(&ext, "webp") {
        "image/webp"
    } else if spells(&ext, "svg") {
        "image/svg+xml"
    } else if spells(&ext, "pdf") {
        "application/pdf"
    } else if spells(&ext, "txt") {
        "text/plain"
    } else if spells(&ext, "json") {
        "application/json"
    } else if spells(&ext, "zip") {
        "application/zip"
    } else if spells(&ext, "mp4") {
        "video/mp4"
    } else if spells(&ext, "mov") {
        "video/quicktime"
    } else if spells(&ext, "mp3") {
        "audio/mpeg"
    } else {
        "application/octet-stream"
    };
    mime.to_owned()
}

/// Whether a file name is that of a hidden file.
pub open spec fn hidden(name: Seq<char>) -> bool {
    name.len() > 0 && name[0] == '.'
}

/// Whether a file name is that of a hidden file.
pub fn is_hidden(name: &str) -> (r: bool)
    ensures
        r == hidden(name@),
{
    proof {
        reveal_strlit(".");
        if hidden(name@) {
            assert(name@.take(1) =~= "."@);
        }
        if starts_with(name@, "."@) {
            assert(name@.take(1)[0] == '.');
        }
    }
    has_prefix(name, ".")
}

pub(crate) proof fn lemma_last_position_bounds(s: Seq<char>, c: char)
    ensures
        -1 <= last_position(s, c) < s.len(),
        last_position(s, c) >= 0 ==> s[last_position(s, c)] == c,
        forall|i: int| last_position(s, c) < i < s.len() ==> s[i] != c,
    decreases s.len(),
{
    if s.len() > 0 && s.last() != c {
        lemma_last_position_bounds(s.drop_last(), c);
        assert forall|i: int| last_position(s, c) < i < s.len() implies s[i] != c by {
            if i < s.len() - 1 {
                assert(s.drop_last()[i] == s[i]);
            }
        }
    }
}

/// The parts that the names tried for one file are made of.
#[verifier::ext_equal]
pub struct NameParts {
    /// The name itself.
    pub base: Seq<char>,
    /// What comes before the number.
    pub stem: Seq<char>,
    /// The extension, or nothing.
    pub ext: Seq<char>,
}

/// The stem of a file name and its extension. A dot at the start of a name
/// does not begin an extension; without a file name, the stem is `file`.
pub open spec fn stem_and_extension(file_name: Option<Seq<char>>) -> (Seq<char>, Seq<char>) {
    match file_name {
        Some(name) => {
            let dot = last_position(name, '.');
            if dot <= 0 {
                (name, Seq::empty())
            } else {
                (name.take(dot), name.skip(dot + 1))
            }
        },
        None => ("file"@, Seq::empty()),
    }
}

/// The parts for the stored name `base`, whose own last component is
/// `file_name`.
pub open spec fn parts_of(base: Seq<char>, file_name: Option<Seq<char>>) -> NameParts {
    NameParts {
        base,
        stem: stem_and_extension(file_name).0,
        ext: stem_and_extension(file_name).1,
    }
}

/// The parts for a file that came with the name `name`, which is plain and is
/// stored under a plain name.
pub open spec fn parts_for(name: Seq<char>) -> NameParts {
    let base = stored_name(last_component(name));
    parts_of(base, last_component(base))
}

/// What holds of the parts of the names that are tried for a file that came with
/// the name `name`: none of them has a slash, unless Windows takes the name word
/// for word, and stem and extension are taken from the name itself.
pub open spec fn safe_parts(parts: NameParts, name: Seq<char>) -> bool {
    &&& safe_for(parts.base, name)
    &&& parts.stem == "file"@ || is_part(parts.stem, parts.base)
    &&& parts.ext.len() == 0 || is_part(parts.ext, parts.base)
    &&& separated(parts.stem, name)
    &&& separated(parts.ext, name)
}

/// The name that is tried after `n` others: first the name itself, then the
/// stem with a number in brackets, before the extension.
pub open spec fn candidate_name(parts: NameParts, n: nat) -> Seq<char> {
    if n == 0 {
        parts.base
    } else {
        parts.stem + " ("@ + decimal(n) + ")"@ + (if parts.ext.len() == 0 {
            Seq::empty()
        } else {
            "."@ + parts.ext
        })
    }
}

/// The name that is used, untried, when every other one is taken.
pub open spec fn last_resort(parts: NameParts, id: Seq<char>) -> Seq<char> {
    id + "-"@ + parts.base
}

/// The search for a name that no file in a folder has. The folder is asked
/// about one name at a time: `candidate` is the name to ask about, `answer`
/// takes the reply.
pub struct NameSearch {
    base: String,
    stem: String,
    ext: String,
    taken: u32,
}

impl NameSearch {
    /// What the names are made of.
    pub closed spec fn parts(&self) -> NameParts {
        NameParts { base: self.base@, stem: self.stem@, ext: self.ext@ }
    }

    /// How many names were found taken.
    pub closed spec fn taken(&self) -> nat {
        self.taken as nat
    }

    /// The search for a free name, for a file that came with the name `name`.
    pub fn start(name: &str) -> (search: NameSearch)
        ensures
            search.taken() == 0,
            safe_parts(search.parts(), name@),
            exists|c: Option<Seq<char>>, f: Option<Seq<char>>|
                {
                    &&& reads_as(name@, c)
                    &&& reads_as(stored_name(c), f)
                    &&& search.parts() == #[trigger] parts_of(stored_name(c), f)
                },
            plain_path(name@) && plain_path(stored_name(last_component(name@)))
                ==> search.parts() == parts_for(name@),
    {
        let base = safe_file_name(name);
        let file_name = path_file_name(base.as_str());
        let ghost component = choose|c: Option<Seq<char>>|
            reads_as(name@, c) && base@ == #[trigger] stored_name(c);
        proof {
            lemma_parts_are_safe(base@, opt_text(file_name), name@);
            if plain_path(base@) {
                lemma_plain_is_read_alike(base@, opt_text(file_name));
            }
        }
        let search = NameSearch::with_parts(base, &file_name);
        assert(search.parts() == parts_of(stored_name(component), opt_text(file_name)));
        search
    }

    /// The search for a free name, starting from the stored name `base`, whose
    /// own last component is `file_name`.
    pub fn with_parts(base: String, file_name: &Option<String>) -> (search: NameSearch)
        ensures
            search.taken() == 0,
            search.parts() == parts_of(base@, opt_text(*file_name)),
    {
        match file_name {
            Some(name) => {
                let chars = chars_of(name.as_str());
                proof {
                    lemma_last_position_bounds(name@, '.');
                }
                let dot: usize = match find_last(&chars, '.') {
                    Some(dot) => dot,
                    None => 0,
                };
                if dot == 0 {
                    NameSearch { base, stem: name.clone(), ext: String::new(), taken: 0 }
                } else {
                    let stem = name.as_str().substring_char(0, dot).to_owned();
                    let ext = name.as_str().substring_char(dot + 1, chars.len()).to_owned();
                    assert(stem@ =~= name@.take(dot as int));
                    assert(ext@ =~= name@.skip(dot + 1));
                    NameSearch { base, stem, ext, taken: 0 }
                }
            },
            None => NameSearch { base, stem: "file".to_owned(), ext: String::new(), taken: 0 },
        }
    }

    /// The name to ask about.
    pub fn candidate(&self) -> (name: String)
        ensures
            name@ == candidate_name(self.parts(), self.taken()),
    {
        if self.taken == 0 {
            return self.base.clone();
        }
        let mut name = self.stem.clone();
        name.append(" (");
        name.append(decimal_text(self.taken as u64).as_str());
        name.append(")");
        if !self.ext.as_str().is_empty() {
            name.append(".");
            name.append(self.ext.as_str());
        }
        assert(name@ =~= candidate_name(self.parts(), self.taken()));
        name
    }

    /// Takes the reply for `candidate`: whether a file of that name exists.
    /// Gives the name to use, once it is settled.
    pub fn answer(&mut self, exists: bool) -> (settled: Option<String>)
        ensures
            final(self).parts() == old(self).parts(),
            !exists ==> {
                &&& final(self).taken() == old(self).taken()
                &&& settled matches Some(name) && name@ == candidate_name(
                    old(self).parts(),
                    old(self).taken(),
                )
            },
            exists && old(self).taken() < LAST_NUMBER ==> {
                &&& final(self).taken() == old(self).taken() + 1
                &&& settled is None
            },
            exists && old(self).taken() >= LAST_NUMBER ==> {
                &&& final(self).taken() == old(self).taken()
                &&& settled matches Some(name) && exists|id: Seq<char>|
                    is_uuid(id) && name@ == #[trigger] last_resort(old(self).parts(), id)
            },
    {
        if !exists {
            return Some(self.candidate());
        }
        if self.taken < LAST_NUMBER {
            self.taken = self.taken + 1;
            return None;
        }
        let id = new_id();
        let name = self.last_resort_name(id.as_str());
        assert(is_uuid(id@) && name@ == last_resort(self.parts(), id@));
        Some(name)
    }

    /// The name to use, with the id `id`, when every other one is taken.
    pub fn last_resort_name(&self, id: &str) -> (name: String)
        ensures
            name@ == last_resort(self.parts(), id@),
    {
        let mut name = id.to_owned();
        name.append("-");
        name.append(self.base.as_str());
        name
    }
}

/// What is part of a part is part of the whole.
proof fn lemma_part_of_part(a: Seq<char>, b: Seq<char>, c: Seq<char>)
    requires
        is_part(a, b),
        is_part(b, c),
    ensures
        is_part(a, c),
{
    let (i, j) = choose|i: int, j: int|
        0 <= i <= j <= b.len() && a == #[trigger] b.subrange(i, j);
    let (k, l) = choose|k: int, l: int|
        0 <= k <= l <= c.len() && b == #[trigger] c.subrange(k, l);
    assert(c.subrange(k + i, k + j) =~= a);
}

/// What a part holds, the whole holds.
proof fn lemma_part_within(part: Seq<char>, whole: Seq<char>, c: char)
    requires
        is_part(part, whole),
        part.contains(c),
    ensures
        whole.contains(c),
{
    let (i, j) = choose|i: int, j: int|
        0 <= i <= j <= whole.len() && part == #[trigger] whole.subrange(i, j);
    let k = choose|k: int| 0 <= k < part.len() && part[k] == c;
    assert(whole[i + k] == c);
}

proof fn lemma_front_is_part(s: Seq<char>)
    ensures
        is_part(without_leading_space(s), s),
        without_leading_space(s).len() > 0 ==> !white_space(without_leading_space(s)[0]),
    decreases s.len(),
{
    if s.len() > 0 && white_space(s[0]) {
        lemma_front_is_part(s.drop_first());
        assert(s.subrange(1, s.len() as int) =~= s.drop_first());
        lemma_part_of_part(without_leading_space(s), s.drop_first(), s);
    } else {
        assert(s.subrange(0, s.len() as int) =~= s);
    }
}

proof fn lemma_back_is_part(s: Seq<char>)
    ensures
        is_part(without_trailing_space(s), s),
        without_trailing_space(s).len() > 0 ==> {
            &&& !white_space(without_trailing_space(s).last())
            &&& without_trailing_space(s)[0] == s[0]
        },
    decreases s.len(),
{
    if s.len() > 0 && white_space(s.last()) {
        lemma_back_is_part(s.drop_last());
        assert(s.subrange(0, s.len() - 1) =~= s.drop_last());
        lemma_part_of_part(without_trailing_space(s), s.drop_last(), s);
    } else {
        assert(s.subrange(0, s.len() as int) =~= s);
    }
}

/// Trimming gives a part, and trimming again changes nothing.
proof fn lemma_trimmed_is_part(s: Seq<char>)
    ensures
        is_part(trimmed(s), s),
        trimmed(trimmed(s)) == trimmed(s),
{
    let front = without_leading_space(s);
    lemma_front_is_part(s);
    lemma_back_is_part(front);
    lemma_part_of_part(trimmed(s), front, s);
}

/// A plain path is read in one way.
proof fn lemma_plain_is_read_alike(path: Seq<char>, component: Option<Seq<char>>)
    requires
        plain_path(path),
        reads_as(path, component),
    ensures
        component == last_component(path),
{
    lemma_slashed_is_same(path);
}

proof fn lemma_stored_is_safe(component: Option<Seq<char>>, name: Seq<char>)
    requires
        component matches Some(c) ==> is_part(c, name) && separated(c, name),
    ensures
        safe_for(stored_name(component), name),
{
    reveal_strlit("file");
    assert(!white_space('f') && !white_space('e'));
    if let Some(c) = component {
        lemma_trimmed_is_part(c);
        lemma_part_of_part(trimmed(c), c, name);
        if trimmed(c).contains('/') {
            lemma_part_within(trimmed(c), c, '/');
        }
    }
}

proof fn lemma_parts_are_safe(base: Seq<char>, file_name: Option<Seq<char>>, name: Seq<char>)
    requires
        safe_for(base, name),
        file_name matches Some(f) ==> is_part(f, base),
    ensures
        safe_parts(parts_of(base, file_name), name),
{
    reveal_strlit("file");
    let parts = parts_of(base, file_name);
    if let Some(f) = file_name {
        let dot = last_position(f, '.');
        lemma_last_position_bounds(f, '.');
        if dot <= 0 {
            assert(f.subrange(0, f.len() as int) =~= f);
        } else {
            assert(f.subrange(0, dot) =~= parts.stem);
            assert(f.subrange(dot + 1, f.len() as int) =~= parts.ext);
            lemma_part_of_part(parts.ext, f, base);
        }
        lemma_part_of_part(parts.stem, f, base);
        if !verbatim(name) {
            if parts.stem.contains('/') {
                lemma_part_within(parts.stem, base, '/');
            }
            if parts.ext.contains('/') {
                lemma_part_within(parts.ext, base, '/');
            }
        }
    }
}

proof fn lemma_joined_has_no(a: Seq<char>, b: Seq<char>, c: char)
    requires
        !a.contains(c),
        !b.contains(c),
    ensures
        !(a + b).contains(c),
{
    if (a + b).contains(c) {
        let k = choose|k: int| 0 <= k < (a + b).len() && (a + b)[k] == c;
        if k < a.len() {
            assert(a[k] == c);
        } else {
            assert(b[k - a.len()] == c);
        }
    }
}

proof fn lemma_decimal_has_no_slash(n: nat)
    ensures
        !decimal(n).contains('/'),
    decreases n,
{
    if n >= 10 {
        lemma_decimal_has_no_slash(n / 10);
    }
}

/// No name leads out of the folder: whatever name a file came with, unless
/// Windows takes it word for word, no name that is tried or used has a slash, and
/// none is empty.
pub proof fn law_names_stay_in_the_folder(
    name: Seq<char>,
    parts: NameParts,
    n: nat,
    id: Seq<char>,
)
    requires
        !verbatim(name),
        safe_parts(parts, name),
        is_uuid(id),
    ensures
        candidate_name(parts, n).len() > 0,
        !candidate_name(parts, n).contains('/'),
        last_resort(parts, id).len() > 0,
        !last_resort(parts, id).contains('/'),
{
    reveal_strlit(" (");
    reveal_strlit(")");
    reveal_strlit(".");
    reveal_strlit("-");
    lemma_decimal_has_no_slash(n);
    lemma_joined_has_no(parts.stem, " ("@, '/');
    lemma_joined_has_no(parts.stem + " ("@, decimal(n), '/');
    lemma_joined_has_no(parts.stem + " ("@ + decimal(n), ")"@, '/');
    lemma_joined_has_no("."@, parts.ext, '/');
    lemma_joined_has_no(
        parts.stem + " ("@ + decimal(n) + ")"@,
        if parts.ext.len() == 0 {
            Seq::empty()
        } else {
            "."@ + parts.ext
        },
        '/',
    );
    assert(!id.contains('/')) by {
        if id.contains('/') {
            let k = choose|k: int| 0 <= k < id.len() && id[k] == '/';
            assert(k == 8 || k == 13 || k == 18 || k == 23 || hex_digit(id[k]));
        }
    }
    lemma_joined_has_no(id, "-"@, '/');
    lemma_joined_has_no(id + "-"@, parts.base, '/');
}

/// A name that a file is stored under is stored unchanged, also behind a folder,
/// unless it is `.` or `..`.
pub proof fn law_stored_names_stay(name: Seq<char>, dir: Seq<char>)
    requires
        stored_name(last_component(name)) != "."@,
        stored_name(last_component(name)) != ".."@,
    ensures
        ({
            let safe = stored_name(last_component(name));
            &&& stored_name(last_component(safe)) == safe
            &&& stored_name(last_component(dir + "/"@ + safe)) == safe
        }),
{
    reveal_strlit("/");
    reveal_strlit("file");
    assert(!white_space('f') && !white_space('e'));
    let safe = stored_name(last_component(name));
    law_stored_name_has_no_separator(name);
    assert(trimmed(safe) == safe) by {
        if let Some(c) = last_component(name) {
            lemma_trimmed_is_part(c);
        }
    }
    lemma_last_of_folder(Seq::empty(), safe);
    assert(Seq::<char>::empty() + safe =~= safe);
    lemma_last_of_folder(dir + "/"@, safe);
}

/// A name that a file is stored under is stored unchanged, also behind a folder,
/// whichever way a path is read: here `alone` is read from the name itself, and
/// `behind` from the name behind the folder `dir`. Left out are `.` and `..`,
/// names with a backslash, a name that starts as a drive does, and a folder after
/// which the whole starts with two separators.
pub proof fn law_stored_names_stay_however_read(
    safe: Seq<char>,
    dir: Seq<char>,
    alone: Option<Seq<char>>,
    behind: Option<Seq<char>>,
)
    requires
        safe.len() > 0,
        trimmed(safe) == safe,
        !safe.contains('/'),
        !safe.contains('\\'),
        safe != "."@,
        safe != ".."@,
        !has_drive(safe),
        !two_separators(dir + "/"@ + safe),
        reads_as(safe, alone),
        reads_as(dir + "/"@ + safe, behind),
    ensures
        stored_name(alone) == safe,
        stored_name(behind) == safe,
{
    lemma_read_alone(safe);
    lemma_read_behind(dir, safe);
}

proof fn lemma_read_alone(safe: Seq<char>)
    requires
        safe.len() > 0,
        !safe.contains('/'),
        !safe.contains('\\'),
        safe != "."@,
        safe != ".."@,
        !has_drive(safe),
    ensures
        !two_separators(safe),
        last_component(safe) == Some(safe),
        windows_component(safe) == Some(safe),
{
    lemma_slashed_is_same(safe);
    lemma_last_of_folder(Seq::empty(), safe);
    assert(Seq::<char>::empty() + safe =~= safe);
    assert(safe.contains(safe[0]));
}

proof fn lemma_read_behind(dir: Seq<char>, safe: Seq<char>)
    requires
        safe.len() > 0,
        !safe.contains('/'),
        !safe.contains('\\'),
        safe != "."@,
        safe != ".."@,
    ensures
        last_component(dir + "/"@ + safe) == Some(safe),
        windows_component(dir + "/"@ + safe) == Some(safe),
{
    reveal_strlit("/");
    let path = dir + "/"@ + safe;
    let folder = slashed(dir) + "/"@;
    lemma_slashed_is_same(safe);
    lemma_last_of_folder(dir + "/"@, safe);
    lemma_last_of_folder(folder, safe);
    assert(slashed(path) =~= folder + safe) by {
        assert(slashed(path) =~= slashed(dir) + slashed("/"@) + slashed(safe));
        assert(slashed("/"@) =~= "/"@);
    }
    if has_drive(path) {
        if dir.len() == 0 {
            assert(path[0] == '/');
        }
        if dir.len() == 1 {
            assert(path[1] == '/');
        }
        assert(slashed(path).skip(2) =~= folder.skip(2) + safe);
        assert(folder.skip(2).last() == '/');
        lemma_last_of_folder(folder.skip(2), safe);
    }
}

proof fn lemma_slashed_is_same(s: Seq<char>)
    requires
        !s.contains('\\'),
    ensures
        slashed(s) == s,
{
    assert forall|i: int| 0 <= i < s.len() implies slashed(s)[i] == s[i] by {
        assert(s.contains(s[i]));
    }
    assert(slashed(s) =~= s);
}

/// The last component of a name behind a folder.
proof fn lemma_last_of_folder(folder: Seq<char>, name: Seq<char>)
    requires
        name.len() > 0,
        !name.contains('/'),
        name != "."@,
        name != ".."@,
        folder.len() > 0 ==> folder.last() == '/',
    ensures
        last_component(folder + name) == Some(name),
{
    let path = folder + name;
    lemma_last_position_bounds(path, '/');
    assert(path.last() == name.last());
    assert(name.contains(name.last()));
    let at = last_position(path, '/');
    if at >= folder.len() {
        assert(name[at - folder.len()] == '/');
        assert(name.contains('/'));
    }
    if folder.len() > 0 {
        assert(path[folder.len() - 1] == '/');
    }
    assert(at == folder.len() - 1);
    assert(path.skip(at + 1) =~= name);
}

proof fn lemma_last_component_within(path: Seq<char>)
    ensures
        last_component(path) matches Some(name) ==> {
            &&& name.len() > 0
            &&& !name.contains('/')
            &&& forall|c: char| name.contains(c) ==> path.contains(c)
        },
    decreases path.len(),
{
    if path.len() > 0 {
        let shorter = path.drop_last();
        assert forall|c: char| shorter.contains(c) implies path.contains(c) by {
            let i = choose|i: int| 0 <= i < shorter.len() && shorter[i] == c;
            assert(path[i] == c);
        }
        lemma_last_component_within(shorter);
        lemma_last_position_bounds(path, '/');
        let from = last_position(path, '/') + 1;
        let name = path.skip(from);
        assert forall|c: char| name.contains(c) implies path.contains(c) && c != '/' by {
            let i = choose|i: int| 0 <= i < name.len() && name[i] == c;
            assert(path[from + i] == c);
        }
    }
}

/// The name that a file is stored under is not empty and has no separator.
pub proof fn law_stored_name_has_no_separator(name: Seq<char>)
    ensures
        stored_name(last_component(name)).len() > 0,
        !stored_name(last_component(name)).contains('/'),
{
    reveal_strlit("file");
    lemma_last_component_within(name);
    if let Some(component) = last_component(name) {
        lemma_trimmed_is_part(component);
        if trimmed(component).contains('/') {
            lemma_part_within(trimmed(component), component, '/');
        }
    }
}

/// The number that decimal digits stand for.
pub open spec fn value_of(digits: Seq<char>) -> int
    decreases digits.len(),
{
    if digits.len() == 0 {
        0
    } else {
        value_of(digits.drop_last()) * 10 + (digits.last() as u32 - 48)
    }
}

proof fn lemma_decimal_value(n: nat)
    ensures
        value_of(decimal(n)) == n,
        decimal(n).len() > 0,
    decreases n,
{
    if n < 10 {
        let one = seq![crate::text::digit(n)];
        assert(one.drop_last() =~= Seq::empty());
        assert(value_of(one.drop_last()) == 0);
    } else {
        lemma_decimal_value(n / 10);
        assert(decimal(n).drop_last() =~= decimal(n / 10));
    }
}

/// Different numbers are written differently.
pub proof fn law_decimal_is_injective(n: nat, m: nat)
    requires
        decimal(n) == decimal(m),
    ensures
        n == m,
{
    lemma_decimal_value(n);
    lemma_decimal_value(m);
}

proof fn lemma_number_within_candidate(parts: NameParts, n: nat)
    requires
        n > 0,
    ensures
        candidate_name(parts, n).len() == parts.stem.len() + 3 + decimal(n).len() + (
        if parts.ext.len() == 0 {
            0
        } else {
            parts.ext.len() + 1
        }),
        candidate_name(parts, n).subrange(
            parts.stem.len() + 2int,
            (parts.stem.len() + 2 + decimal(n).len()) as int,
        ) == decimal(n),
{
    reveal_strlit(" (");
    reveal_strlit(")");
    reveal_strlit(".");
    let name = candidate_name(parts, n);
    let from = parts.stem.len() + 2int;
    assert(name.subrange(from, from + decimal(n).len()) =~= decimal(n));
}

proof fn lemma_numbered_differs(name: Seq<char>, n: nat, m: nat)
    requires
        n != m,
        m > 0,
    ensures
        candidate_name(parts_for(name), n) != candidate_name(parts_for(name), m),
{
    let parts = parts_for(name);
    lemma_number_within_candidate(parts, m);
    lemma_decimal_value(m);
    if n > 0 {
        lemma_number_within_candidate(parts, n);
        if candidate_name(parts, n) == candidate_name(parts, m) {
            assert(decimal(n) == decimal(m));
            law_decimal_is_injective(n, m);
        }
    } else {
        lemma_base_is_short(name);
    }
}

/// No name is tried twice: the names that are tried for a file are all
/// different.
pub proof fn law_candidates_are_distinct(name: Seq<char>, n: nat, m: nat)
    requires
        n != m,
    ensures
        candidate_name(parts_for(name), n) != candidate_name(parts_for(name), m),
{
    if m > 0 {
        lemma_numbered_differs(name, n, m);
    } else {
        lemma_numbered_differs(name, m, n);
    }
}

/// The name itself is at most one character longer than its stem and
/// extension together.
proof fn lemma_base_is_short(name: Seq<char>)
    ensures
        parts_for(name).base.len() <= parts_for(name).stem.len() + 1 + parts_for(name).ext.len(),
{
    reveal_strlit("file");
    reveal_strlit(".");
    reveal_strlit("..");
    law_stored_name_has_no_separator(name);
    let base = stored_name(last_component(name));
    lemma_last_position_bounds(base, '/');
    lemma_last_position_bounds(base, '.');
    if last_position(base, '/') >= 0 {
        assert(base.contains('/'));
    }
    assert(base.skip(0) =~= base);
    assert(base.last() != '/') by {
        assert(base.contains(base.last()));
    }
}

/// The name that is settled on when the folder holds the names `taken`, after
/// `n` of them were found taken; nothing where all names are taken.
pub open spec fn settled_name(parts: NameParts, taken: Set<Seq<char>>, n: nat) -> Option<Seq<char>>
    decreases LAST_NUMBER + 1 - n,
{
    if !taken.contains(candidate_name(parts, n)) {
        Some(candidate_name(parts, n))
    } else if n < LAST_NUMBER {
        settled_name(parts, taken, n + 1)
    } else {
        None
    }
}

/// The name that a search settles on is free, and every name that was tried
/// before it is taken; a search gives up only where all names are taken.
pub proof fn law_settled_name_is_the_first_free(parts: NameParts, taken: Set<Seq<char>>, n: nat)
    requires
        n <= LAST_NUMBER,
    ensures
        match settled_name(parts, taken, n) {
            Some(name) => exists|k: nat|
                {
                    &&& n <= k <= LAST_NUMBER
                    &&& name == #[trigger] candidate_name(parts, k)
                    &&& !taken.contains(name)
                    &&& forall|j: nat|
                        n <= j < k ==> taken.contains(#[trigger] candidate_name(parts, j))
                },
            None => forall|j: nat|
                n <= j <= LAST_NUMBER ==> taken.contains(#[trigger] candidate_name(parts, j)),
        },
    decreases LAST_NUMBER + 1 - n,
{
    if taken.contains(candidate_name(parts, n)) && n < LAST_NUMBER {
        law_settled_name_is_the_first_free(parts, taken, n + 1);
        if let Some(name) = settled_name(parts, taken, n + 1) {
            let k = choose|k: nat|
                {
                    &&& n + 1 <= k <= LAST_NUMBER
                    &&& name == #[trigger] candidate_name(parts, k)
                    &&& !taken.contains(name)
                    &&& forall|j: nat|
                        n + 1 <= j < k ==> taken.contains(#[trigger] candidate_name(parts, j))
                };
            assert(forall|j: nat|
                n <= j < k ==> taken.contains(#[trigger] candidate_name(parts, j)));
        }
    }
}

proof fn lemma_last_dot_ignores_case(s: Seq<char>)
    ensures
        last_position(ascii_lowercase(s), '.') == last_position(s, '.'),
    decreases s.len(),
{
    if s.len() > 0 {
        assert(ascii_lower(s.last()) == '.' <==> s.last() == '.');
        assert(ascii_lowercase(s).drop_last() =~= ascii_lowercase(s.drop_last()));
        lemma_last_dot_ignores_case(s.drop_last());
    }
}

/// The guess at a type does not depend on the case of ASCII letters.
pub proof fn law_mime_ignores_case(a: Seq<char>, b: Seq<char>)
    requires
        ascii_lowercase(a) == ascii_lowercase(b),
    ensures
        mime_of(a) == mime_of(b),
{
    lemma_last_dot_ignores_case(a);
    lemma_last_dot_ignores_case(b);
    lemma_last_position_bounds(a, '.');
    lemma_last_position_bounds(b, '.');
    let from = last_position(a, '.') + 1;
    assert(a.len() == ascii_lowercase(a).len() && b.len() == ascii_lowercase(b).len());
    assert(ascii_lowercase(a.skip(from)) =~= ascii_lowercase(a).skip(from));
    assert(ascii_lowercase(b.skip(from)) =~= ascii_lowercase(b).skip(from));
}

} // verus!
