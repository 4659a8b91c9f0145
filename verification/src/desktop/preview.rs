//! Showing clips to the desktop application over HTTP: requests, byte ranges
//! and the heads of the answers.

use std::hash::{DefaultHasher, Hasher};
use vstd::prelude::*;
use vstd::std_specs::hash::DefaultHasherAdditionalSpecFns;
use vstd::string::*;
use crate::path;
use crate::stamp;
use crate::text;

verus! {

/// A clip that can be asked for.
#[derive(Debug)]
pub struct PreviewClip {
    pub id: String,
    pub path: String,
}

/// Where clips are shown, and which ones.
#[derive(Debug)]
pub struct ClipPreviewServer {
    pub base_url: String,
    pub clips: Vec<PreviewClip>,
}

/// `std::hash::Hash::hash` of a path writes what tells one path from another into
/// a hasher. Which bytes those are changes with the release of the standard
/// library and with the machine, so nothing is claimed of them.
#[verifier::external_body]
fn write_path(p: &str, hasher: &mut DefaultHasher) {
    std::hash::Hash::hash(std::path::Path::new(p), hasher)
}

/// The number that a hasher makes of a path.
fn path_hash(p: &str) -> (r: u64)
    ensures
        exists|written: Seq<Seq<u8>>| r == #[trigger] DefaultHasher::spec_finish(written),
{
    let mut hasher = DefaultHasher::new();
    write_path(p, &mut hasher);
    hasher.finish()
}

/// The identifier of a clip whose path has the given hash.
pub open spec fn clip_id(hash: u64) -> Seq<char> {
    text::zero_padded(text::hexadecimal(hash as nat), 16)
}

pub fn clip_id_of_hash(hash: u64) -> (r: String)
    ensures
        r@ == clip_id(hash),
{
    text::pad_with_zeros(text::hex_text(hash), 16)
}

pub fn preview_clip_id(p: &str) -> (r: String)
    ensures
        exists|hash: u64| r@ == #[trigger] clip_id(hash),
{
    clip_id_of_hash(path_hash(p))
}

/// The extension of a clip in its address.
pub open spec fn address_extension(p: Seq<char>) -> Seq<char> {
    match path::extension_of(p) {
        Some(ext) => text::ascii_lowered(ext),
        None => "webm"@,
    }
}

pub open spec fn clip_url(base_url: Seq<char>, id: Seq<char>, p: Seq<char>) -> Seq<char> {
    base_url + "/"@ + id + "."@ + address_extension(p)
}

/// The first clip with the identifier, if there is one.
pub open spec fn lookup(clips: Seq<PreviewClip>, id: Seq<char>) -> Option<Seq<char>>
    decreases clips.len(),
{
    if clips.len() == 0 {
        None
    } else if clips.last().id@ == id {
        Some(clips.last().path@)
    } else {
        lookup(clips.drop_last(), id)
    }
}

pub open spec fn ids_apart(clips: Seq<PreviewClip>) -> bool {
    forall|i: int, j: int|
        0 <= i < j < clips.len() ==> (#[trigger] clips[i]).id@ != (#[trigger] clips[j]).id@
}

impl ClipPreviewServer {
    /// No two clips have one identifier.
    pub open spec fn wf(self) -> bool {
        ids_apart(self.clips@)
    }

    pub fn new(base_url: String) -> (r: Self)
        ensures
            r.wf(),
            r.base_url == base_url,
            r.clips@.len() == 0,
    {
        ClipPreviewServer { base_url, clips: Vec::new() }
    }

    /// The path of the clip with the identifier.
    pub fn path_of(&self, id: &str) -> (r: Option<String>)
        ensures
            text::opt_text(r) == lookup(self.clips@, id@),
    {
        let mut end: usize = self.clips.len();
        assert(self.clips@.subrange(0, self.clips@.len() as int) == self.clips@);
        while end > 0
            invariant
                end <= self.clips.len(),
                lookup(self.clips@, id@) == lookup(self.clips@.subrange(0, end as int), id@),
            decreases end,
        {
            let ghost p = self.clips@.subrange(0, end as int);
            assert(p.last() == self.clips@[end - 1]);
            if text::same(self.clips[end - 1].id.as_str(), id) {
                return Some(self.clips[end - 1].path.clone());
            }
            assert(p.drop_last() == self.clips@.subrange(0, end - 1));
            end = end - 1;
        }
        None
    }

    /// A clip can be asked for under the identifier from now on.
    pub fn register(&mut self, id: String, p: String)
        requires
            old(self).wf(),
        ensures
            final(self).wf(),
            final(self).base_url == old(self).base_url,
            forall|other: Seq<char>|
                #[trigger] lookup(final(self).clips@, other) == (if other == id@ {
                    Some(p@)
                } else {
                    lookup(old(self).clips@, other)
                }),
    {
        let ghost before = self.clips@;
        let ghost wanted = id@;
        let ghost place = p@;
        let mut i: usize = 0;
        while i < self.clips.len()
            invariant
                i <= self.clips.len(),
                self.clips@ == before,
                self.base_url == old(self).base_url,
                forall|j: int| 0 <= j < i ==> (#[trigger] before[j]).id@ != wanted,
                wanted == id@,
                place == p@,
                ids_apart(before),
                before == old(self).clips@,
            decreases self.clips.len() - i,
        {
            if text::same(self.clips[i].id.as_str(), id.as_str()) {
                self.clips.set(i, PreviewClip { id, path: p });
                let ghost after = self.clips@;
                proof {
                    assert(ids_apart(after));
                    assert forall|other: Seq<char>| #[trigger] lookup(after, other) == (if other
                        == wanted {
                        Some(place)
                    } else {
                        lookup(before, other)
                    }) by {
                        lemma_lookup_replaced(before, after, i as int, other);
                    }
                }
                return;
            }
            i = i + 1;
        }
        self.clips.push(PreviewClip { id, path: p });
        proof {
            let after = self.clips@;
            assert(after.drop_last() == before);
        }
    }

    /// The address of a clip, which can be asked for from now on. `canonical` is
    /// the canonical path of the clip, where it could be had; `hash` its hash.
    pub fn url_for_hashed_path(&mut self, canonical: Option<&str>, hash: u64) -> (r: Option<String>)
        requires
            old(self).wf(),
        ensures
            final(self).wf(),
            final(self).base_url == old(self).base_url,
            match canonical {
                Some(p) => {
                    &&& text::opt_text(r) == Some(
                        clip_url(old(self).base_url@, clip_id(hash), p@),
                    )
                    &&& lookup(final(self).clips@, clip_id(hash)) == Some(p@)
                    &&& forall|other: Seq<char>|
                        other != clip_id(hash) ==> #[trigger] lookup(final(self).clips@, other)
                            == lookup(old(self).clips@, other)
                },
                None => r is None && *final(self) == *old(self),
            },
    {
        match canonical {
            None => None,
            Some(p) => {
                let id = clip_id_of_hash(hash);
                let mut url: String = text::join2(self.base_url.as_str(), "/");
                url.append(id.as_str());
                url.append(".");
                match path::extension(p) {
                    Some(ext) => {
                        url.append(text::to_ascii_lowercase(ext.as_str()).as_str());
                    },
                    None => {
                        url.append("webm");
                    },
                }
                self.register(id, p.to_owned());
                Some(url)
            },
        }
    }

    /// The address of a clip, which can be asked for from now on.
    pub fn url_for_path(&mut self, canonical: Option<&str>) -> (r: Option<String>)
        requires
            old(self).wf(),
        ensures
            final(self).wf(),
            final(self).base_url == old(self).base_url,
            match canonical {
                Some(p) => exists|hash: u64|
                    {
                        &&& text::opt_text(r) == Some(
                            clip_url(old(self).base_url@, #[trigger] clip_id(hash), p@),
                        )
                        &&& lookup(final(self).clips@, clip_id(hash)) == Some(p@)
                        &&& forall|other: Seq<char>|
                            other != clip_id(hash) ==> #[trigger] lookup(final(self).clips@, other)
                                == lookup(old(self).clips@, other)
                    },
                None => r is None && *final(self) == *old(self),
            },
    {
        let hash: u64 = match canonical {
            Some(p) => path_hash(p),
            None => 0,
        };
        self.url_for_hashed_path(canonical, hash)
    }
}

proof fn lemma_lookup_replaced(
    before: Seq<PreviewClip>,
    after: Seq<PreviewClip>,
    i: int,
    other: Seq<char>,
)
    requires
        0 <= i < before.len(),
        ids_apart(before),
        after.len() == before.len(),
        after[i].id@ == before[i].id@,
        forall|j: int| 0 <= j < before.len() && j != i ==> after[j] == before[j],
    ensures
        lookup(after, other) == (if other == before[i].id@ {
            Some(after[i].path@)
        } else {
            lookup(before, other)
        }),
    decreases before.len(),
{
    let last = before.len() - 1;
    if i == last {
        assert(after.drop_last() =~= before.drop_last());
        if other == before[i].id@ {
        } else {
        }
    } else {
        assert(before[i].id@ != before[last].id@);
        let b = before.drop_last();
        let a = after.drop_last();
        assert(ids_apart(b));
        lemma_lookup_replaced(b, a, i, other);
    }
}

/// How a request is answered, as far as it is known before the clip is looked
/// for.
#[derive(Debug)]
pub enum PreviewAsked {
    /// There is no request; the connection is closed.
    Nothing,
    /// Only a status is sent.
    Refused(&'static str),
    /// The clip with the identifier is asked for.
    Clip { id: String, head_only: bool, range: Option<String> },
}

pub open spec fn first_line(request: Seq<char>) -> Option<Seq<char>> {
    let lines = text::lines_of(request);
    if lines.len() == 0 {
        None
    } else {
        Some(lines[0])
    }
}

pub open spec fn word_at(line: Seq<char>, i: int) -> Seq<char> {
    let words = text::words_of(line);
    if i < words.len() {
        words[i]
    } else {
        seq![]
    }
}

/// The identifier in the address of a clip; none where the address is none of a
/// clip.
pub open spec fn asked_id(address: Seq<char>) -> Option<Seq<char>> {
    match text::rsplit_once_of(text::trim_start_char_of(address, '/'), '.') {
        Some(parts) => if parts.0.len() > 0 && (parts.1 == "webm"@ || parts.1 == "mp4"@) {
            Some(parts.0)
        } else {
            None
        },
        None => None,
    }
}

/// What follows `Range: bytes=` in the first line that begins with it.
pub open spec fn range_header(lines: Seq<Seq<char>>) -> Option<Seq<char>>
    decreases lines.len(),
{
    if lines.len() == 0 {
        None
    } else {
        match range_header(lines.drop_last()) {
            Some(range) => Some(range),
            None => text::strip_prefix_of(lines.last(), "Range: bytes="@),
        }
    }
}

fn find_range(lines: &Vec<String>) -> (r: Option<String>)
    ensures
        text::opt_text(r) == range_header(text::texts(lines@)),
{
    let ghost all = text::texts(lines@);
    let mut found: Option<String> = None;
    let mut i: usize = 0;
    while i < lines.len()
        invariant
            i <= lines.len(),
            all == text::texts(lines@),
            text::opt_text(found) == range_header(all.subrange(0, i as int)),
        decreases lines.len() - i,
    {
        let ghost next = all.subrange(0, i + 1);
        assert(next.drop_last() == all.subrange(0, i as int));
        assert(next.last() == lines@[i as int]@);
        if found.is_none() {
            found = match text::strip_prefix(lines[i].as_str(), "Range: bytes=") {
                Some(range) => Some(range.to_owned()),
                None => None,
            };
        }
        i = i + 1;
    }
    assert(all.subrange(0, all.len() as int) == all);
    found
}

/// What is asked for, from the text of a request.
pub fn read_preview_request(request: &str) -> (r: PreviewAsked)
    ensures
        match first_line(request@) {
            None => r is Nothing,
            Some(line) => {
                let method = word_at(line, 0);
                if method != "GET"@ && method != "HEAD"@ {
                    r matches PreviewAsked::Refused(status) && status@ == "405 Method Not Allowed"@
                } else {
                    match asked_id(word_at(line, 1)) {
                        None => r matches PreviewAsked::Refused(status) && status@
                            == "404 Not Found"@,
                        Some(wanted) => r matches PreviewAsked::Clip { id, head_only, range }
                            && id@ == wanted && head_only == (method == "HEAD"@)
                            && text::opt_text(range) == range_header(text::lines_of(request@)),
                    }
                }
            },
        },
{
    let lines = text::lines(request);
    assert(text::texts(lines@).len() == lines@.len());
    if lines.len() == 0 {
        return PreviewAsked::Nothing;
    }
    assert(text::texts(lines@)[0] == lines@[0]@);
    let words = text::split_whitespace(lines[0].as_str());
    let method: String = word(&words, 0);
    let address: String = word(&words, 1);
    let head_only: bool = text::same(method.as_str(), "HEAD");
    if !head_only && !text::same(method.as_str(), "GET") {
        return PreviewAsked::Refused("405 Method Not Allowed");
    }
    match text::rsplit_once(text::trim_start_char(address.as_str(), '/'), '.') {
        Some((id, extension)) => {
            if id.unicode_len() == 0 || !(text::same(extension, "webm") || text::same(
                extension,
                "mp4",
            )) {
                return PreviewAsked::Refused("404 Not Found");
            }
            PreviewAsked::Clip { id: id.to_owned(), head_only, range: find_range(&lines) }
        },
        None => PreviewAsked::Refused("404 Not Found"),
    }
}

fn word(words: &Vec<String>, i: usize) -> (r: String)
    ensures
        r@ == (if i < words@.len() {
            text::texts(words@)[i as int]
        } else {
            seq![]
        }),
{
    if i < words.len() {
        words[i].clone()
    } else {
        String::new()
    }
}

/// What is asked for, from the bytes of a request.
pub fn handle_preview_request(request: &[u8]) -> (r: PreviewAsked)
    ensures
        first_line(text::text_in(request@)) is None ==> r is Nothing,
        r matches PreviewAsked::Clip { id, head_only, range } ==> {
            let line = first_line(text::text_in(request@))->0;
            &&& asked_id(word_at(line, 1)) == Some(id@)
            &&& head_only == (word_at(line, 0) == "HEAD"@)
            &&& (head_only || word_at(line, 0) == "GET"@)
            &&& text::opt_text(range) == range_header(text::lines_of(text::text_in(request@)))
        },
        r matches PreviewAsked::Refused(status) ==> {
            let line = first_line(text::text_in(request@))->0;
            let known = word_at(line, 0) == "GET"@ || word_at(line, 0) == "HEAD"@;
            &&& status@ == (if known {
                "404 Not Found"@
            } else {
                "405 Method Not Allowed"@
            })
            &&& known ==> asked_id(word_at(line, 1)) is None
        },
        r is Nothing ==> first_line(text::text_in(request@)) is None,
{
    let asked = text::from_utf8_lossy(request);
    read_preview_request(asked.as_str())
}

/// The first and the last byte that a range asks for, in a file of the given
/// size; none where the range cannot be met.
pub open spec fn byte_range(range: Seq<char>, size: u64) -> Option<(int, int)> {
    match text::split_once_of(range, '-') {
        Some(parts) => {
            let from = text::parse_unsigned(parts.0, u64::MAX as nat);
            let to = text::parse_unsigned(parts.1, u64::MAX as nat);
            let start: Option<int> = if parts.0.len() > 0 {
                match from {
                    Some(n) => Some(n as int),
                    None => None,
                }
            } else {
                match to {
                    Some(n) => Some(
                        if n <= size {
                            size - n
                        } else {
                            0
                        },
                    ),
                    None => None,
                }
            };
            let end: Option<int> = if parts.1.len() == 0 {
                Some(size - 1)
            } else {
                match to {
                    Some(n) => Some(
                        if n <= size - 1 {
                            n as int
                        } else {
                            size - 1
                        },
                    ),
                    None => None,
                }
            };
            match (start, end) {
                (Some(a), Some(b)) => if size > 0 && a <= b && a < size {
                    Some((a, b))
                } else {
                    None
                },
                _ => None,
            }
        },
        None => None,
    }
}

pub fn parse_byte_range(range: &str, size: u64) -> (r: Option<(u64, u64)>)
    ensures
        match r {
            Some(bytes) => byte_range(range@, size) == Some((bytes.0 as int, bytes.1 as int)),
            None => byte_range(range@, size) is None,
        },
{
    if size == 0 {
        return None;
    }
    match text::split_once(range, '-') {
        None => None,
        Some((from, to)) => {
            let start: u64 = if from.unicode_len() == 0 {
                match text::parse_u64(to) {
                    Some(n) => if n <= size {
                        size - n
                    } else {
                        0
                    },
                    None => {
                        return None;
                    },
                }
            } else {
                match text::parse_u64(from) {
                    Some(n) => n,
                    None => {
                        return None;
                    },
                }
            };
            let end: u64 = if to.unicode_len() == 0 {
                size - 1
            } else {
                match text::parse_u64(to) {
                    Some(n) => if n <= size - 1 {
                        n
                    } else {
                        size - 1
                    },
                    None => {
                        return None;
                    },
                }
            };
            if start <= end && start < size {
                Some((start, end))
            } else {
                None
            }
        },
    }
}

/// A range that can be met lies within the file.
pub proof fn lemma_range_is_in_file(range: Seq<char>, size: u64)
    ensures
        byte_range(range, size) matches Some(bytes) ==> 0 <= bytes.0 <= bytes.1 < size,
{
}

/// The kind of a video, by its extension.
pub open spec fn content_type_of(p: Seq<char>) -> Seq<char> {
    match path::extension_of(p) {
        Some(ext) => if text::ascii_lowered(ext) == "mp4"@ {
            "video/mp4"@
        } else {
            "video/webm"@
        },
        None => "video/webm"@,
    }
}

pub fn video_content_type(p: &str) -> (r: &'static str)
    ensures
        r@ == content_type_of(p@),
{
    match path::extension(p) {
        Some(ext) => if text::same(text::to_ascii_lowercase(ext.as_str()).as_str(), "mp4") {
            "video/mp4"
        } else {
            "video/webm"
        },
        None => "video/webm",
    }
}

/// An answer that is a status and nothing more.
pub fn http_status(status: &str) -> (r: String)
    ensures
        r@ == "HTTP/1.1 "@ + status@ + "\r\nContent-Length: 0\r\nConnection: close\r\n\r\n"@,
{
    let mut r: String = text::join2("HTTP/1.1 ", status);
    r.append("\r\nContent-Length: 0\r\nConnection: close\r\n\r\n");
    r
}

/// The answer with a clip: its head, and which bytes follow.
#[derive(Debug)]
pub struct PreviewAnswer {
    pub head: String,
    pub start: u64,
    pub length: u64,
}

/// The bytes that are sent: those of a range that can be met, else all.
pub open spec fn sent_bytes(range: Option<Seq<char>>, size: u64) -> (int, int) {
    match range {
        Some(range) => match byte_range(range, size) {
            Some(bytes) => bytes,
            None => whole(size),
        },
        None => whole(size),
    }
}

pub open spec fn whole(size: u64) -> (int, int) {
    (
        0,
        if size > 0 {
            size - 1
        } else {
            0
        },
    )
}

pub open spec fn is_partial(range: Option<Seq<char>>, size: u64) -> bool {
    range matches Some(range) && byte_range(range, size) is Some
}

/// The head of the answer with a clip.
pub open spec fn answer_head(p: Seq<char>, range: Option<Seq<char>>, size: u64) -> Seq<char> {
    let bytes = sent_bytes(range, size);
    let content_range = if is_partial(range, size) {
        "Content-Range: bytes "@ + text::decimal(bytes.0 as nat) + "-"@ + text::decimal(
            bytes.1 as nat,
        ) + "/"@ + text::decimal(size as nat) + "\r\n"@
    } else {
        seq![]
    };
    "HTTP/1.1 "@ + (if is_partial(range, size) {
        "206 Partial Content"@
    } else {
        "200 OK"@
    }) + "\r\nContent-Type: "@ + content_type_of(p) + "\r\nAccept-Ranges: bytes\r\n"@
        + content_range + "Content-Length: "@ + text::decimal((bytes.1 - bytes.0 + 1) as nat)
        + "\r\nConnection: close\r\n\r\n"@
}

pub fn preview_answer(p: &str, range: &Option<String>, size: u64) -> (r: PreviewAnswer)
    ensures
        ({
            let bytes = sent_bytes(text::opt_text(*range), size);
            &&& r.start == bytes.0
            &&& r.length == bytes.1 - bytes.0 + 1
            &&& r.head@ == answer_head(p@, text::opt_text(*range), size)
        }),
{
    let bytes: Option<(u64, u64)> = match range {
        Some(range) => parse_byte_range(range.as_str(), size),
        None => None,
    };
    let mut content_range: String = String::new();
    let status: &str;
    let start: u64;
    let end: u64;
    match bytes {
        Some((from, to)) => {
            start = from;
            end = to;
            status = "206 Partial Content";
            content_range.append("Content-Range: bytes ");
            content_range.append(text::decimal_text(start as u128).as_str());
            content_range.append("-");
            content_range.append(text::decimal_text(end as u128).as_str());
            content_range.append("/");
            content_range.append(text::decimal_text(size as u128).as_str());
            content_range.append("\r\n");
            assert(content_range@ =~= "Content-Range: bytes "@ + text::decimal(start as nat) + "-"@
                + text::decimal(end as nat) + "/"@ + text::decimal(size as nat) + "\r\n"@);
        },
        None => {
            start = 0;
            end = if size > 0 {
                size - 1
            } else {
                0
            };
            status = "200 OK";
            assert(content_range@ =~= Seq::<char>::empty());
        },
    }
    let length: u64 = end - start + 1;
    let mut head: String = text::join2("HTTP/1.1 ", status);
    head.append("\r\nContent-Type: ");
    head.append(video_content_type(p));
    head.append("\r\nAccept-Ranges: bytes\r\n");
    head.append(content_range.as_str());
    head.append("Content-Length: ");
    head.append(text::decimal_text(length as u128).as_str());
    head.append("\r\nConnection: close\r\n\r\n");
    PreviewAnswer { head, start, length }
}

/// What is sent ends within the file, unless the file is empty.
pub proof fn lemma_answer_is_in_file(range: Option<Seq<char>>, size: u64)
    requires
        size > 0,
    ensures
        0 <= sent_bytes(range, size).0 <= sent_bytes(range, size).1 < size,
{
}

/// How many bytes of a clip are sent at once.
pub const CHUNK: usize = 65_536;

/// How many bytes are read next, where so many are still to be sent.
pub fn next_chunk(remaining: u64) -> (r: usize)
    ensures
        r == (if remaining < CHUNK {
            remaining as int
        } else {
            CHUNK as int
        }),
        remaining > 0 ==> r > 0,
{
    if remaining < CHUNK as u64 {
        remaining as usize
    } else {
        CHUNK
    }
}

/// How many bytes are still to be sent after some have been.
pub fn after_chunk(remaining: u64, sent: usize) -> (r: u64)
    ensures
        r == (if sent <= remaining {
            remaining - sent
        } else {
            0
        }),
{
    if sent as u64 <= remaining {
        remaining - sent as u64
    } else {
        0
    }
}

proof fn lemma_hexadecimal(n: nat)
    ensures
        text::hexadecimal(n).len() > 0,
        forall|i: int|
            0 <= i < text::hexadecimal(n).len() ==> stamp::is_lower_hex(
                #[trigger] text::hexadecimal(n)[i],
            ),
    decreases n,
{
    if n >= 16 {
        lemma_hexadecimal(n / 16);
    }
}

proof fn lemma_zero_padded(s: Seq<char>, width: nat)
    requires
        s.len() > 0,
        forall|i: int| 0 <= i < s.len() ==> stamp::is_lower_hex(#[trigger] s[i]),
    ensures
        text::zero_padded(s, width).len() > 0,
        forall|i: int|
            0 <= i < text::zero_padded(s, width).len() ==> stamp::is_lower_hex(
                #[trigger] text::zero_padded(s, width)[i],
            ),
    decreases width - s.len(),
{
    if s.len() < width {
        lemma_zero_padded(seq!['0'] + s, width);
    }
}

/// The address that is handed out for a clip leads back to it: a request for
/// the address is understood as one for the clip's identifier, under which the
/// clip can be found from then on.
pub proof fn lemma_address_leads_to_clip(hash: u64, p: Seq<char>)
    requires
        address_extension(p) == "webm"@ || address_extension(p) == "mp4"@,
    ensures
        asked_id(clip_url(Seq::empty(), clip_id(hash), p)) == Some(clip_id(hash)),
{
    let id = clip_id(hash);
    let ext = address_extension(p);
    lemma_hexadecimal(hash as nat);
    lemma_zero_padded(text::hexadecimal(hash as nat), 16);
    reveal_strlit("webm");
    reveal_strlit("mp4");
    reveal_strlit("/");
    reveal_strlit(".");
    let address = clip_url(Seq::empty(), id, p);
    let rest = id + "."@ + ext;
    assert(address =~= seq!['/'] + rest);
    assert(address.drop_first() =~= rest);
    assert(stamp::is_lower_hex(id[0]));
    assert(rest[0] == id[0]);
    assert(text::trim_start_char_of(rest, '/') == rest);
    assert(text::trim_start_char_of(address, '/') == rest);
    assert(rest[id.len() as int] == '.');
    assert forall|i: int| id.len() < i < rest.len() implies rest[i] != '.' by {
        assert(rest[i] == ext[i - id.len() - 1]);
    }
    lemma_last_index(rest, '.', id.len() as int);
    assert(rest.subrange(0, id.len() as int) =~= id);
    assert(rest.subrange((id.len() + 1) as int, rest.len() as int) =~= ext);
}

proof fn lemma_last_index(s: Seq<char>, c: char, k: int)
    requires
        0 <= k < s.len(),
        s[k] == c,
        forall|i: int| k < i < s.len() ==> s[i] != c,
    ensures
        text::last_index_of_char(s, c) == k,
    decreases s.len(),
{
    if k < s.len() - 1 {
        lemma_last_index(s.drop_last(), c, k);
    }
}

/// A range of two numbers asks for the bytes from the first to the second, or to
/// the end of the file where that comes before. A range without its second number
/// asks for all from the first on, and one without its first number for as many
/// bytes as it says, from the end.
pub proof fn lemma_ranges_ask_for_bytes(a: u64, b: u64, size: u64)
    requires
        size > 0,
    ensures
        a <= b && a < size ==> byte_range(
            text::decimal(a as nat) + seq!['-'] + text::decimal(b as nat),
            size,
        ) == Some(
            (
                a as int,
                if b < size {
                    b as int
                } else {
                    size - 1
                },
            ),
        ),
        a < size ==> byte_range(text::decimal(a as nat) + seq!['-'], size) == Some(
            (a as int, size - 1),
        ),
        a >= size ==> byte_range(text::decimal(a as nat) + seq!['-'], size) is None,
        a > b || a >= size ==> byte_range(
            text::decimal(a as nat) + seq!['-'] + text::decimal(b as nat),
            size,
        ) is None,
{
    let x = text::decimal(a as nat);
    let y = text::decimal(b as nat);
    text::lemma_decimal_value(a as nat);
    text::lemma_parse_decimal(a as nat, u64::MAX as nat);
    text::lemma_parse_decimal(b as nat, u64::MAX as nat);
    text::lemma_decimal_value(b as nat);
    let both = x + seq!['-'] + y;
    let one = x + seq!['-'];
    assert forall|j: int| 0 <= j < x.len() implies both[j] != '-' && one[j] != '-' by {
        assert(both[j] == x[j]);
        assert(text::is_digit(x[j]));
    }
    text::lemma_index_of_char_is(both, '-', x.len() as int);
    text::lemma_index_of_char_is(one, '-', x.len() as int);
    assert(both.subrange(0, x.len() as int) =~= x);
    assert(both.subrange(x.len() as int + 1, both.len() as int) =~= y);
    assert(one.subrange(0, x.len() as int) =~= x);
    assert(one.subrange(x.len() as int + 1, one.len() as int) =~= Seq::<char>::empty());
}

/// A part of a clip is sent as such, with the range that it is, and a whole clip
/// as a whole, each with its length and its kind.
pub proof fn lemma_answer_says_what_is_sent(p: Seq<char>, range: Option<Seq<char>>, size: u64)
    ensures
        ({
            let head = answer_head(p, range, size);
            let bytes = sent_bytes(range, size);
            let partial = range is Some && byte_range(range->0, size) is Some;
            &&& partial ==> {
                &&& text::has_prefix(head, "HTTP/1.1 "@ + "206 Partial Content"@)
                &&& text::occurs_in(
                    head,
                    "Content-Range: bytes "@ + text::decimal(bytes.0 as nat) + "-"@ + text::decimal(
                        bytes.1 as nat,
                    ) + "/"@ + text::decimal(size as nat) + "\r\n"@,
                )
                &&& bytes == byte_range(range->0, size)->0
            }
            &&& !partial ==> {
                &&& text::has_prefix(head, "HTTP/1.1 "@ + "200 OK"@)
                &&& bytes.0 == 0
                &&& size > 0 ==> bytes.1 == size - 1
            }
            &&& text::has_suffix(
                head,
                "Content-Length: "@ + text::decimal((bytes.1 - bytes.0 + 1) as nat)
                    + "\r\nConnection: close\r\n\r\n"@,
            )
        }),
{
    let head = answer_head(p, range, size);
    let bytes = sent_bytes(range, size);
    let partial = is_partial(range, size);
    let status = if partial {
        "206 Partial Content"@
    } else {
        "200 OK"@
    };
    let start = "HTTP/1.1 "@ + status;
    let middle = "\r\nContent-Type: "@ + content_type_of(p) + "\r\nAccept-Ranges: bytes\r\n"@;
    let part = "Content-Range: bytes "@ + text::decimal(bytes.0 as nat) + "-"@ + text::decimal(
        bytes.1 as nat,
    ) + "/"@ + text::decimal(size as nat) + "\r\n"@;
    let said = if partial {
        part
    } else {
        Seq::empty()
    };
    let end = "Content-Length: "@ + text::decimal((bytes.1 - bytes.0 + 1) as nat)
        + "\r\nConnection: close\r\n\r\n"@;
    assert(head =~= start + middle + said + end);
    assert(head.subrange(0, start.len() as int) =~= start);
    assert(head.subrange(head.len() - end.len(), head.len() as int) =~= end);
    if partial {
        let at = (start + middle).len() as int;
        assert(head.subrange(at, at + part.len()) =~= part);
        assert(text::matches_at(head, part, at));
    }
}

/// A video is sent as what it is: MP4 by its extension in any case, WebM else.
pub proof fn lemma_kind_follows_the_extension(p: Seq<char>, ext: Seq<char>)
    requires
        path::extension_of(p) == Some(ext),
    ensures
        text::ascii_lowered(ext) == "mp4"@ ==> content_type_of(p) == "video/mp4"@,
        text::ascii_lowered(ext) == "webm"@ ==> content_type_of(p) == "video/webm"@,
        address_extension(p) == text::ascii_lowered(ext),
{
    reveal_strlit("mp4");
    reveal_strlit("webm");
    assert("mp4"@.len() == 3);
    assert("webm"@.len() == 4);
}

/// A clip is found under its identifier and no other.
pub proof fn lemma_lookup(clips: Seq<PreviewClip>, i: int)
    requires
        ids_apart(clips),
        0 <= i < clips.len(),
    ensures
        lookup(clips, clips[i].id@) == Some(clips[i].path@),
        forall|id: Seq<char>|
            (forall|j: int| 0 <= j < clips.len() ==> (#[trigger] clips[j]).id@ != id)
                ==> #[trigger] lookup(clips, id) is None,
    decreases clips.len(),
{
    let t = clips.drop_last();
    assert forall|a: int, b: int| 0 <= a < b < t.len() implies (#[trigger] t[a]).id@ != (
    #[trigger] t[b]).id@ by {
        assert(t[a] == clips[a] && t[b] == clips[b]);
    }
    if i < clips.len() - 1 {
        assert(clips[clips.len() - 1].id@ != clips[i].id@);
        lemma_lookup(t, i);
        assert(t[i] == clips[i]);
    }
    assert forall|id: Seq<char>|
        (forall|j: int| 0 <= j < clips.len() ==> (#[trigger] clips[j]).id@ != id)
            implies #[trigger] lookup(clips, id) is None by {
        lemma_nothing_found(clips, id);
    }
}

proof fn lemma_nothing_found(clips: Seq<PreviewClip>, id: Seq<char>)
    requires
        forall|j: int| 0 <= j < clips.len() ==> (#[trigger] clips[j]).id@ != id,
    ensures
        lookup(clips, id) is None,
    decreases clips.len(),
{
    if clips.len() > 0 {
        let t = clips.drop_last();
        assert(clips[clips.len() - 1].id@ != id);
        assert forall|j: int| 0 <= j < t.len() implies (#[trigger] t[j]).id@ != id by {
            assert(t[j] == clips[j]);
        }
        lemma_nothing_found(t, id);
    }
}

}
