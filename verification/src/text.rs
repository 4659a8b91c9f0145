//! Text as sequences of characters: what trimming, searching, cutting and
//! number notation mean, and functions that compute them.

use vstd::prelude::*;
use vstd::string::*;
use vstd::utf8::*;

verus! {

/// `String::push` appends one character at the end.
pub assume_specification[ String::push ](s: &mut String, c: char)
    ensures
        final(s)@ == old(s)@.push(c),
;

/// What `String::from_utf8_lossy` reads in `bytes`.
pub uninterp spec fn utf8_lossy(bytes: Seq<u8>) -> Seq<char>;

/// `String::from_utf8_lossy` turns bytes into text. Of bytes that are UTF-8 it
/// claims that the text is the one they encode; what stands in for other bytes
/// is only named.
#[verifier::external_body]
pub(crate) fn from_utf8_lossy(bytes: &[u8]) -> (r: String)
    ensures
        r@ == utf8_lossy(bytes@),
        valid_utf8(bytes@) ==> r@ == decode_utf8(bytes@),
{
    String::from_utf8_lossy(bytes).into_owned()
}

/// The text in `bytes`: what they encode where they are UTF-8, else what
/// `String::from_utf8_lossy` reads in them.
pub open spec fn text_in(bytes: Seq<u8>) -> Seq<char> {
    if valid_utf8(bytes) {
        decode_utf8(bytes)
    } else {
        utf8_lossy(bytes)
    }
}

/// `std::str::from_utf8` reads bytes as text: the text that they encode, and
/// none where they are not UTF-8.
#[verifier::external_body]
pub(crate) fn from_utf8(bytes: &[u8]) -> (r: Option<&str>)
    ensures
        match r {
            Some(t) => valid_utf8(bytes@) && t@ == decode_utf8(bytes@),
            None => !valid_utf8(bytes@),
        },
{
    std::str::from_utf8(bytes).ok()
}

/// What `str::to_lowercase` makes of `s`.
pub uninterp spec fn lowercase(s: Seq<char>) -> Seq<char>;

/// `str::to_lowercase` gives a text in lower case. The mapping is only named,
/// but for ASCII text, where every letter becomes its lower case form and
/// everything else stays.
#[verifier::external_body]
pub(crate) fn to_lowercase(s: &str) -> (r: String)
    ensures
        r@ == lowercase(s@),
        is_ascii_chars(s@) ==> r@ == ascii_lowered(s@),
{
    s.to_lowercase()
}

/// `s` in lower case: letter by letter where it is ASCII, else as
/// `str::to_lowercase` gives it.
pub open spec fn lowered(s: Seq<char>) -> Seq<char> {
    if is_ascii_chars(s) {
        ascii_lowered(s)
    } else {
        lowercase(s)
    }
}

/// The characters with the Unicode property `White_Space`.
pub open spec fn is_space(c: char) -> bool {
    let n = c as int;
    ||| 0x09 <= n <= 0x0d
    ||| n == 0x20
    ||| n == 0x85
    ||| n == 0xa0
    ||| n == 0x1680
    ||| 0x2000 <= n <= 0x200a
    ||| n == 0x2028
    ||| n == 0x2029
    ||| n == 0x202f
    ||| n == 0x205f
    ||| n == 0x3000
}

pub fn is_whitespace(c: char) -> (r: bool)
    ensures
        r == is_space(c),
{
    let n: u32 = c as u32;
    (0x09 <= n && n <= 0x0d) || n == 0x20 || n == 0x85 || n == 0xa0 || n == 0x1680 || (0x2000 <= n
        && n <= 0x200a) || n == 0x2028 || n == 0x2029 || n == 0x202f || n == 0x205f || n == 0x3000
}

/// The characters of a text, one by one.
pub fn chars_of(s: &str) -> (v: Vec<char>)
    ensures
        v@ == s@,
{
    let mut v: Vec<char> = Vec::new();
    for c in it: s.chars()
        invariant
            it.seq() == s@,
            v@ == s@.subrange(0, it.index() as int),
    {
        v.push(c);
    }
    v
}

/// A text made of the given characters.
pub fn text_of(v: &[char]) -> (s: String)
    ensures
        s@ == v@,
{
    let mut s: String = String::new();
    let mut i: usize = 0;
    while i < v.len()
        invariant
            i <= v.len(),
            s@ == v@.subrange(0, i as int),
        decreases v.len() - i,
    {
        s.push(v[i]);
        i = i + 1;
    }
    assert(v@.subrange(0, v@.len() as int) == v@);
    s
}

pub fn same(a: &str, b: &str) -> (r: bool)
    ensures
        r == (a@ == b@),
{
    a.to_owned() == b.to_owned()
}

pub fn join2(a: &str, b: &str) -> (r: String)
    ensures
        r@ == a@ + b@,
{
    let mut r: String = a.to_owned();
    r.append(b);
    r
}


/// What is left of `s` without the white space at its start.
pub open spec fn trim_start_of(s: Seq<char>) -> Seq<char>
    decreases s.len(),
{
    if s.len() > 0 && is_space(s[0]) {
        trim_start_of(s.drop_first())
    } else {
        s
    }
}

/// What is left of `s` without the white space at its end.
pub open spec fn trim_end_of(s: Seq<char>) -> Seq<char>
    decreases s.len(),
{
    if s.len() > 0 && is_space(s.last()) {
        trim_end_of(s.drop_last())
    } else {
        s
    }
}

/// What is left of `s` without white space at either end.
pub open spec fn trim_of(s: Seq<char>) -> Seq<char> {
    trim_end_of(trim_start_of(s))
}

pub fn trim_start(s: &str) -> (r: &str)
    ensures
        r@ == trim_start_of(s@),
{
    let v = chars_of(s);
    let mut i: usize = 0;
    assert(s@.subrange(0, s@.len() as int) == s@);
    while i < v.len() && is_whitespace(v[i])
        invariant
            i <= v.len(),
            v@ == s@,
            trim_start_of(s@) == trim_start_of(s@.subrange(i as int, s@.len() as int)),
        decreases v.len() - i,
    {
        assert(s@.subrange(i as int, s@.len() as int).drop_first() == s@.subrange(
            i + 1,
            s@.len() as int,
        ));
        i = i + 1;
    }
    s.substring_char(i, v.len())
}

pub fn trim_end(s: &str) -> (r: &str)
    ensures
        r@ == trim_end_of(s@),
{
    let v = chars_of(s);
    let mut j: usize = v.len();
    assert(s@.subrange(0, s@.len() as int) == s@);
    while j > 0 && is_whitespace(v[j - 1])
        invariant
            j <= v.len(),
            v@ == s@,
            trim_end_of(s@) == trim_end_of(s@.subrange(0, j as int)),
        decreases j,
    {
        assert(s@.subrange(0, j as int).drop_last() == s@.subrange(0, j - 1));
        j = j - 1;
    }
    s.substring_char(0, j)
}

pub fn trim(s: &str) -> (r: &str)
    ensures
        r@ == trim_of(s@),
{
    trim_end(trim_start(s))
}

/// `s` without the leading characters equal to `c`.
pub open spec fn trim_start_char_of(s: Seq<char>, c: char) -> Seq<char>
    decreases s.len(),
{
    if s.len() > 0 && s[0] == c {
        trim_start_char_of(s.drop_first(), c)
    } else {
        s
    }
}

/// `s` without the trailing characters equal to `c`.
pub open spec fn trim_end_char_of(s: Seq<char>, c: char) -> Seq<char>
    decreases s.len(),
{
    if s.len() > 0 && s.last() == c {
        trim_end_char_of(s.drop_last(), c)
    } else {
        s
    }
}

pub fn trim_start_char(s: &str, c: char) -> (r: &str)
    ensures
        r@ == trim_start_char_of(s@, c),
{
    let v = chars_of(s);
    let mut i: usize = 0;
    assert(s@.subrange(0, s@.len() as int) == s@);
    while i < v.len() && v[i] == c
        invariant
            i <= v.len(),
            v@ == s@,
            trim_start_char_of(s@, c) == trim_start_char_of(
                s@.subrange(i as int, s@.len() as int),
                c,
            ),
        decreases v.len() - i,
    {
        assert(s@.subrange(i as int, s@.len() as int).drop_first() == s@.subrange(
            i + 1,
            s@.len() as int,
        ));
        i = i + 1;
    }
    s.substring_char(i, v.len())
}

pub fn trim_end_char(s: &str, c: char) -> (r: &str)
    ensures
        r@ == trim_end_char_of(s@, c),
{
    let v = chars_of(s);
    let mut j: usize = v.len();
    assert(s@.subrange(0, s@.len() as int) == s@);
    while j > 0 && v[j - 1] == c
        invariant
            j <= v.len(),
            v@ == s@,
            trim_end_char_of(s@, c) == trim_end_char_of(s@.subrange(0, j as int), c),
        decreases j,
    {
        assert(s@.subrange(0, j as int).drop_last() == s@.subrange(0, j - 1));
        j = j - 1;
    }
    s.substring_char(0, j)
}

/// `n` stands in `h` from position `i` on.
pub open spec fn matches_at(h: Seq<char>, n: Seq<char>, i: int) -> bool {
    &&& 0 <= i
    &&& i + n.len() <= h.len()
    &&& h.subrange(i, i + n.len()) == n
}

/// `n` stands somewhere in `h`.
pub open spec fn occurs_in(h: Seq<char>, n: Seq<char>) -> bool {
    exists|i: int| #[trigger] matches_at(h, n, i)
}

pub open spec fn has_prefix(h: Seq<char>, n: Seq<char>) -> bool {
    matches_at(h, n, 0)
}

pub open spec fn has_suffix(h: Seq<char>, n: Seq<char>) -> bool {
    matches_at(h, n, h.len() - n.len())
}

/// The first position at or after `i` where `n` stands in `h`.
pub open spec fn find_from(h: Seq<char>, n: Seq<char>, i: int) -> Option<int>
    decreases h.len() + 1 - i,
{
    if i < 0 || i + n.len() > h.len() {
        None
    } else if matches_at(h, n, i) {
        Some(i)
    } else {
        find_from(h, n, i + 1)
    }
}

/// The first position where `n` stands in `h`.
pub open spec fn find_in(h: Seq<char>, n: Seq<char>) -> Option<int> {
    find_from(h, n, 0)
}

pub proof fn lemma_find_from(h: Seq<char>, n: Seq<char>, i: int)
    requires
        0 <= i,
    ensures
        match find_from(h, n, i) {
            Some(k) => i <= k && matches_at(h, n, k) && forall|j: int|
                i <= j < k ==> !#[trigger] matches_at(h, n, j),
            None => forall|j: int| i <= j ==> !#[trigger] matches_at(h, n, j),
        },
    decreases h.len() + 1 - i,
{
    if i + n.len() > h.len() {
    } else if matches_at(h, n, i) {
    } else {
        lemma_find_from(h, n, i + 1);
    }
}

/// A text has a first occurrence exactly where it has one at all.
pub proof fn lemma_find_in(h: Seq<char>, n: Seq<char>)
    ensures
        find_in(h, n) is Some <==> occurs_in(h, n),
        find_in(h, n) matches Some(k) ==> matches_at(h, n, k) && forall|j: int|
            j < k ==> !#[trigger] matches_at(h, n, j),
{
    lemma_find_from(h, n, 0);
}

fn stands_at(h: &Vec<char>, n: &Vec<char>, i: usize) -> (r: bool)
    requires
        i + n.len() <= h.len(),
    ensures
        r == matches_at(h@, n@, i as int),
{
    let mut k: usize = 0;
    while k < n.len()
        invariant
            k <= n.len(),
            i + n.len() <= h.len(),
            forall|j: int| 0 <= j < k ==> h@[i + j] == n@[j],
        decreases n@.len() - k,
    {
        if h[i + k] != n[k] {
            assert(h@.subrange(i as int, i + n@.len())[k as int] != n@[k as int]);
            return false;
        }
        k = k + 1;
    }
    assert(h@.subrange(i as int, i + n@.len()) == n@);
    true
}

/// The position, counted in characters, of the first occurrence of `n`.
pub fn find(h: &str, n: &str) -> (r: Option<usize>)
    ensures
        match r {
            Some(k) => find_in(h@, n@) == Some(k as int),
            None => find_in(h@, n@) is None,
        },
{
    let hv = chars_of(h);
    let nv = chars_of(n);
    if nv.len() > hv.len() {
        return None;
    }
    let last: usize = hv.len() - nv.len();
    let mut i: usize = 0;
    loop
        invariant
            hv@ == h@,
            nv@ == n@,
            nv@.len() <= hv@.len(),
            last == hv@.len() - nv@.len(),
            i <= last,
            find_in(h@, n@) == find_from(h@, n@, i as int),
        decreases last - i,
    {
        if stands_at(&hv, &nv, i) {
            return Some(i);
        }
        if i == last {
            assert(find_from(h@, n@, i + 1) is None);
            return None;
        }
        i = i + 1;
    }
}

pub fn contains(h: &str, n: &str) -> (r: bool)
    ensures
        r == occurs_in(h@, n@),
{
    proof {
        lemma_find_in(h@, n@);
    }
    find(h, n).is_some()
}

pub fn starts_with(h: &str, n: &str) -> (r: bool)
    ensures
        r == has_prefix(h@, n@),
{
    let hv = chars_of(h);
    let nv = chars_of(n);
    nv.len() <= hv.len() && stands_at(&hv, &nv, 0)
}

pub fn ends_with(h: &str, n: &str) -> (r: bool)
    ensures
        r == has_suffix(h@, n@),
{
    let hv = chars_of(h);
    let nv = chars_of(n);
    nv.len() <= hv.len() && stands_at(&hv, &nv, hv.len() - nv.len())
}

/// What follows the prefix `n` of `h`, where `h` has it.
pub open spec fn strip_prefix_of(h: Seq<char>, n: Seq<char>) -> Option<Seq<char>> {
    if has_prefix(h, n) {
        Some(h.subrange(n.len() as int, h.len() as int))
    } else {
        None
    }
}

/// What precedes the suffix `n` of `h`, where `h` has it.
pub open spec fn strip_suffix_of(h: Seq<char>, n: Seq<char>) -> Option<Seq<char>> {
    if has_suffix(h, n) {
        Some(h.subrange(0, h.len() - n.len()))
    } else {
        None
    }
}

pub fn strip_prefix<'a>(h: &'a str, n: &str) -> (r: Option<&'a str>)
    ensures
        match r {
            Some(t) => strip_prefix_of(h@, n@) == Some(t@),
            None => strip_prefix_of(h@, n@) is None,
        },
{
    if starts_with(h, n) {
        Some(h.substring_char(n.unicode_len(), h.unicode_len()))
    } else {
        None
    }
}

pub fn strip_suffix<'a>(h: &'a str, n: &str) -> (r: Option<&'a str>)
    ensures
        match r {
            Some(t) => strip_suffix_of(h@, n@) == Some(t@),
            None => strip_suffix_of(h@, n@) is None,
        },
{
    if ends_with(h, n) {
        Some(h.substring_char(0, h.unicode_len() - n.unicode_len()))
    } else {
        None
    }
}


/// The texts of a list, as sequences of characters.
pub open spec fn texts(v: Seq<String>) -> Seq<Seq<char>> {
    v.map_values(|t: String| t@)
}

pub open spec fn opt_str(o: Option<&str>) -> Option<Seq<char>> {
    match o {
        Some(s) => Some(s@),
        None => None,
    }
}

pub open spec fn opt_text(o: Option<String>) -> Option<Seq<char>> {
    match o {
        Some(t) => Some(t@),
        None => None,
    }
}

/// Is `t` one of the texts of the list?
pub fn holds_text(list: &Vec<String>, t: &str) -> (r: bool)
    ensures
        r == texts(list@).contains(t@),
{
    let mut i: usize = 0;
    while i < list.len()
        invariant
            i <= list.len(),
            forall|j: int| 0 <= j < i ==> #[trigger] texts(list@)[j] != t@,
        decreases list.len() - i,
    {
        if same(list[i].as_str(), t) {
            assert(texts(list@)[i as int] == t@);
            return true;
        }
        i = i + 1;
    }
    false
}

/// A copy of a list of texts.
pub fn clone_texts(list: &Vec<String>) -> (r: Vec<String>)
    ensures
        r@ == list@,
        texts(r@) == texts(list@),
{
    let mut r: Vec<String> = Vec::new();
    let mut i: usize = 0;
    while i < list.len()
        invariant
            i <= list.len(),
            r@ == list@.subrange(0, i as int),
        decreases list.len() - i,
    {
        r.push(list[i].clone());
        i = i + 1;
    }
    assert(list@.subrange(0, list@.len() as int) == list@);
    r
}

pub fn clone_opt_text(o: &Option<String>) -> (r: Option<String>)
    ensures
        r == *o,
{
    match o {
        Some(t) => Some(t.clone()),
        None => None,
    }
}

/// The first position of the character `c` in `s`; the length of `s` where
/// there is none.
pub open spec fn index_of_char(s: Seq<char>, c: char) -> int
    decreases s.len(),
{
    if s.len() == 0 || s[0] == c {
        0
    } else {
        1 + index_of_char(s.drop_first(), c)
    }
}

pub proof fn lemma_index_of_char(s: Seq<char>, c: char)
    ensures
        0 <= index_of_char(s, c) <= s.len(),
        forall|j: int| 0 <= j < index_of_char(s, c) ==> s[j] != c,
        index_of_char(s, c) < s.len() ==> s[index_of_char(s, c)] == c,
    decreases s.len(),
{
    if s.len() == 0 || s[0] == c {
    } else {
        lemma_index_of_char(s.drop_first(), c);
        let k = index_of_char(s.drop_first(), c);
        assert forall|j: int| 0 <= j < k + 1 implies s[j] != c by {
            if j > 0 {
                assert(s.drop_first()[j - 1] == s[j]);
            }
        }
        if k + 1 < s.len() {
            assert(s.drop_first()[k] == s[k + 1]);
        }
    }
}

/// `k` is the first position of `c`, or the length where nothing before is `c`.
pub proof fn lemma_index_of_char_is(s: Seq<char>, c: char, k: int)
    requires
        0 <= k <= s.len(),
        forall|j: int| 0 <= j < k ==> s[j] != c,
        k < s.len() ==> s[k] == c,
    ensures
        index_of_char(s, c) == k,
{
    lemma_index_of_char(s, c);
}

/// The parts of `s` between the characters `c`.
pub open spec fn split_of(s: Seq<char>, c: char) -> Seq<Seq<char>>
    decreases s.len(),
    via split_of_decreases
{
    let k = index_of_char(s, c);
    if k >= s.len() {
        seq![s]
    } else {
        seq![s.subrange(0, k)] + split_of(s.subrange(k + 1, s.len() as int), c)
    }
}

#[via_fn]
proof fn split_of_decreases(s: Seq<char>, c: char) {
    lemma_index_of_char(s, c);
}

pub fn split(s: &str, c: char) -> (r: Vec<String>)
    ensures
        texts(r@) == split_of(s@, c),
        r@.len() >= 1,
{
    let v = chars_of(s);
    let mut r: Vec<String> = Vec::new();
    let mut start: usize = 0;
    let mut i: usize = 0;
    assert(s@.subrange(0, s@.len() as int) == s@);
    assert(texts(r@) + split_of(s@, c) == split_of(s@, c));
    while i < v.len()
        invariant
            start <= i <= v.len(),
            v@ == s@,
            forall|j: int| start <= j < i ==> s@[j] != c,
            texts(r@) + split_of(s@.subrange(start as int, s@.len() as int), c) == split_of(s@, c),
        decreases v.len() - i,
    {
        if v[i] == c {
            let ghost rest = s@.subrange(start as int, s@.len() as int);
            proof {
                lemma_index_of_char_is(rest, c, i - start);
                assert(rest.subrange(0, i - start) == s@.subrange(start as int, i as int));
                assert(rest.subrange(i - start + 1, rest.len() as int) == s@.subrange(
                    i + 1,
                    s@.len() as int,
                ));
            }
            let part: String = s.substring_char(start, i).to_owned();
            let ghost before = texts(r@);
            r.push(part);
            proof {
                assert(texts(r@) == before.push(part@));
                let tail = split_of(s@.subrange(i + 1, s@.len() as int), c);
                assert(before.push(part@) + tail == before + (seq![part@] + tail));
            }
            start = i + 1;
        }
        i = i + 1;
    }
    let ghost rest = s@.subrange(start as int, s@.len() as int);
    proof {
        lemma_index_of_char_is(rest, c, rest.len() as int);
    }
    let part: String = s.substring_char(start, v.len()).to_owned();
    let ghost before = texts(r@);
    r.push(part);
    assert(texts(r@) == before + seq![part@]);
    r
}

/// How many characters at the start of `s` are no white space.
pub open spec fn word_len(s: Seq<char>) -> int
    decreases s.len(),
{
    if s.len() == 0 || is_space(s[0]) {
        0
    } else {
        1 + word_len(s.drop_first())
    }
}

pub proof fn lemma_word_len(s: Seq<char>)
    ensures
        0 <= word_len(s) <= s.len(),
        s.len() > 0 && !is_space(s[0]) ==> word_len(s) >= 1,
    decreases s.len(),
{
    if s.len() == 0 || is_space(s[0]) {
    } else {
        lemma_word_len(s.drop_first());
    }
}

pub proof fn lemma_trim_start(s: Seq<char>)
    ensures
        trim_start_of(s).len() <= s.len(),
        trim_start_of(s).len() > 0 ==> !is_space(trim_start_of(s)[0]),
    decreases s.len(),
{
    if s.len() > 0 && is_space(s[0]) {
        lemma_trim_start(s.drop_first());
    }
}

/// The words of `s`: its longest stretches without white space.
pub open spec fn words_of(s: Seq<char>) -> Seq<Seq<char>>
    decreases s.len(),
    via words_of_decreases
{
    let t = trim_start_of(s);
    if t.len() == 0 {
        seq![]
    } else {
        seq![t.subrange(0, word_len(t))] + words_of(t.subrange(word_len(t), t.len() as int))
    }
}

#[via_fn]
proof fn words_of_decreases(s: Seq<char>) {
    lemma_trim_start(s);
    lemma_word_len(trim_start_of(s));
}

fn word_end(v: &Vec<char>, start: usize) -> (end: usize)
    requires
        start <= v.len(),
    ensures
        start <= end <= v.len(),
        end == start + word_len(v@.subrange(start as int, v@.len() as int)),
    decreases v.len() - start,
{
    if start == v.len() || is_whitespace(v[start]) {
        start
    } else {
        assert(v@.subrange(start as int, v@.len() as int).drop_first() == v@.subrange(
            start + 1,
            v@.len() as int,
        ));
        word_end(v, start + 1)
    }
}

pub fn split_whitespace(s: &str) -> (r: Vec<String>)
    ensures
        texts(r@) == words_of(s@),
{
    let mut r: Vec<String> = Vec::new();
    let mut rest: &str = s;
    assert(texts(r@) + words_of(s@) == words_of(s@));
    loop
        invariant
            texts(r@) + words_of(rest@) == words_of(s@),
        decreases rest@.len(),
    {
        let t = trim_start(rest);
        let v = chars_of(t);
        proof {
            lemma_trim_start(rest@);
            lemma_word_len(t@);
            assert(t@.subrange(0, t@.len() as int) == t@);
        }
        if v.len() == 0 {
            assert(texts(r@) + words_of(rest@) == texts(r@));
            return r;
        }
        let end: usize = word_end(&v, 0);
        let ghost before = texts(r@);
        let word: String = t.substring_char(0, end).to_owned();
        r.push(word);
        rest = t.substring_char(end, v.len());
        proof {
            assert(texts(r@) == before.push(word@));
            assert(before.push(word@) + words_of(rest@) == before + (seq![word@] + words_of(
                rest@,
            )));
        }
    }
}

/// The texts of a list with `sep` between them.
pub open spec fn joined(parts: Seq<Seq<char>>, sep: Seq<char>) -> Seq<char>
    decreases parts.len(),
{
    if parts.len() == 0 {
        seq![]
    } else if parts.len() == 1 {
        parts[0]
    } else {
        joined(parts.drop_last(), sep) + sep + parts.last()
    }
}

pub fn join(parts: &Vec<String>, sep: &str) -> (r: String)
    ensures
        r@ == joined(texts(parts@), sep@),
{
    let mut r: String = String::new();
    let mut i: usize = 0;
    while i < parts.len()
        invariant
            i <= parts.len(),
            r@ == joined(texts(parts@).subrange(0, i as int), sep@),
        decreases parts.len() - i,
    {
        proof {
            let next = texts(parts@).subrange(0, i + 1);
            assert(next.drop_last() == texts(parts@).subrange(0, i as int));
            assert(next.last() == parts@[i as int]@);
        }
        if i > 0 {
            r.append(sep);
        }
        r.append(parts[i].as_str());
        proof {
            if i == 0 {
                assert(r@ == parts@[0]@);
            }
        }
        i = i + 1;
    }
    assert(texts(parts@).subrange(0, parts@.len() as int) == texts(parts@));
    r
}

/// `s` with every character `c` replaced by `to`.
pub open spec fn replaced(s: Seq<char>, c: char, to: Seq<char>) -> Seq<char>
    decreases s.len(),
{
    if s.len() == 0 {
        seq![]
    } else if s.last() == c {
        replaced(s.drop_last(), c, to) + to
    } else {
        replaced(s.drop_last(), c, to).push(s.last())
    }
}

pub fn replace_char(s: &str, c: char, to: &str) -> (r: String)
    ensures
        r@ == replaced(s@, c, to@),
{
    let v = chars_of(s);
    let mut r: String = String::new();
    let mut i: usize = 0;
    while i < v.len()
        invariant
            i <= v.len(),
            v@ == s@,
            r@ == replaced(s@.subrange(0, i as int), c, to@),
        decreases v.len() - i,
    {
        assert(s@.subrange(0, i + 1).drop_last() == s@.subrange(0, i as int));
        if v[i] == c {
            r.append(to);
        } else {
            r.push(v[i]);
        }
        i = i + 1;
    }
    assert(s@.subrange(0, s@.len() as int) == s@);
    r
}

/// The lower case form of an ASCII letter; any other character as it is.
pub open spec fn ascii_lower(c: char) -> char {
    if 'A' <= c && c <= 'Z' {
        (c as int + 32) as char
    } else {
        c
    }
}

pub open spec fn ascii_lowered(s: Seq<char>) -> Seq<char> {
    s.map_values(|c: char| ascii_lower(c))
}

pub fn lower_char(c: char) -> (r: char)
    ensures
        r == ascii_lower(c),
{
    if 'A' <= c && c <= 'Z' {
        let n: u8 = c as u8;
        (n + 32) as char
    } else {
        c
    }
}

pub fn to_ascii_lowercase(s: &str) -> (r: String)
    ensures
        r@ == ascii_lowered(s@),
{
    let v = chars_of(s);
    let mut r: String = String::new();
    let mut i: usize = 0;
    while i < v.len()
        invariant
            i <= v.len(),
            v@ == s@,
            r@ == ascii_lowered(s@.subrange(0, i as int)),
        decreases v.len() - i,
    {
        let ghost next = s@.subrange(0, i + 1);
        r.push(lower_char(v[i]));
        assert(ascii_lowered(next) == r@);
        i = i + 1;
    }
    assert(s@.subrange(0, s@.len() as int) == s@);
    r
}

/// The same text but for the case of ASCII letters?
pub fn eq_ignore_ascii_case(a: &str, b: &str) -> (r: bool)
    ensures
        r == (ascii_lowered(a@) == ascii_lowered(b@)),
{
    same(to_ascii_lowercase(a).as_str(), to_ascii_lowercase(b).as_str())
}


pub open spec fn is_digit(c: char) -> bool {
    '0' <= c && c <= '9'
}

/// The digit with the value `d`.
pub open spec fn digit(d: nat) -> char {
    (48 + d) as char
}

/// The decimal notation of `n`, without leading zeros.
pub open spec fn decimal(n: nat) -> Seq<char>
    decreases n,
{
    if n < 10 {
        seq![digit(n)]
    } else {
        decimal(n / 10).push(digit(n % 10))
    }
}

fn digit_char(d: u8) -> (c: char)
    requires
        d < 10,
    ensures
        c == digit(d as nat),
{
    (48 + d) as char
}

pub fn decimal_text(n: u128) -> (r: String)
    ensures
        r@ == decimal(n as nat),
    decreases n,
{
    if n < 10 {
        let mut r: String = String::new();
        r.push(digit_char(n as u8));
        assert(r@ == seq![digit(n as nat)]);
        r
    } else {
        let mut r: String = decimal_text(n / 10);
        r.push(digit_char((n % 10) as u8));
        r
    }
}

/// The decimal notation of `n` with zeros in front up to `width` characters.
pub open spec fn padded_decimal(n: nat, width: nat) -> Seq<char> {
    let d = decimal(n);
    if d.len() >= width {
        d
    } else {
        Seq::new((width - d.len()) as nat, |i: int| '0') + d
    }
}

pub fn padded_decimal_text(n: u128, width: usize) -> (r: String)
    ensures
        r@ == padded_decimal(n as nat, width as nat),
{
    let d = decimal_text(n);
    let len: usize = d.as_str().unicode_len();
    let mut r: String = String::new();
    let mut i: usize = len;
    while i < width
        invariant
            len == d@.len(),
            len <= i,
            i <= width || i == len,
            r@ == Seq::new((i - len) as nat, |j: int| '0'),
        decreases width - i,
    {
        r.push('0');
        assert(r@ == Seq::new((i + 1 - len) as nat, |j: int| '0'));
        i = i + 1;
    }
    r.append(d.as_str());
    assert(Seq::new(0nat, |j: int| '0') + d@ == d@);
    r
}

/// The value of a row of decimal digits.
pub open spec fn digits_value(s: Seq<char>) -> nat
    decreases s.len(),
{
    if s.len() == 0 {
        0
    } else {
        digits_value(s.drop_last()) * 10 + ((s.last() as int - 48) as nat)
    }
}

pub open spec fn all_digits(s: Seq<char>) -> bool {
    forall|i: int| 0 <= i < s.len() ==> is_digit(#[trigger] s[i])
}

/// `s` without an optional `+` in front.
pub open spec fn without_plus(s: Seq<char>) -> Seq<char> {
    if s.len() > 0 && s[0] == '+' {
        s.drop_first()
    } else {
        s
    }
}

/// A row of digits, at least one, with an optional `+` in front, whose value
/// is at most `max`.
pub open spec fn parse_unsigned(s: Seq<char>, max: nat) -> Option<nat> {
    let body = without_plus(s);
    if body.len() > 0 && all_digits(body) && digits_value(body) <= max {
        Some(digits_value(body))
    } else {
        None
    }
}

proof fn lemma_digits_value_grows(s: Seq<char>, i: int)
    requires
        0 <= i <= s.len(),
        all_digits(s),
    ensures
        digits_value(s.subrange(0, i)) <= digits_value(s),
    decreases s.len() - i,
{
    if i == s.len() {
        assert(s.subrange(0, i) == s);
    } else {
        lemma_digits_value_grows(s, i + 1);
        assert(s.subrange(0, i + 1).drop_last() == s.subrange(0, i));
        assert(is_digit(s[i]));
    }
}

fn parse_up_to(s: &str, max: u64) -> (r: Option<u64>)
    ensures
        match r {
            Some(n) => parse_unsigned(s@, max as nat) == Some(n as nat),
            None => parse_unsigned(s@, max as nat) is None,
        },
{
    let v = chars_of(s);
    let start: usize = if v.len() > 0 && v[0] == '+' {
        1
    } else {
        0
    };
    let ghost body = s@.subrange(start as int, s@.len() as int);
    proof {
        assert(s@.subrange(0, s@.len() as int) == s@);
        if start == 1 {
            assert(s@.drop_first() == body);
        }
    }
    if start == v.len() {
        return None;
    }
    let mut value: u128 = 0;
    let mut i: usize = start;
    assert(body.subrange(0, 0) == Seq::<char>::empty());
    while i < v.len()
        invariant
            start <= i <= v.len(),
            v@ == s@,
            start <= 1,
            body == s@.subrange(start as int, s@.len() as int),
            forall|j: int| 0 <= j < i - start ==> is_digit(#[trigger] body[j]),
            value == digits_value(body.subrange(0, i - start)),
            value <= max,
            body == without_plus(s@),
        decreases v.len() - i,
    {
        let c: char = v[i];
        assert(body[i - start] == c);
        if c < '0' || c > '9' {
            assert(!is_digit(body[i - start]));
            return None;
        }
        assert(body.subrange(0, i + 1 - start).drop_last() == body.subrange(0, i - start));
        value = value * 10 + ((c as u32) - 48) as u128;
        if value > max as u128 {
            proof {
                if all_digits(body) {
                    lemma_digits_value_grows(body, i + 1 - start);
                }
            }
            return None;
        }
        i = i + 1;
    }
    assert(body.subrange(0, body.len() as int) == body);
    Some(value as u64)
}

pub fn parse_u64(s: &str) -> (r: Option<u64>)
    ensures
        match r {
            Some(n) => parse_unsigned(s@, u64::MAX as nat) == Some(n as nat),
            None => parse_unsigned(s@, u64::MAX as nat) is None,
        },
{
    parse_up_to(s, u64::MAX)
}

pub fn parse_u32(s: &str) -> (r: Option<u32>)
    ensures
        match r {
            Some(n) => parse_unsigned(s@, u32::MAX as nat) == Some(n as nat),
            None => parse_unsigned(s@, u32::MAX as nat) is None,
        },
{
    match parse_up_to(s, u32::MAX as u64) {
        Some(n) => Some(n as u32),
        None => None,
    }
}

/// The lines of `s`: the stretches that end in a line feed, without it and
/// without a carriage return in front of it, and what follows the last line
/// feed, if anything does.
pub open spec fn lines_of(s: Seq<char>) -> Seq<Seq<char>>
    decreases s.len(),
    via lines_of_decreases
{
    let k = index_of_char(s, '\n');
    if s.len() == 0 {
        seq![]
    } else if k >= s.len() {
        seq![s]
    } else {
        let line = if k > 0 && s[k - 1] == '\r' {
            s.subrange(0, k - 1)
        } else {
            s.subrange(0, k)
        };
        seq![line] + lines_of(s.subrange(k + 1, s.len() as int))
    }
}

#[via_fn]
proof fn lines_of_decreases(s: Seq<char>) {
    lemma_index_of_char(s, '\n');
}

pub fn lines(s: &str) -> (r: Vec<String>)
    ensures
        texts(r@) == lines_of(s@),
{
    let v = chars_of(s);
    let mut r: Vec<String> = Vec::new();
    let mut start: usize = 0;
    let mut i: usize = 0;
    assert(s@.subrange(0, s@.len() as int) == s@);
    assert(texts(r@) + lines_of(s@) == lines_of(s@));
    while i < v.len()
        invariant
            start <= i <= v.len(),
            v@ == s@,
            forall|j: int| start <= j < i ==> s@[j] != '\n',
            texts(r@) + lines_of(s@.subrange(start as int, s@.len() as int)) == lines_of(s@),
        decreases v.len() - i,
    {
        if v[i] == '\n' {
            let ghost rest = s@.subrange(start as int, s@.len() as int);
            let end: usize = if i > start && v[i - 1] == '\r' {
                i - 1
            } else {
                i
            };
            proof {
                lemma_index_of_char_is(rest, '\n', i - start);
                assert(rest.subrange(0, end - start) == s@.subrange(start as int, end as int));
                assert(rest.subrange(i - start + 1, rest.len() as int) == s@.subrange(
                    i + 1,
                    s@.len() as int,
                ));
            }
            let part: String = s.substring_char(start, end).to_owned();
            let ghost before = texts(r@);
            r.push(part);
            proof {
                assert(texts(r@) == before.push(part@));
                let tail = lines_of(s@.subrange(i + 1, s@.len() as int));
                assert(before.push(part@) + tail == before + (seq![part@] + tail));
            }
            start = i + 1;
        }
        i = i + 1;
    }
    let ghost rest = s@.subrange(start as int, s@.len() as int);
    if start < v.len() {
        proof {
            lemma_index_of_char_is(rest, '\n', rest.len() as int);
        }
        let part: String = s.substring_char(start, v.len()).to_owned();
        let ghost before = texts(r@);
        r.push(part);
        assert(texts(r@) == before + seq![part@]);
    } else {
        assert(texts(r@) + lines_of(rest) == texts(r@));
    }
    r
}


/// The views of a list of string slices.
pub open spec fn strs(v: Seq<&str>) -> Seq<Seq<char>> {
    v.map_values(|t: &str| t@)
}

/// `s` trimmed, in lower case, and with single spaces between its words.
pub open spec fn normalized(s: Seq<char>) -> Seq<char> {
    joined(words_of(lowered(trim_of(s))), " "@)
}

/// The text in the form in which two notations of one thing are compared.
pub fn normalize(s: &str) -> (r: String)
    ensures
        r@ == normalized(s@),
{
    let lowered = to_lowercase(trim(s));
    let words = split_whitespace(lowered.as_str());
    join(&words, " ")
}

/// Does one of `needles` stand in `h`?
pub fn contains_any(h: &str, needles: &[&str]) -> (r: bool)
    ensures
        r == exists|i: int| 0 <= i < needles@.len() && occurs_in(h@, #[trigger] needles@[i]@),
{
    let mut i: usize = 0;
    while i < needles.len()
        invariant
            i <= needles.len(),
            forall|j: int| 0 <= j < i ==> !occurs_in(h@, #[trigger] needles@[j]@),
        decreases needles.len() - i,
    {
        if contains(h, needles[i]) {
            return true;
        }
        i = i + 1;
    }
    false
}

/// The order of texts: by the first character in which they differ, a text
/// before those that begin with it.
pub open spec fn text_le(a: Seq<char>, b: Seq<char>) -> bool
    decreases a.len(),
{
    if a.len() == 0 {
        true
    } else if b.len() == 0 {
        false
    } else if a[0] != b[0] {
        a[0] < b[0]
    } else {
        text_le(a.drop_first(), b.drop_first())
    }
}

pub fn comes_not_after(a: &str, b: &str) -> (r: bool)
    ensures
        r == text_le(a@, b@),
{
    let av = chars_of(a);
    let bv = chars_of(b);
    let mut i: usize = 0;
    assert(a@.subrange(0, a@.len() as int) == a@);
    assert(b@.subrange(0, b@.len() as int) == b@);
    while i < av.len() && i < bv.len() && av[i] == bv[i]
        invariant
            i <= av.len(),
            i <= bv.len(),
            av@ == a@,
            bv@ == b@,
            text_le(a@, b@) == text_le(
                a@.subrange(i as int, a@.len() as int),
                b@.subrange(i as int, b@.len() as int),
            ),
        decreases av.len() - i,
    {
        proof {
            let x = a@.subrange(i as int, a@.len() as int);
            let y = b@.subrange(i as int, b@.len() as int);
            assert(x.drop_first() == a@.subrange(i + 1, a@.len() as int));
            assert(y.drop_first() == b@.subrange(i + 1, b@.len() as int));
        }
        i = i + 1;
    }
    if i == av.len() {
        true
    } else if i == bv.len() {
        false
    } else {
        av[i] < bv[i]
    }
}

pub proof fn lemma_text_le_total(a: Seq<char>, b: Seq<char>)
    ensures
        text_le(a, b) || text_le(b, a),
        text_le(a, b) && text_le(b, a) ==> a == b,
    decreases a.len(),
{
    if a.len() > 0 && b.len() > 0 && a[0] == b[0] {
        lemma_text_le_total(a.drop_first(), b.drop_first());
        if text_le(a, b) && text_le(b, a) {
            assert(a == seq![a[0]] + a.drop_first());
            assert(b == seq![b[0]] + b.drop_first());
        }
    } else if a.len() == 0 && b.len() == 0 {
        assert(a == b);
    }
}

pub proof fn lemma_text_le_transitive(a: Seq<char>, b: Seq<char>, c: Seq<char>)
    requires
        text_le(a, b),
        text_le(b, c),
    ensures
        text_le(a, c),
    decreases a.len(),
{
    if a.len() > 0 && b.len() > 0 && c.len() > 0 && a[0] == b[0] && b[0] == c[0] {
        lemma_text_le_transitive(a.drop_first(), b.drop_first(), c.drop_first());
    }
}


/// The value of a decimal notation is the number that it denotes.
pub proof fn lemma_decimal_value(n: nat)
    ensures
        digits_value(decimal(n)) == n,
        all_digits(decimal(n)),
        decimal(n).len() > 0,
    decreases n,
{
    if n < 10 {
        reveal_with_fuel(digits_value, 2);
        assert(decimal(n).drop_last() =~= Seq::<char>::empty());
    } else {
        lemma_decimal_value(n / 10);
        assert(decimal(n).drop_last() =~= decimal(n / 10));
    }
}

/// Two numbers with the same notation are the same.
pub proof fn lemma_decimal_injective(a: nat, b: nat)
    requires
        decimal(a) == decimal(b),
    ensures
        a == b,
{
    lemma_decimal_value(a);
    lemma_decimal_value(b);
}

/// A number reads back from its notation.
pub proof fn lemma_parse_decimal(n: nat, max: nat)
    requires
        n <= max,
    ensures
        parse_unsigned(decimal(n), max) == Some(n),
{
    lemma_decimal_value(n);
    assert(is_digit(decimal(n)[0]));
}


/// Where `x` goes in an ordered list: behind all that are not after it.
pub open spec fn text_point(s: Seq<Seq<char>>, x: Seq<char>) -> int
    decreases s.len(),
{
    if s.len() == 0 || text_le(s.last(), x) {
        s.len() as int
    } else {
        text_point(s.drop_last(), x)
    }
}

/// The texts in order, each once.
pub open spec fn ordered_once(s: Seq<Seq<char>>) -> Seq<Seq<char>>
    decreases s.len(),
{
    if s.len() == 0 {
        s
    } else {
        let before = ordered_once(s.drop_last());
        let k = text_point(before, s.last());
        if k > 0 && before[k - 1] == s.last() {
            before
        } else {
            before.insert(k, s.last())
        }
    }
}

/// Every text stands strictly before the next.
pub open spec fn strictly_ordered(s: Seq<Seq<char>>) -> bool {
    forall|i: int, j: int|
        0 <= i < j < s.len() ==> text_le(#[trigger] s[i], #[trigger] s[j]) && s[i] != s[j]
}

proof fn lemma_text_point(s: Seq<Seq<char>>, x: Seq<char>)
    requires
        strictly_ordered(s),
    ensures
        0 <= text_point(s, x) <= s.len(),
        forall|i: int| 0 <= i < text_point(s, x) ==> text_le(#[trigger] s[i], x),
        forall|i: int| text_point(s, x) <= i < s.len() ==> !text_le(#[trigger] s[i], x),
    decreases s.len(),
{
    if s.len() == 0 {
    } else if text_le(s.last(), x) {
        assert forall|i: int| 0 <= i < s.len() implies text_le(#[trigger] s[i], x) by {
            if i < s.len() - 1 {
                assert(text_le(s[i], s[s.len() - 1]));
                lemma_text_le_transitive(s[i], s.last(), x);
            }
        }
    } else {
        let t = s.drop_last();
        assert forall|i: int, j: int| 0 <= i < j < t.len() implies text_le(
            #[trigger] t[i],
            #[trigger] t[j],
        ) && t[i] != t[j] by {
            assert(text_le(s[i], s[j]) && s[i] != s[j]);
        }
        lemma_text_point(t, x);
        let k = text_point(t, x);
        assert forall|i: int| 0 <= i < k implies text_le(#[trigger] s[i], x) by {
            assert(t[i] == s[i]);
        }
        assert forall|i: int| k <= i < s.len() implies !text_le(#[trigger] s[i], x) by {
            if i < t.len() {
                assert(t[i] == s[i]);
            }
        }
    }
}

/// Ordering texts and dropping repeats leaves each text exactly once.
pub proof fn lemma_ordered_once(s: Seq<Seq<char>>)
    ensures
        strictly_ordered(ordered_once(s)),
        forall|t: Seq<char>| #[trigger] ordered_once(s).contains(t) <==> s.contains(t),
    decreases s.len(),
{
    if s.len() > 0 {
        let before = ordered_once(s.drop_last());
        let x = s.last();
        lemma_ordered_once(s.drop_last());
        lemma_text_point(before, x);
        let k = text_point(before, x);
        let after = ordered_once(s);
        assert(s[s.len() - 1] == x);
        if k > 0 && before[k - 1] == x {
            assert(before.contains(x));
            assert forall|t: Seq<char>| #[trigger] after.contains(t) implies s.contains(t) by {
                let i = choose|i: int| 0 <= i < s.drop_last().len() && s.drop_last()[i] == t;
                assert(s.drop_last().contains(t));
                assert(s[i] == t);
            }
            assert forall|t: Seq<char>| s.contains(t) implies #[trigger] after.contains(t) by {
                let i = choose|i: int| 0 <= i < s.len() && s[i] == t;
                if i < s.len() - 1 {
                    assert(s.drop_last()[i] == t);
                    assert(s.drop_last().contains(t));
                }
            }
        } else {
            assert forall|i: int, j: int| 0 <= i < j < after.len() implies text_le(
                #[trigger] after[i],
                #[trigger] after[j],
            ) && after[i] != after[j] by {
                if i < k && j > k {
                    assert(text_le(before[i], before[j - 1]) && before[i] != before[j - 1]);
                } else if j < k {
                    assert(text_le(before[i], before[j]) && before[i] != before[j]);
                } else if i > k {
                    assert(text_le(before[i - 1], before[j - 1]) && before[i - 1] != before[j - 1]);
                } else if i < k && j == k {
                    if before[i] == x {
                        assert(i < k - 1);
                        assert(text_le(before[i], before[k - 1]) && before[i] != before[k - 1]);
                        assert(text_le(before[k - 1], x));
                        lemma_text_le_total(before[k - 1], x);
                    }
                } else {
                    assert(!text_le(before[j - 1], x));
                    lemma_text_le_total(before[j - 1], x);
                    lemma_text_le_total(x, x);
                }
            }
            assert forall|t: Seq<char>| #[trigger] after.contains(t) implies s.contains(t) by {
                let i = choose|i: int| 0 <= i < after.len() && after[i] == t;
                if i != k {
                    let m = if i < k {
                        i
                    } else {
                        i - 1
                    };
                    assert(before[m] == t);
                    assert(before.contains(t));
                    let n = choose|n: int| 0 <= n < s.drop_last().len() && s.drop_last()[n] == t;
                    assert(s.drop_last().contains(t));
                    assert(s[n] == t);
                }
            }
            assert forall|t: Seq<char>| s.contains(t) implies #[trigger] after.contains(t) by {
                let i = choose|i: int| 0 <= i < s.len() && s[i] == t;
                if i < s.len() - 1 {
                    assert(s.drop_last()[i] == t);
                    assert(before.contains(t));
                    let m = choose|m: int| 0 <= m < before.len() && before[m] == t;
                    if m < k {
                        assert(after[m] == t);
                    } else {
                        assert(after[m + 1] == t);
                    }
                } else {
                    assert(after[k] == t);
                }
            }
        }
    }
}

/// The texts of a list in order, each once.
pub fn sort_and_dedup(list: &Vec<String>) -> (r: Vec<String>)
    ensures
        texts(r@) == ordered_once(texts(list@)),
{
    let ghost all = texts(list@);
    let mut r: Vec<String> = Vec::new();
    let mut i: usize = 0;
    assert(texts(r@) =~= ordered_once(all.subrange(0, 0)));
    while i < list.len()
        invariant
            i <= list.len(),
            all == texts(list@),
            texts(r@) == ordered_once(all.subrange(0, i as int)),
        decreases list.len() - i,
    {
        let ghost next = all.subrange(0, i + 1);
        assert(next.drop_last() == all.subrange(0, i as int));
        assert(next.last() == list@[i as int]@);
        let ghost sorted = texts(r@);
        let mut at: usize = r.len();
        assert(sorted.subrange(0, sorted.len() as int) == sorted);
        while at > 0 && !comes_not_after(r[at - 1].as_str(), list[i].as_str())
            invariant
                i < list.len(),
                at <= r.len(),
                sorted == texts(r@),
                text_point(sorted, list@[i as int]@) == text_point(
                    sorted.subrange(0, at as int),
                    list@[i as int]@,
                ),
            decreases at,
        {
            assert(sorted.subrange(0, at as int).drop_last() == sorted.subrange(0, at - 1));
            at = at - 1;
        }
        let repeats: bool = at > 0 && same(r[at - 1].as_str(), list[i].as_str());
        if !repeats {
            r.insert(at, list[i].clone());
            assert(texts(r@) =~= sorted.insert(at as int, list@[i as int]@));
        }
        i = i + 1;
    }
    assert(all.subrange(0, all.len() as int) == all);
    r
}


proof fn lemma_trim_end(s: Seq<char>)
    ensures
        trim_end_of(s).len() <= s.len(),
        trim_end_of(s) == s.subrange(0, trim_end_of(s).len() as int),
        trim_end_of(s).len() > 0 ==> !is_space(trim_end_of(s).last()),
    decreases s.len(),
{
    if s.len() > 0 && is_space(s.last()) {
        lemma_trim_end(s.drop_last());
        let n = trim_end_of(s).len() as int;
        assert(s.drop_last().subrange(0, n) == s.subrange(0, n));
    } else {
        assert(s.subrange(0, s.len() as int) == s);
    }
}

/// A trimmed text has nothing more to trim.
pub proof fn lemma_trim_twice(s: Seq<char>)
    ensures
        trim_of(trim_of(s)) == trim_of(s),
{
    let u = trim_start_of(s);
    lemma_trim_start(s);
    lemma_trim_end(u);
    let t = trim_of(s);
    if t.len() > 0 {
        assert(t[0] == u[0]);
    }
    assert(trim_start_of(t) == t);
    assert(trim_end_of(t) == t);
}

/// The hexadecimal digit with the value `d`, in lower case.
pub open spec fn hex_digit(d: nat) -> char {
    if d < 10 {
        (48 + d) as char
    } else {
        (87 + d) as char
    }
}

/// The hexadecimal notation of `n` in lower case, without leading zeros.
pub open spec fn hexadecimal(n: nat) -> Seq<char>
    decreases n,
{
    if n < 16 {
        seq![hex_digit(n)]
    } else {
        hexadecimal(n / 16).push(hex_digit(n % 16))
    }
}

fn hex_digit_char(d: u8) -> (c: char)
    requires
        d < 16,
    ensures
        c == hex_digit(d as nat),
{
    if d < 10 {
        (48 + d) as char
    } else {
        (87 + d) as char
    }
}

pub fn hex_text(n: u64) -> (r: String)
    ensures
        r@ == hexadecimal(n as nat),
    decreases n,
{
    if n < 16 {
        let mut r: String = String::new();
        r.push(hex_digit_char(n as u8));
        assert(r@ == seq![hex_digit(n as nat)]);
        r
    } else {
        let mut r: String = hex_text(n / 16);
        r.push(hex_digit_char((n % 16) as u8));
        r
    }
}

/// `s` with zeros in front up to `width` characters.
pub open spec fn zero_padded(s: Seq<char>, width: nat) -> Seq<char>
    decreases width - s.len(),
{
    if s.len() >= width {
        s
    } else {
        zero_padded(seq!['0'] + s, width)
    }
}

pub fn pad_with_zeros(s: String, width: usize) -> (r: String)
    ensures
        r@ == zero_padded(s@, width as nat),
    decreases width - s@.len(),
{
    if s.as_str().unicode_len() >= width {
        s
    } else {
        let longer = join2("0", s.as_str());
        proof {
            reveal_strlit("0");
            assert("0"@ =~= seq!['0']);
        }
        pad_with_zeros(longer, width)
    }
}

/// `s` with spaces behind it up to `width` characters.
pub open spec fn space_padded(s: Seq<char>, width: nat) -> Seq<char>
    decreases width - s.len(),
{
    if s.len() >= width {
        s
    } else {
        space_padded(s.push(' '), width)
    }
}

pub fn pad_with_spaces(s: String, width: usize) -> (r: String)
    ensures
        r@ == space_padded(s@, width as nat),
    decreases width - s@.len(),
{
    if s.as_str().unicode_len() >= width {
        s
    } else {
        let mut longer: String = s;
        longer.push(' ');
        pad_with_spaces(longer, width)
    }
}

/// The value of a hexadecimal digit in either case.
pub open spec fn hex_digit_value(c: char) -> Option<nat> {
    if '0' <= c && c <= '9' {
        Some((c as int - 48) as nat)
    } else if 'a' <= c && c <= 'f' {
        Some((c as int - 87) as nat)
    } else if 'A' <= c && c <= 'F' {
        Some((c as int - 55) as nat)
    } else {
        None
    }
}

/// The value of a row of hexadecimal digits; none where there is something
/// else in it.
pub open spec fn hex_digits_value(s: Seq<char>) -> Option<nat>
    decreases s.len(),
{
    if s.len() == 0 {
        Some(0)
    } else {
        match (hex_digits_value(s.drop_last()), hex_digit_value(s.last())) {
            (Some(high), Some(low)) => Some(high * 16 + low),
            _ => None,
        }
    }
}

/// A row of hexadecimal digits, at least one, with an optional `+` in front,
/// whose value is at most `max`.
pub open spec fn parse_hexadecimal(s: Seq<char>, max: nat) -> Option<nat> {
    let body = without_plus(s);
    match hex_digits_value(body) {
        Some(n) => if body.len() > 0 && n <= max {
            Some(n)
        } else {
            None
        },
        None => None,
    }
}

proof fn lemma_hex_value_grows(s: Seq<char>, i: int)
    requires
        0 <= i <= s.len(),
        hex_digits_value(s) is Some,
    ensures
        hex_digits_value(s.subrange(0, i)) is Some,
        hex_digits_value(s.subrange(0, i))->0 <= hex_digits_value(s)->0,
    decreases s.len(),
{
    if i == s.len() {
        assert(s.subrange(0, i) == s);
    } else {
        lemma_hex_value_grows(s.drop_last(), i);
        assert(s.drop_last().subrange(0, i) == s.subrange(0, i));
    }
}

fn hex_value_of_char(c: char) -> (r: Option<u8>)
    ensures
        match r {
            Some(d) => hex_digit_value(c) == Some(d as nat) && d < 16,
            None => hex_digit_value(c) is None,
        },
{
    let n: u32 = c as u32;
    if 48 <= n && n <= 57 {
        Some((n - 48) as u8)
    } else if 97 <= n && n <= 102 {
        Some((n - 87) as u8)
    } else if 65 <= n && n <= 70 {
        Some((n - 55) as u8)
    } else {
        None
    }
}

pub fn parse_hex_u32(s: &str) -> (r: Option<u32>)
    ensures
        match r {
            Some(n) => parse_hexadecimal(s@, u32::MAX as nat) == Some(n as nat),
            None => parse_hexadecimal(s@, u32::MAX as nat) is None,
        },
{
    let v = chars_of(s);
    let start: usize = if v.len() > 0 && v[0] == '+' {
        1
    } else {
        0
    };
    let ghost body = s@.subrange(start as int, s@.len() as int);
    proof {
        assert(s@.subrange(0, s@.len() as int) == s@);
        if start == 1 {
            assert(s@.drop_first() == body);
        }
    }
    if start == v.len() {
        return None;
    }
    let mut value: u64 = 0;
    let mut i: usize = start;
    assert(body.subrange(0, 0) == Seq::<char>::empty());
    while i < v.len()
        invariant
            start <= i <= v.len(),
            v@ == s@,
            start <= 1,
            body == s@.subrange(start as int, s@.len() as int),
            hex_digits_value(body.subrange(0, i - start)) == Some(value as nat),
            value <= u32::MAX,
            body == without_plus(s@),
        decreases v.len() - i,
    {
        let ghost next = body.subrange(0, i + 1 - start);
        assert(next.drop_last() == body.subrange(0, i - start));
        assert(next.last() == v@[i as int]);
        match hex_value_of_char(v[i]) {
            Some(d) => {
                value = value * 16 + d as u64;
            },
            None => {
                proof {
                    if hex_digits_value(body) is Some {
                        lemma_hex_value_grows(body, i + 1 - start);
                    }
                }
                return None;
            },
        }
        if value > u32::MAX as u64 {
            proof {
                if hex_digits_value(body) is Some {
                    lemma_hex_value_grows(body, i + 1 - start);
                }
            }
            return None;
        }
        i = i + 1;
    }
    assert(body.subrange(0, body.len() as int) == body);
    Some(value as u32)
}

/// What stands before and behind the first `c`; none where there is no `c`.
pub open spec fn split_once_of(s: Seq<char>, c: char) -> Option<(Seq<char>, Seq<char>)> {
    let k = index_of_char(s, c);
    if k >= s.len() {
        None
    } else {
        Some((s.subrange(0, k), s.subrange(k + 1, s.len() as int)))
    }
}

pub open spec fn opt_pair(r: Option<(&str, &str)>) -> Option<(Seq<char>, Seq<char>)> {
    match r {
        Some(parts) => Some((parts.0@, parts.1@)),
        None => None,
    }
}

pub fn split_once(s: &str, c: char) -> (r: Option<(&str, &str)>)
    ensures
        opt_pair(r) == split_once_of(s@, c),
{
    let v = chars_of(s);
    let mut i: usize = 0;
    while i < v.len()
        invariant
            i <= v.len(),
            v@ == s@,
            forall|j: int| 0 <= j < i ==> s@[j] != c,
        decreases v.len() - i,
    {
        if v[i] == c {
            proof {
                lemma_index_of_char_is(s@, c, i as int);
            }
            return Some((s.substring_char(0, i), s.substring_char(i + 1, v.len())));
        }
        i = i + 1;
    }
    proof {
        lemma_index_of_char_is(s@, c, s@.len() as int);
    }
    None
}

/// The last position of `c` in `s`, and -1 where there is none.
pub open spec fn last_index_of_char(s: Seq<char>, c: char) -> int
    decreases s.len(),
{
    if s.len() == 0 || s.last() == c {
        s.len() - 1
    } else {
        last_index_of_char(s.drop_last(), c)
    }
}

/// What stands before and behind the last `c`; none where there is no `c`.
pub open spec fn rsplit_once_of(s: Seq<char>, c: char) -> Option<(Seq<char>, Seq<char>)> {
    let k = last_index_of_char(s, c);
    if k < 0 {
        None
    } else {
        Some((s.subrange(0, k), s.subrange(k + 1, s.len() as int)))
    }
}

pub fn rsplit_once(s: &str, c: char) -> (r: Option<(&str, &str)>)
    ensures
        opt_pair(r) == rsplit_once_of(s@, c),
{
    let v = chars_of(s);
    let mut end: usize = v.len();
    assert(s@.subrange(0, s@.len() as int) == s@);
    while end > 0
        invariant
            end <= v.len(),
            v@ == s@,
            last_index_of_char(s@, c) == last_index_of_char(s@.subrange(0, end as int), c),
        decreases end,
    {
        let ghost p = s@.subrange(0, end as int);
        if v[end - 1] == c {
            assert(p.last() == c);
            return Some((s.substring_char(0, end - 1), s.substring_char(end, v.len())));
        }
        assert(p.last() != c);
        assert(p.drop_last() == s@.subrange(0, end - 1));
        end = end - 1;
    }
    None
}

/// The parts that hold more than white space, in order.
pub open spec fn non_blank(parts: Seq<Seq<char>>) -> Seq<Seq<char>>
    decreases parts.len(),
{
    if parts.len() == 0 {
        seq![]
    } else if trim_of(parts.last()).len() == 0 {
        non_blank(parts.drop_last())
    } else {
        non_blank(parts.drop_last()).push(parts.last())
    }
}

pub fn without_blank(parts: &Vec<String>) -> (r: Vec<String>)
    ensures
        texts(r@) == non_blank(texts(parts@)),
{
    let mut r: Vec<String> = Vec::new();
    let mut i: usize = 0;
    assert(texts(r@) =~= non_blank(texts(parts@).subrange(0, 0)));
    while i < parts.len()
        invariant
            i <= parts.len(),
            texts(r@) == non_blank(texts(parts@).subrange(0, i as int)),
        decreases parts.len() - i,
    {
        let ghost next = texts(parts@).subrange(0, i + 1);
        assert(next.drop_last() == texts(parts@).subrange(0, i as int));
        assert(next.last() == parts@[i as int]@);
        let ghost before = texts(r@);
        if trim(parts[i].as_str()).unicode_len() > 0 {
            r.push(parts[i].clone());
            assert(texts(r@) =~= before.push(parts@[i as int]@));
        }
        i = i + 1;
    }
    assert(texts(parts@).subrange(0, texts(parts@).len() as int) == texts(parts@));
    r
}

/// The parts without the white space at their ends.
pub open spec fn trimmed(parts: Seq<Seq<char>>) -> Seq<Seq<char>> {
    parts.map_values(|p: Seq<char>| trim_of(p))
}

pub fn trim_each(parts: &Vec<String>) -> (r: Vec<String>)
    ensures
        texts(r@) == trimmed(texts(parts@)),
{
    let mut r: Vec<String> = Vec::new();
    let mut i: usize = 0;
    while i < parts.len()
        invariant
            i <= parts.len(),
            texts(r@) == trimmed(texts(parts@).subrange(0, i as int)),
        decreases parts.len() - i,
    {
        let ghost before = texts(r@);
        r.push(trim(parts[i].as_str()).to_owned());
        assert(texts(r@) =~= before.push(trim_of(parts@[i as int]@)));
        assert(trimmed(texts(parts@).subrange(0, i + 1)) =~= trimmed(
            texts(parts@).subrange(0, i as int),
        ).push(trim_of(parts@[i as int]@)));
        i = i + 1;
    }
    assert(texts(parts@).subrange(0, texts(parts@).len() as int) == texts(parts@));
    r
}

/// The given texts, one by one.
pub fn owned_texts(list: &[&str]) -> (r: Vec<String>)
    ensures
        texts(r@) == strs(list@),
{
    let mut r: Vec<String> = Vec::new();
    let mut i: usize = 0;
    while i < list.len()
        invariant
            i <= list.len(),
            texts(r@) == strs(list@.subrange(0, i as int)),
        decreases list.len() - i,
    {
        let ghost before = texts(r@);
        r.push(list[i].to_owned());
        assert(texts(r@) =~= before.push(list@[i as int]@));
        assert(strs(list@.subrange(0, i + 1)) =~= before.push(list@[i as int]@));
        i = i + 1;
    }
    assert(list@.subrange(0, list@.len() as int) == list@);
    r
}

proof fn lemma_trim_start_is(s: Seq<char>, a: int)
    requires
        0 <= a <= s.len(),
        forall|i: int| 0 <= i < a ==> is_space(#[trigger] s[i]),
        a < s.len() ==> !is_space(s[a]),
    ensures
        trim_start_of(s) == s.subrange(a, s.len() as int),
    decreases s.len(),
{
    if a > 0 {
        let t = s.drop_first();
        assert forall|i: int| 0 <= i < a - 1 implies is_space(#[trigger] t[i]) by {
            assert(t[i] == s[i + 1]);
        }
        lemma_trim_start_is(t, a - 1);
        assert(is_space(s[0]));
        assert(t.subrange(a - 1, t.len() as int) =~= s.subrange(a, s.len() as int));
    } else {
        assert(s.subrange(0, s.len() as int) =~= s);
    }
}

proof fn lemma_trim_end_is(s: Seq<char>, b: int)
    requires
        0 <= b <= s.len(),
        forall|i: int| b <= i < s.len() ==> is_space(#[trigger] s[i]),
        b > 0 ==> !is_space(s[b - 1]),
    ensures
        trim_end_of(s) == s.subrange(0, b),
    decreases s.len(),
{
    if b < s.len() {
        let t = s.drop_last();
        assert forall|i: int| b <= i < t.len() implies is_space(#[trigger] t[i]) by {
            assert(t[i] == s[i]);
        }
        lemma_trim_end_is(t, b);
        assert(is_space(s[s.len() - 1]));
        assert(t.subrange(0, b) =~= s.subrange(0, b));
    } else {
        assert(s.subrange(0, s.len() as int) =~= s);
    }
}

/// Trimming leaves what stands from the first character that is no white space
/// to the last one.
pub proof fn lemma_trim_is(s: Seq<char>, a: int, b: int)
    requires
        0 <= a < b <= s.len(),
        forall|i: int| 0 <= i < a ==> is_space(#[trigger] s[i]),
        forall|i: int| b <= i < s.len() ==> is_space(#[trigger] s[i]),
        !is_space(s[a]),
        !is_space(s[b - 1]),
    ensures
        trim_of(s) == s.subrange(a, b),
{
    lemma_trim_start_is(s, a);
    let t = s.subrange(a, s.len() as int);
    assert forall|i: int| b - a <= i < t.len() implies is_space(#[trigger] t[i]) by {
        assert(t[i] == s[i + a]);
    }
    lemma_trim_end_is(t, b - a);
    assert(t.subrange(0, b - a) =~= s.subrange(a, b));
}

/// Trimming leaves nothing of white space, and only of white space.
pub proof fn lemma_trim_blank(s: Seq<char>)
    ensures
        trim_of(s).len() == 0 <==> (forall|i: int| 0 <= i < s.len() ==> is_space(#[trigger] s[i])),
{
    if forall|i: int| 0 <= i < s.len() ==> is_space(#[trigger] s[i]) {
        lemma_trim_start_is(s, s.len() as int);
        assert(trim_of(s).len() == 0);
    } else {
        let a = lemma_first_non_space(s);
        lemma_trim_start_is(s, a);
        let t = s.subrange(a, s.len() as int);
        lemma_trim_end(t);
        if trim_end_of(t).len() == 0 {
            lemma_trim_end_loses_space(t);
            assert(is_space(t[0]));
        }
    }
}

proof fn lemma_trim_end_loses_space(s: Seq<char>)
    ensures
        forall|i: int| trim_end_of(s).len() <= i < s.len() ==> is_space(#[trigger] s[i]),
    decreases s.len(),
{
    if s.len() > 0 && is_space(s.last()) {
        lemma_trim_end_loses_space(s.drop_last());
        assert forall|i: int| trim_end_of(s).len() <= i < s.len() implies is_space(
            #[trigger] s[i],
        ) by {
            if i < s.len() - 1 {
                assert(s.drop_last()[i] == s[i]);
            }
        }
    }
}

proof fn lemma_first_non_space(s: Seq<char>) -> (a: int)
    requires
        !(forall|i: int| 0 <= i < s.len() ==> is_space(#[trigger] s[i])),
    ensures
        0 <= a < s.len(),
        !is_space(s[a]),
        forall|i: int| 0 <= i < a ==> is_space(#[trigger] s[i]),
    decreases s.len(),
{
    if s.len() == 0 || !is_space(s[0]) {
        0
    } else {
        let t = s.drop_first();
        let k = choose|k: int| 0 <= k < s.len() && !is_space(#[trigger] s[k]);
        assert(t[k - 1] == s[k]);
        let b = lemma_first_non_space(t);
        assert forall|i: int| 0 <= i < b + 1 implies is_space(#[trigger] s[i]) by {
            if i > 0 {
                assert(t[i - 1] == s[i]);
            }
        }
        b + 1
    }
}

/// A trimmed text neither begins nor ends with white space.
pub proof fn lemma_trimmed_ends(s: Seq<char>)
    ensures
        trim_of(s).len() > 0 ==> !is_space(trim_of(s)[0]) && !is_space(trim_of(s).last()),
        trim_of(s).len() <= s.len(),
{
    let u = trim_start_of(s);
    lemma_trim_start(s);
    lemma_trim_end(u);
    if trim_of(s).len() > 0 {
        assert(trim_of(s)[0] == u[0]);
    }
}

/// What stands in a part of a text stands in the text.
pub proof fn lemma_occurs_within(h: Seq<char>, n: Seq<char>, m: Seq<char>)
    requires
        occurs_in(h, n),
        occurs_in(n, m),
    ensures
        occurs_in(h, m),
{
    let i = choose|i: int| #[trigger] matches_at(h, n, i);
    let j = choose|j: int| #[trigger] matches_at(n, m, j);
    let whole = h.subrange(i, i + n.len());
    assert(h.subrange(i + j, i + j + m.len()) =~= whole.subrange(j, j + m.len()));
    assert(matches_at(h, m, i + j));
}

/// What trimming leaves is a stretch of the text.
pub proof fn lemma_trim_within(s: Seq<char>)
    ensures
        exists|a: int|
            0 <= a && a + trim_of(s).len() <= s.len() && trim_of(s) == #[trigger] s.subrange(
                a,
                a + trim_of(s).len(),
            ),
{
    if forall|i: int| 0 <= i < s.len() ==> is_space(#[trigger] s[i]) {
        lemma_trim_blank(s);
        assert(trim_of(s) =~= s.subrange(0int, 0int + trim_of(s).len()));
    } else {
        let a = lemma_first_non_space(s);
        lemma_trim_start_is(s, a);
        let u = s.subrange(a, s.len() as int);
        lemma_trim_end(u);
        let n = trim_of(s).len() as int;
        assert(u.subrange(0, n) =~= s.subrange(a, a + n));
    }
}

/// A number with zeros in front is made of digits, at least as many as asked for,
/// and is still worth the number.
pub proof fn lemma_padded_decimal(n: nat, width: nat)
    ensures
        all_digits(padded_decimal(n, width)),
        digits_value(padded_decimal(n, width)) == n,
        padded_decimal(n, width).len() >= width,
        padded_decimal(n, width).len() > 0,
        decimal(n).len() >= width ==> padded_decimal(n, width) == decimal(n),
{
    let d = decimal(n);
    lemma_decimal_value(n);
    if d.len() < width {
        let zeros = Seq::new((width - d.len()) as nat, |i: int| '0');
        lemma_zeros_worth_nothing(zeros, d);
        let p = zeros + d;
        assert forall|i: int| 0 <= i < p.len() implies is_digit(#[trigger] p[i]) by {
            if i >= zeros.len() {
                assert(p[i] == d[i - zeros.len()]);
            }
        }
    }
}

proof fn lemma_zeros_worth_nothing(zeros: Seq<char>, d: Seq<char>)
    requires
        forall|i: int| 0 <= i < zeros.len() ==> zeros[i] == '0',
    ensures
        digits_value(zeros + d) == digits_value(d),
    decreases zeros.len() + d.len(),
{
    let p = zeros + d;
    if d.len() > 0 {
        assert(p.drop_last() =~= zeros + d.drop_last());
        lemma_zeros_worth_nothing(zeros, d.drop_last());
        assert(p.last() == d.last());
    } else if zeros.len() > 0 {
        let t = zeros.drop_last();
        assert forall|i: int| 0 <= i < t.len() implies t[i] == '0' by {
            assert(t[i] == zeros[i]);
        }
        lemma_zeros_worth_nothing(t, d);
        assert(p.drop_last() =~= t + d);
        assert(p.last() == '0');
        assert(zeros[zeros.len() - 1] == '0');
    } else {
        assert(p =~= d);
    }
}

/// Replacing keeps what stands before and behind apart.
pub proof fn lemma_replaced_parts(a: Seq<char>, b: Seq<char>, c: char, to: Seq<char>)
    ensures
        replaced(a + b, c, to) == replaced(a, c, to) + replaced(b, c, to),
    decreases b.len(),
{
    if b.len() == 0 {
        assert(a + b =~= a);
        assert(replaced(a, c, to) + replaced(b, c, to) =~= replaced(a, c, to));
    } else {
        assert((a + b).drop_last() =~= a + b.drop_last());
        assert((a + b).last() == b.last());
        lemma_replaced_parts(a, b.drop_last(), c, to);
        if b.last() == c {
            assert(replaced(a + b, c, to) =~= replaced(a, c, to) + replaced(b, c, to));
        } else {
            assert(replaced(a + b, c, to) =~= replaced(a, c, to) + replaced(b, c, to));
        }
    }
}

/// A text without the character stays as it is, and no other character is lost.
pub proof fn lemma_replaced_stays(s: Seq<char>, c: char, to: Seq<char>)
    requires
        !s.contains(c),
    ensures
        replaced(s, c, to) == s,
    decreases s.len(),
{
    if s.len() > 0 {
        let t = s.drop_last();
        assert(s[s.len() - 1] == s.last());
        assert(s.contains(s.last()));
        assert(!t.contains(c)) by {
            if t.contains(c) {
                let i = choose|i: int| 0 <= i < t.len() && t[i] == c;
                assert(s[i] == c);
            }
        }
        lemma_replaced_stays(t, c, to);
        assert(t.push(s.last()) =~= s);
    }
}

/// Normal form does not change once a text has it, for words in lower case with
/// single spaces between them.
pub proof fn lemma_normalized_word(s: Seq<char>)
    requires
        s.len() > 0,
        is_ascii_chars(s),
        forall|i: int| 0 <= i < s.len() ==> !is_space(#[trigger] s[i]),
    ensures
        normalized(s) == ascii_lowered(s),
{
    lemma_trim_is(s, 0, s.len() as int);
    assert(s.subrange(0, s.len() as int) =~= s);
    let t = ascii_lowered(s);
    assert forall|i: int| 0 <= i < t.len() implies !is_space(#[trigger] t[i]) by {
        assert(t[i] == ascii_lower(s[i]));
        assert(!is_space(s[i]));
    }
    assert(trim_start_of(t) == t);
    lemma_whole_word(t);
    assert(t.subrange(0, word_len(t)) =~= t);
    let rest = t.subrange(word_len(t), t.len() as int);
    assert(rest =~= Seq::<char>::empty());
    assert(trim_start_of(rest).len() == 0);
    assert(words_of(rest) =~= Seq::<Seq<char>>::empty());
    assert(words_of(t) =~= seq![t]);
}

proof fn lemma_whole_word(s: Seq<char>)
    requires
        forall|i: int| 0 <= i < s.len() ==> !is_space(#[trigger] s[i]),
    ensures
        word_len(s) == s.len(),
    decreases s.len(),
{
    if s.len() > 0 {
        let t = s.drop_first();
        assert(!is_space(s[0]));
        assert forall|i: int| 0 <= i < t.len() implies !is_space(#[trigger] t[i]) by {
            assert(t[i] == s[i + 1]);
        }
        lemma_whole_word(t);
    }
}

proof fn lemma_words_of_two(a: Seq<char>, gap: Seq<char>, b: Seq<char>)
    requires
        a.len() > 0,
        b.len() > 0,
        gap.len() > 0,
        forall|i: int| 0 <= i < a.len() ==> !is_space(#[trigger] a[i]),
        forall|i: int| 0 <= i < b.len() ==> !is_space(#[trigger] b[i]),
        forall|i: int| 0 <= i < gap.len() ==> is_space(#[trigger] gap[i]),
    ensures
        words_of(a + gap + b) == seq![a, b],
{
    let s = a + gap + b;
    assert(!is_space(a[0]));
    assert(s[0] == a[0]);
    assert(trim_start_of(s) == s);
    lemma_word_ends(a, gap + b);
    assert(s =~= a + (gap + b));
    assert(word_len(s) == a.len());
    assert(s.subrange(0, a.len() as int) =~= a);
    let rest = s.subrange(a.len() as int, s.len() as int);
    assert(rest =~= gap + b);
    assert forall|i: int| 0 <= i < gap.len() implies is_space(#[trigger] rest[i]) by {
        assert(rest[i] == gap[i]);
    }
    assert(!is_space(b[0]));
    assert(rest[gap.len() as int] == b[0]);
    lemma_trim_start_is(rest, gap.len() as int);
    let t = rest.subrange(gap.len() as int, rest.len() as int);
    assert(t =~= b);
    lemma_whole_word(b);
    assert(b.subrange(0, b.len() as int) =~= b);
    let end = b.subrange(b.len() as int, b.len() as int);
    assert(end =~= Seq::<char>::empty());
    assert(trim_start_of(end).len() == 0);
    assert(words_of(end) =~= Seq::<Seq<char>>::empty());
    assert(words_of(rest) =~= seq![b]);
    assert(words_of(s) =~= seq![a, b]);
}

proof fn lemma_word_ends(a: Seq<char>, rest: Seq<char>)
    requires
        forall|i: int| 0 <= i < a.len() ==> !is_space(#[trigger] a[i]),
        rest.len() > 0,
        is_space(rest[0]),
    ensures
        word_len(a + rest) == a.len(),
    decreases a.len(),
{
    let s = a + rest;
    if a.len() > 0 {
        let t = a.drop_first();
        assert(!is_space(a[0]));
        assert(s[0] == a[0]);
        assert forall|i: int| 0 <= i < t.len() implies !is_space(#[trigger] t[i]) by {
            assert(t[i] == a[i + 1]);
        }
        lemma_word_ends(t, rest);
        assert(s.drop_first() =~= t + rest);
    } else {
        assert(s[0] == rest[0]);
    }
}

/// The normal form of two words, whatever white space is around and between them,
/// is both in lower case with one space between them.
pub proof fn lemma_normalized_words(
    before: Seq<char>,
    a: Seq<char>,
    gap: Seq<char>,
    b: Seq<char>,
    behind: Seq<char>,
)
    requires
        a.len() > 0,
        b.len() > 0,
        gap.len() > 0,
        is_ascii_chars(a + gap + b),
        forall|i: int| 0 <= i < a.len() ==> !is_space(#[trigger] a[i]),
        forall|i: int| 0 <= i < b.len() ==> !is_space(#[trigger] b[i]),
        forall|i: int| 0 <= i < gap.len() ==> is_space(#[trigger] gap[i]),
        forall|i: int| 0 <= i < before.len() ==> is_space(#[trigger] before[i]),
        forall|i: int| 0 <= i < behind.len() ==> is_space(#[trigger] behind[i]),
    ensures
        normalized(before + a + gap + b + behind) == ascii_lowered(a) + " "@ + ascii_lowered(b),
{
    let middle = a + gap + b;
    let s = before + a + gap + b + behind;
    let from = before.len() as int;
    let to = from + middle.len();
    assert forall|i: int| 0 <= i < from implies is_space(#[trigger] s[i]) by {
        assert(s[i] == before[i]);
    }
    assert forall|i: int| to <= i < s.len() implies is_space(#[trigger] s[i]) by {
        assert(s[i] == behind[i - to]);
    }
    assert(!is_space(a[0]));
    assert(!is_space(b[b.len() - 1]));
    assert(s[from] == a[0]);
    assert(s[to - 1] == b[b.len() - 1]);
    lemma_trim_is(s, from, to);
    assert(s.subrange(from, to) =~= middle);
    let x = ascii_lowered(a);
    let y = ascii_lowered(b);
    let z = ascii_lowered(gap);
    assert(ascii_lowered(middle) =~= x + z + y);
    assert forall|i: int| 0 <= i < x.len() implies !is_space(#[trigger] x[i]) by {
        assert(x[i] == ascii_lower(a[i]));
        assert(!is_space(a[i]));
    }
    assert forall|i: int| 0 <= i < y.len() implies !is_space(#[trigger] y[i]) by {
        assert(y[i] == ascii_lower(b[i]));
        assert(!is_space(b[i]));
    }
    assert forall|i: int| 0 <= i < z.len() implies is_space(#[trigger] z[i]) by {
        assert(z[i] == ascii_lower(gap[i]));
        assert(is_space(gap[i]));
    }
    lemma_words_of_two(x, z, y);
    let words = seq![x, y];
    assert(words.drop_last() =~= seq![x]);
    assert(joined(seq![x], " "@) == x);
    assert(joined(words, " "@) == x + " "@ + y);
}

}
