//! Where recordings go and what they are called.

use vstd::prelude::*;
use vstd::string::*;
use crate::path;
use crate::stamp;
use crate::text;

verus! {

/// Why no output path could be named.
#[derive(Debug)]
pub enum OutputError {
    HomeNotSet,
    InvalidFileName(String),
    NoUniquePath(String),
}

impl OutputError {
    pub open spec fn text_of(self) -> Seq<char> {
        match self {
            OutputError::HomeNotSet => "HOME is not set; pass --output explicitly"@,
            OutputError::InvalidFileName(path) => "invalid output file name: "@ + path@,
            OutputError::NoUniquePath(path) => "could not find a unique output path for "@ + path@,
        }
    }

    pub fn message(&self) -> (r: String)
        ensures
            r@ == self.text_of(),
    {
        match self {
            OutputError::HomeNotSet => "HOME is not set; pass --output explicitly".to_owned(),
            OutputError::InvalidFileName(path) => text::join2(
                "invalid output file name: ",
                path.as_str(),
            ),
            OutputError::NoUniquePath(path) => text::join2(
                "could not find a unique output path for ",
                path.as_str(),
            ),
        }
    }
}

pub open spec fn videos_dir(home: Seq<char>) -> Seq<char> {
    path::joined_path(path::joined_path(home, "Videos"@), "WarThunder Clips"@)
}

/// The directory for recordings below the home directory.
pub fn default_output_dir(home: Option<&str>) -> (r: Result<String, OutputError>)
    ensures
        match home {
            Some(home) => r matches Ok(dir) && dir@ == videos_dir(home@),
            None => r matches Err(e) && e is HomeNotSet,
        },
{
    match home {
        Some(home) => Ok(
            path::join_path(path::join_path(home, "Videos").as_str(), "WarThunder Clips"),
        ),
        None => Err(OutputError::HomeNotSet),
    }
}

pub open spec fn manual_name(time: Seq<char>) -> Seq<char> {
    "manual-"@ + time + ".webm"@
}

/// The name of a recording made by hand at the given time.
pub fn manual_file_name(time: &str) -> (r: String)
    ensures
        r@ == manual_name(time@),
{
    let mut r: String = "manual-".to_owned();
    r.append(time);
    r.append(".webm");
    r
}

/// The name of a recording made by hand now.
pub fn default_file_name() -> (r: String)
    ensures
        exists|time: Seq<char>|
            stamp::is_date_and_time(time) && r@ == #[trigger] manual_name(time),
{
    let time = stamp::local_time("%Y-%m-%d-%H-%M-%S");
    manual_file_name(time.as_str())
}

/// Whatever the time, the name begins with `manual-` and ends in `.webm`, and
/// the recording lies in the directory itself.
pub proof fn lemma_manual_name(time: Seq<char>, dir: Seq<char>)
    requires
        stamp::is_date_and_time(time),
    ensures
        text::has_prefix(manual_name(time), "manual-"@),
        text::has_suffix(manual_name(time), ".webm"@),
        !manual_name(time).contains('/'),
        text::has_prefix(path::joined_path(dir, manual_name(time)), dir),
        text::has_suffix(path::joined_path(dir, manual_name(time)), manual_name(time)),
{
    let name = manual_name(time);
    reveal_strlit("manual-");
    reveal_strlit(".webm");
    assert(name.subrange(0, "manual-"@.len() as int) == "manual-"@);
    assert(name.subrange(name.len() - ".webm"@.len(), name.len() as int) == ".webm"@);
    assert forall|i: int| 0 <= i < name.len() implies name[i] != '/' by {
        if 7 <= i < 7 + time.len() {
            let at = i - 7;
            assert(name[i] == time[at]);
            if at < time.len() - 15 {
                let year = time.take(time.len() - 15);
                assert(year[at] == time[at]);
                if at > 0 {
                    assert(year.skip(1)[at - 1] == time[at]);
                }
            }
        }
    }
    let joined = path::joined_path(dir, name);
    assert(name[0] == 'm');
    assert(joined.subrange(0, dir.len() as int) == dir);
    assert(joined.subrange(joined.len() - name.len(), joined.len() as int) == name);
}

/// No ASCII letter is a capital.
pub open spec fn has_no_capitals(s: Seq<char>) -> bool {
    forall|i: int| 0 <= i < s.len() ==> !('A' <= (#[trigger] s[i]) && s[i] <= 'Z')
}

/// What `char::to_lowercase` maps `c` to.
pub uninterp spec fn lowercase_of(c: char) -> Seq<char>;

/// `char::to_lowercase` maps a character to one or more characters in lower
/// case. The mapping is only named, but for ASCII, where it gives the letter in
/// lower case and leaves every other character as it is. None of the characters
/// is an ASCII capital, which is no letter in lower case.
#[verifier::external_body]
fn lowercase_chars(c: char) -> (r: Vec<char>)
    ensures
        r@ == lowercase_of(c),
        (c as u32) < 128 ==> r@ == seq![text::ascii_lower(c)],
        has_no_capitals(r@),
{
    c.to_lowercase().collect()
}

/// `c` in lower case: the letter where it is ASCII, else what
/// `char::to_lowercase` maps it to.
pub open spec fn lowered_char(c: char) -> Seq<char> {
    if (c as u32) < 128 {
        seq![text::ascii_lower(c)]
    } else {
        lowercase_of(c)
    }
}

/// `s` with every character in lower case.
pub open spec fn lowercase_each(s: Seq<char>) -> Seq<char>
    decreases s.len(),
{
    if s.len() == 0 {
        seq![]
    } else {
        lowercase_each(s.drop_last()) + lowered_char(s.last())
    }
}

pub open spec fn is_ascii_alphanumeric(c: char) -> bool {
    ('0' <= c && c <= '9') || ('a' <= c && c <= 'z') || ('A' <= c && c <= 'Z')
}

pub const SLUG_MAX_LEN: usize = 40;

/// A slug grown by one character: letters and digits are kept, and a stretch
/// of anything else becomes one dash, but not at the start. A slug of full
/// length grows no more.
pub open spec fn slug_with(slug: Seq<char>, c: char) -> Seq<char> {
    if slug.len() >= SLUG_MAX_LEN {
        slug
    } else if is_ascii_alphanumeric(c) {
        slug.push(c)
    } else if slug.len() > 0 && slug.last() != '-' {
        slug.push('-')
    } else {
        slug
    }
}

pub open spec fn slug_of_chars(s: Seq<char>) -> Seq<char>
    decreases s.len(),
{
    if s.len() == 0 {
        seq![]
    } else {
        slug_with(slug_of_chars(s.drop_last()), s.last())
    }
}

/// The slug of a text whose characters are in lower case.
pub open spec fn slug_of(lowered: Seq<char>) -> Seq<char> {
    let slug = text::trim_end_char_of(
        text::trim_start_char_of(slug_of_chars(lowered), '-'),
        '-',
    );
    if slug.len() == 0 {
        "unknown"@
    } else {
        slug
    }
}

/// Letters, digits and single dashes, and no dash at the start.
pub open spec fn slug_shaped(s: Seq<char>) -> bool {
    &&& s.len() <= SLUG_MAX_LEN
    &&& forall|i: int| 0 <= i < s.len() ==> (is_ascii_alphanumeric(#[trigger] s[i]) || s[i] == '-')
    &&& forall|i: int| 0 < i < s.len() && s[i - 1] == '-' ==> #[trigger] s[i] != '-'
    &&& s.len() > 0 ==> s[0] != '-'
}

proof fn lemma_slug_shaped(s: Seq<char>)
    ensures
        slug_shaped(slug_of_chars(s)),
    decreases s.len(),
{
    if s.len() > 0 {
        lemma_slug_shaped(s.drop_last());
    }
}

/// Lower case letters, digits and single dashes between them, at least one
/// character and at most 40.
pub open spec fn is_slug(s: Seq<char>) -> bool {
    &&& slug_shaped(s)
    &&& has_no_capitals(s)
    &&& s.len() > 0
    &&& s.last() != '-'
}

proof fn lemma_slug_chars(s: Seq<char>)
    requires
        has_no_capitals(s),
    ensures
        has_no_capitals(slug_of_chars(s)),
    decreases s.len(),
{
    if s.len() > 0 {
        assert forall|i: int| 0 <= i < s.drop_last().len() implies !('A' <= (
        #[trigger] s.drop_last()[i]) && s.drop_last()[i] <= 'Z') by {
            assert(s[i] == s.drop_last()[i]);
        }
        lemma_slug_chars(s.drop_last());
        assert(s[s.len() - 1] == s.last());
    }
}

proof fn lemma_trim_end_chars(s: Seq<char>)
    requires
        has_no_capitals(s),
    ensures
        has_no_capitals(text::trim_end_char_of(s, '-')),
    decreases s.len(),
{
    if s.len() > 0 && s.last() == '-' {
        let t = s.drop_last();
        assert forall|i: int| 0 <= i < t.len() implies !('A' <= (#[trigger] t[i]) && t[i]
            <= 'Z') by {
            assert(s[i] == t[i]);
        }
        lemma_trim_end_chars(t);
    }
}

/// What is in lower case makes a slug in lower case.
pub proof fn lemma_lower_slug(lowered: Seq<char>)
    requires
        has_no_capitals(lowered),
    ensures
        is_slug(slug_of(lowered)),
{
    lemma_slug(lowered);
    lemma_slug_shaped(lowered);
    lemma_slug_chars(lowered);
    assert(text::trim_start_char_of(slug_of_chars(lowered), '-') == slug_of_chars(lowered));
    lemma_trim_end_chars(slug_of_chars(lowered));
    reveal_strlit("unknown");
}

proof fn lemma_shaped_stays(s: Seq<char>)
    requires
        slug_shaped(s),
    ensures
        slug_of_chars(s) == s,
    decreases s.len(),
{
    if s.len() > 0 {
        let t = s.drop_last();
        assert(slug_shaped(t)) by {
            assert forall|i: int| 0 <= i < t.len() implies (is_ascii_alphanumeric(#[trigger] t[i])
                || t[i] == '-') by {
                assert(s[i] == t[i]);
            }
            assert forall|i: int| 0 < i < t.len() && t[i - 1] == '-' implies #[trigger] t[i]
                != '-' by {
                assert(s[i] == t[i]);
            }
        }
        lemma_shaped_stays(t);
        assert(is_ascii_alphanumeric(s[s.len() - 1]) || s[s.len() - 1] == '-');
        assert(t.push(s.last()) =~= s);
    }
}

proof fn lemma_lowered_slug(s: Seq<char>)
    requires
        slug_shaped(s),
        has_no_capitals(s),
    ensures
        lowercase_each(s) == s,
    decreases s.len(),
{
    if s.len() > 0 {
        let t = s.drop_last();
        assert(slug_shaped(t) && has_no_capitals(t)) by {
            assert forall|i: int| 0 <= i < t.len() implies (is_ascii_alphanumeric(#[trigger] t[i])
                || t[i] == '-') && !('A' <= t[i] && t[i] <= 'Z') by {
                assert(s[i] == t[i]);
            }
            assert forall|i: int| 0 < i < t.len() && t[i - 1] == '-' implies #[trigger] t[i]
                != '-' by {
                assert(s[i] == t[i]);
            }
        }
        lemma_lowered_slug(t);
        let c = s[s.len() - 1];
        assert(is_ascii_alphanumeric(c) || c == '-');
        assert(lowered_char(c) == seq![c]);
        assert(t + seq![c] =~= s);
    }
}

/// A slug is its own slug.
pub proof fn lemma_slug_of_slug(s: Seq<char>)
    requires
        is_slug(s),
    ensures
        slug_of(s) == s,
        slug_of(lowercase_each(s)) == s,
{
    lemma_shaped_stays(s);
    lemma_lowered_slug(s);
    assert(text::trim_start_char_of(s, '-') == s);
    assert(text::trim_end_char_of(s, '-') == s);
}

proof fn lemma_nothing_to_slug(s: Seq<char>)
    requires
        forall|i: int| 0 <= i < s.len() ==> !is_ascii_alphanumeric(#[trigger] s[i]),
    ensures
        slug_of_chars(s).len() == 0,
    decreases s.len(),
{
    if s.len() > 0 {
        let t = s.drop_last();
        assert forall|i: int| 0 <= i < t.len() implies !is_ascii_alphanumeric(#[trigger] t[i]) by {
            assert(s[i] == t[i]);
        }
        lemma_nothing_to_slug(t);
        assert(!is_ascii_alphanumeric(s[s.len() - 1]));
    }
}

/// A text without a letter or a digit of ASCII is called unknown.
pub proof fn lemma_unknown_slug(lowered: Seq<char>)
    requires
        forall|i: int| 0 <= i < lowered.len() ==> !is_ascii_alphanumeric(#[trigger] lowered[i]),
    ensures
        slug_of(lowered) == "unknown"@,
{
    lemma_nothing_to_slug(lowered);
}

/// Every slug is made of letters, digits and single dashes between them, is
/// not empty and has at most 40 characters.
pub proof fn lemma_slug(lowered: Seq<char>)
    ensures
        slug_shaped(slug_of(lowered)),
        slug_of(lowered).len() > 0,
        slug_of(lowered).last() != '-',
{
    let s = slug_of_chars(lowered);
    lemma_slug_shaped(lowered);
    let t = text::trim_start_char_of(s, '-');
    assert(t == s);
    lemma_trim_end_shape(s);
    reveal_strlit("unknown");
}

proof fn lemma_trim_end_shape(s: Seq<char>)
    requires
        slug_shaped(s),
    ensures
        slug_shaped(text::trim_end_char_of(s, '-')),
        text::trim_end_char_of(s, '-').len() > 0 ==> text::trim_end_char_of(s, '-').last() != '-',
    decreases s.len(),
{
    if s.len() > 0 && s.last() == '-' {
        let t = s.drop_last();
        assert(slug_shaped(t)) by {
            assert forall|i: int| 0 <= i < t.len() implies (is_ascii_alphanumeric(#[trigger] t[i])
                || t[i] == '-') by {
                assert(s[i] == t[i]);
            }
            assert forall|i: int| 0 < i < t.len() && t[i - 1] == '-' implies #[trigger] t[i]
                != '-' by {
                assert(s[i] == t[i]);
            }
        }
        lemma_trim_end_shape(t);
    }
}

/// The slug of a text whose characters are in lower case already.
pub fn slug_from_lowercase(lowered: &Vec<char>) -> (r: String)
    ensures
        r@ == slug_of(lowered@),
{
    let mut slug: Vec<char> = Vec::new();
    let mut i: usize = 0;
    while i < lowered.len()
        invariant
            i <= lowered.len(),
            slug@ == slug_of_chars(lowered@.subrange(0, i as int)),
        decreases lowered.len() - i,
    {
        assert(lowered@.subrange(0, i + 1).drop_last() == lowered@.subrange(0, i as int));
        let c: char = lowered[i];
        if slug.len() < SLUG_MAX_LEN {
            if ('0' <= c && c <= '9') || ('a' <= c && c <= 'z') || ('A' <= c && c <= 'Z') {
                slug.push(c);
            } else if slug.len() > 0 && slug[slug.len() - 1] != '-' {
                slug.push('-');
            }
        }
        i = i + 1;
    }
    assert(lowered@.subrange(0, lowered@.len() as int) == lowered@);
    let whole = text::text_of(slug.as_slice());
    let trimmed = text::trim_end_char(text::trim_start_char(whole.as_str(), '-'), '-');
    if trimmed.is_empty() {
        "unknown".to_owned()
    } else {
        trimmed.to_owned()
    }
}

/// A text as part of a file name.
pub fn slugify_filename_part(input: &str) -> (r: String)
    ensures
        r@ == slug_of(lowercase_each(input@)),
        is_slug(r@),
{
    let v = text::chars_of(input);
    let mut lowered: Vec<char> = Vec::new();
    let mut i: usize = 0;
    while i < v.len()
        invariant
            i <= v.len(),
            v@ == input@,
            lowered@ == lowercase_each(input@.subrange(0, i as int)),
            has_no_capitals(lowered@),
        decreases v.len() - i,
    {
        let ghost before = lowered@;
        assert(input@.subrange(0, i + 1).drop_last() == input@.subrange(0, i as int));
        let mut more = lowercase_chars(v[i]);
        let ghost new = more@;
        lowered.append(&mut more);
        assert forall|j: int| 0 <= j < lowered@.len() implies !('A' <= (#[trigger] lowered@[j])
            && lowered@[j] <= 'Z') by {
            if j < before.len() {
                assert(lowered@[j] == before[j]);
            } else {
                assert(lowered@[j] == new[j - before.len()]);
            }
        }
        i = i + 1;
    }
    assert(input@.subrange(0, input@.len() as int) == input@);
    proof {
        lemma_lower_slug(lowered@);
    }
    slug_from_lowercase(&lowered)
}

/// How many numbered names are tried.
pub const MAX_NUMBERED_NAMES: u32 = 9_999;

/// The path that takes the place of `p` on the `index`th try: `p` itself
/// first, then `p` with a number behind its stem.
pub open spec fn candidate(p: Seq<char>, index: nat) -> Seq<char> {
    if index == 0 {
        p
    } else {
        let parent = match path::parent_of(p) {
            Some(dir) => dir,
            None => seq![],
        };
        let stem = path::file_stem_of(p)->0;
        let numbered = stem + "-"@ + text::decimal(index);
        path::joined_path(
            parent,
            match path::extension_of(p) {
                Some(ext) => numbered + "."@ + ext,
                None => numbered,
            },
        )
    }
}

fn numbered_path(p: &str, stem: &str, index: u32) -> (r: String)
    requires
        path::file_stem_of(p@) == Some(stem@),
        index > 0,
    ensures
        r@ == candidate(p@, index as nat),
{
    let parent: String = match path::parent(p) {
        Some(dir) => dir,
        None => String::new(),
    };
    let mut name: String = stem.to_owned();
    name.append("-");
    name.append(text::decimal_text(index as u128).as_str());
    match path::extension(p) {
        Some(ext) => {
            name.append(".");
            name.append(ext.as_str());
        },
        None => {},
    }
    path::join_path(parent.as_str(), name.as_str())
}

/// All the names from the first to before `end` are taken.
pub open spec fn all_taken(p: Seq<char>, taken: Seq<Seq<char>>, end: nat) -> bool {
    forall|k: nat| k < end ==> taken.contains(#[trigger] candidate(p, k))
}

/// The choice of a path that is not taken: `p` where it is free, else the first
/// numbered name that is; none where `p` has no name to number, or all numbered
/// names are taken.
pub open spec fn is_unique_choice(
    p: Seq<char>,
    taken: Seq<Seq<char>>,
    r: Result<String, OutputError>,
) -> bool {
    match r {
        Ok(free) => exists|k: nat|
            k <= MAX_NUMBERED_NAMES && free@ == #[trigger] candidate(p, k) && !taken.contains(free@)
                && all_taken(p, taken, k) && (k > 0 ==> path::file_stem_of(p) is Some),
        Err(OutputError::InvalidFileName(named)) => named@ == p && taken.contains(p)
            && path::file_stem_of(p) is None,
        Err(OutputError::NoUniquePath(named)) => named@ == p && path::file_stem_of(p) is Some
            && all_taken(p, taken, (MAX_NUMBERED_NAMES + 1) as nat),
        Err(OutputError::HomeNotSet) => false,
    }
}

/// A path that is not taken. `taken` holds the paths that exist.
pub fn ensure_unique_path(p: String, taken: &Vec<String>) -> (r: Result<String, OutputError>)
    ensures
        is_unique_choice(p@, text::texts(taken@), r),
{
    assert(candidate(p@, 0) == p@);
    if !text::holds_text(taken, p.as_str()) {
        return Ok(p);
    }
    let stem: String = match path::file_stem(p.as_str()) {
        Some(stem) => stem,
        None => {
            return Err(OutputError::InvalidFileName(p));
        },
    };
    let mut index: u32 = 1;
    while index <= MAX_NUMBERED_NAMES
        invariant
            1 <= index <= MAX_NUMBERED_NAMES + 1,
            path::file_stem_of(p@) == Some(stem@),
            all_taken(p@, text::texts(taken@), index as nat),
        decreases MAX_NUMBERED_NAMES + 1 - index,
    {
        let name = numbered_path(p.as_str(), stem.as_str(), index);
        if !text::holds_text(taken, name.as_str()) {
            return Ok(name);
        }
        index = index + 1;
    }
    Err(OutputError::NoUniquePath(p))
}

/// The path of a recording: the one asked for, or one named after the time in
/// the directory for recordings; made unique either way.
pub fn resolve_output_path_in_dir(
    output: Option<String>,
    output_dir: &str,
    taken: &Vec<String>,
) -> (r: Result<String, OutputError>)
    ensures
        match output {
            Some(p) => is_unique_choice(p@, text::texts(taken@), r),
            None => exists|time: Seq<char>|
                stamp::is_date_and_time(time) && is_unique_choice(
                    path::joined_path(output_dir@, #[trigger] manual_name(time)),
                    text::texts(taken@),
                    r,
                ),
        },
{
    match output {
        Some(p) => ensure_unique_path(p, taken),
        None => {
            let name = default_file_name();
            ensure_unique_path(path::join_path(output_dir, name.as_str()), taken)
        },
    }
}

/// A chosen path is never one that exists.
pub proof fn lemma_choice_is_free(p: Seq<char>, taken: Seq<Seq<char>>, free: String)
    requires
        is_unique_choice(p, taken, Ok(free)),
    ensures
        !taken.contains(free@),
        !taken.contains(p) ==> free@ == p,
{
    let k = choose|k: nat|
        k <= MAX_NUMBERED_NAMES && free@ == #[trigger] candidate(p, k) && !taken.contains(free@)
            && all_taken(p, taken, k);
    if !taken.contains(p) && k > 0 {
        assert(candidate(p, 0) == p);
    }
}

/// A text of small letters and digits, not longer than a slug may be, is its own
/// slug.
pub proof fn lemma_plain_text_is_its_slug(s: Seq<char>)
    requires
        0 < s.len() <= 40,
        forall|i: int|
            0 <= i < s.len() ==> ('0' <= (#[trigger] s[i]) && s[i] <= '9') || ('a' <= s[i] && s[i]
                <= 'z'),
    ensures
        slug_of(s) == s,
{
    lemma_plain_chars_stay(s);
    assert(s[0] != '-');
    assert(s[s.len() - 1] != '-');
    assert(text::trim_start_char_of(s, '-') == s);
    assert(text::trim_end_char_of(s, '-') == s);
}

proof fn lemma_plain_chars_stay(s: Seq<char>)
    requires
        s.len() <= 40,
        forall|i: int|
            0 <= i < s.len() ==> ('0' <= (#[trigger] s[i]) && s[i] <= '9') || ('a' <= s[i] && s[i]
                <= 'z'),
    ensures
        slug_of_chars(s) == s,
    decreases s.len(),
{
    if s.len() > 0 {
        let t = s.drop_last();
        assert forall|i: int| 0 <= i < t.len() implies ('0' <= (#[trigger] t[i]) && t[i] <= '9')
            || ('a' <= t[i] && t[i] <= 'z') by {
            assert(t[i] == s[i]);
        }
        lemma_plain_chars_stay(t);
        assert(s[s.len() - 1] == s.last());
        assert(t.push(s.last()) =~= s);
    }
}

/// A name that takes the place of another one lies in the same directory, has the
/// same extension, and a number behind the same stem.
pub proof fn lemma_numbered_name(p: Seq<char>, index: nat)
    requires
        index > 0,
        path::file_name_of(p) is Some,
    ensures
        ({
            let stem = path::file_stem_of(p)->0;
            let numbered = stem + "-"@ + text::decimal(index);
            &&& path::file_name_of(candidate(p, index)) == Some(
                match path::extension_of(p) {
                    Some(ext) => numbered + "."@ + ext,
                    None => numbered,
                },
            )
            &&& path::parent_of(p) matches Some(dir) ==> text::has_prefix(
                candidate(p, index),
                dir,
            )
        }),
{
    reveal_strlit("-");
    reveal_strlit(".");
    let stem = path::file_stem_of(p)->0;
    let full = path::file_name_of(p)->0;
    let number = text::decimal(index);
    let numbered = stem + "-"@ + number;
    let name = match path::extension_of(p) {
        Some(ext) => numbered + "."@ + ext,
        None => numbered,
    };
    path::lemma_file_name_is_plain(p);
    text::lemma_decimal_value(index);
    path::lemma_after_last(full, '.');
    assert forall|i: int| 0 <= i < name.len() implies name[i] != '/' by {
        if i < stem.len() {
            assert(name[i] == full[i]);
            assert(full.contains(full[i]));
        } else if i < stem.len() + 1 {
            assert(name[i] == '-');
        } else if i < numbered.len() {
            assert(name[i] == number[i - stem.len() - 1]);
            assert(text::is_digit(number[i - stem.len() - 1]));
        } else if i == numbered.len() {
            assert(name[i] == '.');
        } else {
            let ext = path::extension_of(p)->0;
            let k = i - numbered.len() - 1;
            assert(name[i] == ext[k]);
            assert(ext[k] == full[path::extension_dot(full) + 1 + k]);
            assert(full.contains(full[path::extension_dot(full) + 1 + k]));
        }
    }
    assert(name[stem.len() as int] == '-');
    assert(name.len() >= 2);
    assert(stem.len() == 0 ==> name[0] == '-');
    assert(name != seq!['.'] && name != seq!['.', '.']) by {
        assert(name.contains('-'));
        if name == seq!['.'] || name == seq!['.', '.'] {
            assert(name[stem.len() as int] == '.');
        }
    }
    let dir = match path::parent_of(p) {
        Some(dir) => dir,
        None => Seq::empty(),
    };
    path::lemma_joined_path(dir, name);
}

}
