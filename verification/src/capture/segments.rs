//! Replay segments: the short files of a rolling recording, their order in
//! time, and which of them make up a clip.

use vstd::prelude::*;
use vstd::string::*;
use crate::path;
use crate::text;
use crate::time::{Duration, SystemTime, NANOS_PER_SEC, NANOS_PER_MILLI, SYSTEM_TIME_MAX, SYSTEM_TIME_MIN};

verus! {

/// A segment file: its number, where it lies, and when it was last written.
#[derive(Debug)]
pub struct ReplaySegment {
    pub index: u64,
    pub path: String,
    pub modified: SystemTime,
}

impl Clone for ReplaySegment {
    fn clone(&self) -> (r: Self)
        ensures
            r == *self,
    {
        ReplaySegment { index: self.index, path: self.path.clone(), modified: self.modified }
    }
}

/// What a directory listing says of one entry.
#[derive(Debug)]
pub struct SegmentFile {
    pub path: String,
    pub is_file: bool,
    pub len: u64,
    pub modified: Option<SystemTime>,
}

/// The segments that are finished, and the newest, which may still grow.
#[derive(Debug)]
pub struct StableSegmentSnapshot {
    pub found_count: usize,
    pub selected: Vec<ReplaySegment>,
    pub excluded_newest: Option<ReplaySegment>,
}

/// Which segments show an event, or why none can be named.
#[derive(Debug)]
pub enum EventSegmentSelection {
    Selected(Vec<ReplaySegment>),
    NotEnoughSegments { available: usize, needed: usize },
    NotReadyYet { reason: String },
    TooOld { reason: String },
}

pub open spec fn at_least_one(n: int) -> int {
    if n >= 1 {
        n
    } else {
        1
    }
}

pub open spec fn div_ceil(a: int, b: int) -> int {
    (a + b - 1) / b
}

/// How many segments hold the buffer, with two to spare.
pub open spec fn kept_count(buffer_seconds: int, segment_seconds: int) -> int {
    div_ceil(buffer_seconds, at_least_one(segment_seconds)) + 2
}

fn ceil_div(a: u64, b: u64) -> (r: u64)
    requires
        b >= 1,
    ensures
        r == div_ceil(a as int, b as int),
        r <= a,
{
    let q: u64 = a / b;
    let rem: u64 = a % b;
    proof {
        assert(a == q * b + rem) by (nonlinear_arith)
            requires
                b >= 1,
                q == a / b,
                rem == a % b,
        ;
        if rem == 0 {
            assert((a + b - 1) / (b as int) == q) by (nonlinear_arith)
                requires
                    a == q * b,
                    b >= 1,
            ;
            assert(q <= a) by (nonlinear_arith)
                requires
                    a == q * b,
                    b >= 1,
            ;
        } else {
            assert((a + b - 1) / (b as int) == q + 1) by (nonlinear_arith)
                requires
                    a == q * b + rem,
                    1 <= rem < b,
            ;
            assert(q + 1 <= a) by (nonlinear_arith)
                requires
                    a == q * b + rem,
                    1 <= rem,
                    b >= 1,
            ;
        }
    }
    if rem == 0 {
        q
    } else {
        q + 1
    }
}

pub fn segments_to_keep(buffer_seconds: u64, segment_seconds: u64) -> (r: usize)
    requires
        kept_count(buffer_seconds as int, segment_seconds as int) <= usize::MAX,
    ensures
        r == kept_count(buffer_seconds as int, segment_seconds as int),
{
    let segment: u64 = if segment_seconds >= 1 {
        segment_seconds
    } else {
        1
    };
    let base: u64 = ceil_div(buffer_seconds, segment);
    (base + 2) as usize
}

pub open spec fn segment_name(index: nat) -> Seq<char> {
    "segment-"@ + text::padded_decimal(index, 6) + ".webm"@
}

pub fn segment_file_name(index: u64) -> (r: String)
    ensures
        r@ == segment_name(index as nat),
{
    let mut r: String = "segment-".to_owned();
    r.append(text::padded_decimal_text(index as u128, 6).as_str());
    r.append(".webm");
    r
}

pub fn segment_location_pattern(dir: &str) -> (r: String)
    ensures
        r@ == path::joined_path(dir@, "segment-%06d.webm"@),
{
    path::join_path(dir, "segment-%06d.webm")
}

/// The number in a segment's file name.
pub open spec fn segment_index(file_path: Seq<char>) -> Option<nat> {
    match path::file_name_of(file_path) {
        Some(name) => match text::strip_prefix_of(name, "segment-"@) {
            Some(rest) => match text::strip_suffix_of(rest, ".webm"@) {
                Some(digits) => text::parse_unsigned(digits, u64::MAX as nat),
                None => None,
            },
            None => None,
        },
        None => None,
    }
}

pub fn parse_segment_index(file_path: &str) -> (r: Option<u64>)
    ensures
        match r {
            Some(n) => segment_index(file_path@) == Some(n as nat),
            None => segment_index(file_path@) is None,
        },
{
    match path::file_name(file_path) {
        Some(name) => match text::strip_prefix(name.as_str(), "segment-") {
            Some(rest) => match text::strip_suffix(rest, ".webm") {
                Some(digits) => text::parse_u64(digits),
                None => None,
            },
            None => None,
        },
        None => None,
    }
}

/// Written no later than `b`, and of a smaller or the same number where both
/// were written at once.
pub open spec fn not_after(a: ReplaySegment, b: ReplaySegment) -> bool {
    a.modified.nanos < b.modified.nanos || (a.modified.nanos == b.modified.nanos && a.index
        <= b.index)
}

pub open spec fn is_chronological(s: Seq<ReplaySegment>) -> bool {
    forall|i: int, j: int| 0 <= i <= j < s.len() ==> not_after(#[trigger] s[i], #[trigger] s[j])
}

/// Where `x` goes in an ordered list: behind all that are not after it.
pub open spec fn insertion_point(s: Seq<ReplaySegment>, x: ReplaySegment) -> int
    decreases s.len(),
{
    if s.len() == 0 || not_after(s.last(), x) {
        s.len() as int
    } else {
        insertion_point(s.drop_last(), x)
    }
}

/// The segments in the order of time, those that tie in the order given.
pub open spec fn chronological(s: Seq<ReplaySegment>) -> Seq<ReplaySegment>
    decreases s.len(),
{
    if s.len() == 0 {
        s
    } else {
        let before = chronological(s.drop_last());
        before.insert(insertion_point(before, s.last()), s.last())
    }
}

proof fn lemma_insertion_point(s: Seq<ReplaySegment>, x: ReplaySegment)
    requires
        is_chronological(s),
    ensures
        0 <= insertion_point(s, x) <= s.len(),
        forall|i: int| 0 <= i < insertion_point(s, x) ==> not_after(#[trigger] s[i], x),
        forall|i: int| insertion_point(s, x) <= i < s.len() ==> !not_after(#[trigger] s[i], x),
    decreases s.len(),
{
    if s.len() == 0 {
    } else if not_after(s.last(), x) {
        assert forall|i: int| 0 <= i < s.len() implies not_after(#[trigger] s[i], x) by {
            assert(not_after(s[i], s[s.len() - 1]));
        }
    } else {
        let t = s.drop_last();
        assert(is_chronological(t)) by {
            assert forall|i: int, j: int| 0 <= i <= j < t.len() implies not_after(
                #[trigger] t[i],
                #[trigger] t[j],
            ) by {
                assert(not_after(s[i], s[j]));
            }
        }
        lemma_insertion_point(t, x);
        let k = insertion_point(t, x);
        assert forall|i: int| 0 <= i < k implies not_after(#[trigger] s[i], x) by {
            assert(t[i] == s[i]);
        }
        assert forall|i: int| k <= i < s.len() implies !not_after(#[trigger] s[i], x) by {
            if i < t.len() {
                assert(t[i] == s[i]);
            }
        }
    }
}

/// Putting segments in the order of time loses none, invents none, and leaves
/// them ordered.
pub proof fn lemma_chronological(s: Seq<ReplaySegment>)
    ensures
        is_chronological(chronological(s)),
        chronological(s).to_multiset() == s.to_multiset(),
        chronological(s).len() == s.len(),
    decreases s.len(),
{
    if s.len() > 0 {
        let before = chronological(s.drop_last());
        let x = s.last();
        lemma_chronological(s.drop_last());
        lemma_insertion_point(before, x);
        let k = insertion_point(before, x);
        let after = before.insert(k, x);
        assert forall|i: int, j: int| 0 <= i <= j < after.len() implies not_after(
            #[trigger] after[i],
            #[trigger] after[j],
        ) by {
            if i < k && j > k {
                assert(not_after(before[i], before[j - 1]));
            } else if j < k {
                assert(not_after(before[i], before[j]));
            } else if i > k {
                assert(not_after(before[i - 1], before[j - 1]));
            } else if i < k && j == k {
                assert(not_after(before[i], x));
            } else if i == k && j > k {
                assert(!not_after(before[j - 1], x));
            }
        }
        broadcast use vstd::seq_lib::group_to_multiset_ensures;

        assert(s == s.drop_last().push(x));
        assert(after.remove(k) == before);
        assert(after.contains(x)) by {
            assert(after[k] == x);
        }
        after.to_multiset_ensures();
        assert(after.to_multiset() =~= before.to_multiset().insert(x));
    }
}

/// A list already in the order of time stays as it is.
pub proof fn lemma_chronological_fixed(s: Seq<ReplaySegment>)
    requires
        is_chronological(s),
    ensures
        chronological(s) == s,
    decreases s.len(),
{
    if s.len() > 0 {
        let t = s.drop_last();
        assert forall|i: int, j: int| 0 <= i <= j < t.len() implies not_after(
            #[trigger] t[i],
            #[trigger] t[j],
        ) by {
            assert(not_after(s[i], s[j]));
        }
        lemma_chronological_fixed(t);
        if t.len() > 0 {
            assert(not_after(s[s.len() - 2], s[s.len() - 1]));
        }
        assert(t.insert(t.len() as int, s.last()) == s);
    }
}

fn comes_not_after(a: &ReplaySegment, b: &ReplaySegment) -> (r: bool)
    ensures
        r == not_after(*a, *b),
{
    a.modified.nanos < b.modified.nanos || (a.modified.nanos == b.modified.nanos && a.index
        <= b.index)
}

fn point_for(s: &Vec<ReplaySegment>, x: &ReplaySegment) -> (r: usize)
    ensures
        r <= s.len(),
        r == insertion_point(s@, *x),
{
    let mut k: usize = s.len();
    assert(s@.subrange(0, s@.len() as int) == s@);
    while k > 0 && !comes_not_after(&s[k - 1], x)
        invariant
            k <= s.len(),
            insertion_point(s@, *x) == insertion_point(s@.subrange(0, k as int), *x),
        decreases k,
    {
        assert(s@.subrange(0, k as int).drop_last() == s@.subrange(0, k - 1));
        k = k - 1;
    }
    k
}

/// A copy of `segments` in the order of time.
pub fn sorted_chronologically(segments: &Vec<ReplaySegment>) -> (r: Vec<ReplaySegment>)
    ensures
        r@ == chronological(segments@),
        r@.len() == segments@.len(),
{
    let mut r: Vec<ReplaySegment> = Vec::new();
    let mut i: usize = 0;
    while i < segments.len()
        invariant
            i <= segments.len(),
            r@ == chronological(segments@.subrange(0, i as int)),
            r@.len() == i,
        decreases segments.len() - i,
    {
        let k: usize = point_for(&r, &segments[i]);
        assert(segments@.subrange(0, i + 1).drop_last() == segments@.subrange(0, i as int));
        r.insert(k, segments[i].clone());
        i = i + 1;
    }
    assert(segments@.subrange(0, segments@.len() as int) == segments@);
    r
}

pub fn sort_segments_chronologically(segments: &mut Vec<ReplaySegment>)
    ensures
        final(segments)@ == chronological(old(segments)@),
        final(segments)@.len() == old(segments)@.len(),
{
    let sorted = sorted_chronologically(segments);
    *segments = sorted;
}


/// A listed file as a segment, where it is one: a file that is not empty and
/// whose name holds a number.
pub open spec fn as_segment(file: SegmentFile) -> Option<ReplaySegment> {
    match segment_index(file.path@) {
        Some(index) => if file.is_file && file.len != 0 {
            Some(
                ReplaySegment {
                    index: index as u64,
                    path: file.path,
                    modified: match file.modified {
                        Some(modified) => modified,
                        None => SystemTime { nanos: 0 },
                    },
                },
            )
        } else {
            None
        },
        None => None,
    }
}

/// The segments among the listed files, in the order of the listing.
pub open spec fn listed(files: Seq<SegmentFile>) -> Seq<ReplaySegment>
    decreases files.len(),
{
    if files.len() == 0 {
        seq![]
    } else {
        match as_segment(files.last()) {
            Some(segment) => listed(files.drop_last()).push(segment),
            None => listed(files.drop_last()),
        }
    }
}

/// The segments of a directory, in the order of time.
pub fn list_segments(files: &Vec<SegmentFile>) -> (r: Vec<ReplaySegment>)
    ensures
        r@ == chronological(listed(files@)),
        r@.len() <= files@.len(),
{
    let mut segments: Vec<ReplaySegment> = Vec::new();
    let mut i: usize = 0;
    while i < files.len()
        invariant
            i <= files.len(),
            segments@ == listed(files@.subrange(0, i as int)),
            segments@.len() <= i,
        decreases files.len() - i,
    {
        assert(files@.subrange(0, i + 1).drop_last() == files@.subrange(0, i as int));
        let file = &files[i];
        match parse_segment_index(file.path.as_str()) {
            Some(index) => {
                if file.is_file && file.len != 0 {
                    let modified: SystemTime = match file.modified {
                        Some(modified) => modified,
                        None => SystemTime::unix_epoch(),
                    };
                    segments.push(ReplaySegment { index, path: file.path.clone(), modified });
                }
            },
            None => {},
        }
        i = i + 1;
    }
    assert(files@.subrange(0, files@.len() as int) == files@);
    sort_segments_chronologically(&mut segments);
    segments
}

/// The oldest segments, all but the `keep` newest.
pub open spec fn superfluous(s: Seq<ReplaySegment>, keep: int) -> Seq<ReplaySegment> {
    if s.len() > keep {
        s.subrange(0, s.len() - keep)
    } else {
        seq![]
    }
}

/// The segments to remove so that the `keep` newest stay.
pub fn prune_old_segments(files: &Vec<SegmentFile>, keep: usize) -> (r: Vec<ReplaySegment>)
    ensures
        r@ == superfluous(chronological(listed(files@)), keep as int),
{
    let mut segments = list_segments(files);
    if segments.len() > keep {
        let remove_count: usize = segments.len() - keep;
        segments.truncate(remove_count);
        segments
    } else {
        Vec::new()
    }
}

/// Half a segment, and one and a half seconds at least.
pub open spec fn min_age_nanos(segment_seconds: u64) -> int {
    let millis: int = if segment_seconds * 1000 > u64::MAX {
        u64::MAX as int
    } else {
        segment_seconds * 1000
    };
    if millis / 2 > 1500 {
        (millis / 2) * NANOS_PER_MILLI
    } else {
        1500 * NANOS_PER_MILLI
    }
}

pub fn stable_segment_min_age(segment_seconds: u64) -> (r: Duration)
    ensures
        r.nanos == min_age_nanos(segment_seconds),
        r.valid(),
{
    let millis: u64 = match segment_seconds.checked_mul(1000) {
        Some(millis) => millis,
        None => u64::MAX,
    };
    if millis / 2 > 1500 {
        Duration::from_millis(millis / 2)
    } else {
        Duration::from_millis(1500)
    }
}

/// Written at least `min_age` before `now`.
pub open spec fn is_old_enough(segment: ReplaySegment, now: SystemTime, min_age: int) -> bool {
    now.nanos - segment.modified.nanos >= min_age
}

/// The finished segments: all but the newest, and of those the ones old enough.
pub open spec fn finished(s: Seq<ReplaySegment>, now: SystemTime, min_age: int) -> Seq<
    ReplaySegment,
>
    decreases s.len(),
{
    if s.len() == 0 {
        seq![]
    } else if is_old_enough(s.last(), now, min_age) {
        finished(s.drop_last(), now, min_age).push(s.last())
    } else {
        finished(s.drop_last(), now, min_age)
    }
}

/// The last `keep` of a list, or all of it where it is shorter.
pub open spec fn newest(s: Seq<ReplaySegment>, keep: int) -> Seq<ReplaySegment> {
    if s.len() > keep {
        s.subrange(s.len() - keep, s.len() as int)
    } else {
        s
    }
}

pub open spec fn files_valid(files: Seq<SegmentFile>) -> bool {
    forall|i: int|
        0 <= i < files.len() ==> ((#[trigger] files[i]).modified matches Some(m) ==> m.valid())
}

pub open spec fn segments_valid(s: Seq<ReplaySegment>) -> bool {
    forall|i: int| 0 <= i < s.len() ==> (#[trigger] s[i]).modified.valid()
}

proof fn lemma_listed_valid(files: Seq<SegmentFile>)
    requires
        files_valid(files),
    ensures
        segments_valid(listed(files)),
    decreases files.len(),
{
    if files.len() > 0 {
        assert(files_valid(files.drop_last())) by {
            assert forall|i: int| 0 <= i < files.drop_last().len() implies ((
            #[trigger] files.drop_last()[i]).modified matches Some(m) ==> m.valid()) by {
                assert(files[i] == files.drop_last()[i]);
            }
        }
        lemma_listed_valid(files.drop_last());
        assert(files[files.len() - 1] == files.last());
    }
}

proof fn lemma_chronological_valid(s: Seq<ReplaySegment>)
    requires
        segments_valid(s),
    ensures
        segments_valid(chronological(s)),
    decreases s.len(),
{
    if s.len() > 0 {
        let before = chronological(s.drop_last());
        assert(segments_valid(s.drop_last())) by {
            assert forall|i: int| 0 <= i < s.drop_last().len() implies (
            #[trigger] s.drop_last()[i]).modified.valid() by {
                assert(s[i].modified.valid());
            }
        }
        lemma_chronological_valid(s.drop_last());
        lemma_chronological(s.drop_last());
        lemma_insertion_point(before, s.last());
        let k = insertion_point(before, s.last());
        let after = before.insert(k, s.last());
        assert(s[s.len() - 1].modified.valid());
        assert forall|i: int| 0 <= i < after.len() implies (
        #[trigger] after[i]).modified.valid() by {
            if i < k {
                assert(before[i].modified.valid());
            } else if i > k {
                assert(before[i - 1].modified.valid());
            }
        }
    }
}

/// The segments whose writing is over, at most `keep` of them, and the newest
/// segment, which is left out because it may still be written to.
pub fn snapshot_stable_segments(
    files: &Vec<SegmentFile>,
    keep: usize,
    segment_seconds: u64,
    now: SystemTime,
) -> (r: StableSegmentSnapshot)
    requires
        now.valid(),
        files_valid(files@),
    ensures
        ({
            let all = chronological(listed(files@));
            let older = if all.len() > 0 {
                all.drop_last()
            } else {
                all
            };
            &&& r.found_count == all.len()
            &&& r.excluded_newest == (if all.len() > 0 {
                Some(all.last())
            } else {
                None
            })
            &&& r.selected@ == newest(
                finished(older, now, min_age_nanos(segment_seconds)),
                keep as int,
            )
        }),
{
    let mut segments = list_segments(files);
    proof {
        lemma_listed_valid(files@);
        lemma_chronological_valid(listed(files@));
    }
    let ghost all = segments@;
    let found_count: usize = segments.len();
    let excluded_newest: Option<ReplaySegment> = segments.pop();
    let ghost older = segments@;
    let min_age = stable_segment_min_age(segment_seconds);
    let mut selected: Vec<ReplaySegment> = Vec::new();
    let mut i: usize = 0;
    assert(segments_valid(older)) by {
        assert forall|j: int| 0 <= j < older.len() implies (
        #[trigger] older[j]).modified.valid() by {
            assert(all[j].modified.valid());
        }
    }
    while i < segments.len()
        invariant
            i <= segments.len(),
            segments@ == older,
            segments_valid(older),
            now.valid(),
            min_age.nanos == min_age_nanos(segment_seconds),
            min_age.valid(),
            selected@ == finished(older.subrange(0, i as int), now, min_age.nanos as int),
        decreases segments.len() - i,
    {
        assert(older.subrange(0, i + 1).drop_last() == older.subrange(0, i as int));
        let segment = &segments[i];
        assert(older[i as int].modified.valid());
        let old_enough: bool = match now.duration_since(segment.modified) {
            Some(age) => age.nanos >= min_age.nanos,
            None => false,
        };
        if old_enough {
            selected.push(segment.clone());
        }
        i = i + 1;
    }
    assert(older.subrange(0, older.len() as int) == older);
    if selected.len() > keep {
        let start: usize = selected.len() - keep;
        selected = selected.split_off(start);
    }
    StableSegmentSnapshot { found_count, selected, excluded_newest }
}

/// How long `selected_count` segments last.
pub fn selected_segments_duration(selected_count: usize, segment_seconds: u64) -> (r: Duration)
    requires
        selected_count * segment_seconds <= u64::MAX,
    ensures
        r.nanos == selected_count * segment_seconds * NANOS_PER_SEC,
{
    Duration::from_secs(selected_count as u64 * segment_seconds)
}

/// How many segments last `duration_seconds`; one at least.
pub open spec fn needed_for(duration_seconds: int, segment_seconds: int) -> int {
    at_least_one(div_ceil(duration_seconds, at_least_one(segment_seconds)))
}

pub fn segments_needed_for_duration(duration_seconds: u64, segment_seconds: u64) -> (r: usize)
    requires
        needed_for(duration_seconds as int, segment_seconds as int) <= usize::MAX,
    ensures
        r == needed_for(duration_seconds as int, segment_seconds as int),
        r >= 1,
{
    let segment: u64 = if segment_seconds >= 1 {
        segment_seconds
    } else {
        1
    };
    let n: u64 = ceil_div(duration_seconds, segment);
    if n >= 1 {
        n as usize
    } else {
        1
    }
}

pub fn select_segments_for_duration(
    segments: &Vec<ReplaySegment>,
    duration_seconds: u64,
    segment_seconds: u64,
) -> (r: Vec<ReplaySegment>)
    requires
        needed_for(duration_seconds as int, segment_seconds as int) <= usize::MAX,
    ensures
        r@ == newest(
            chronological(segments@),
            needed_for(duration_seconds as int, segment_seconds as int),
        ),
{
    let mut sorted = sorted_chronologically(segments);
    let needed: usize = segments_needed_for_duration(duration_seconds, segment_seconds);
    if sorted.len() > needed {
        let start: usize = sorted.len() - needed;
        sorted.split_off(start)
    } else {
        sorted
    }
}


/// A clip asked for around one or several events, and the length of the
/// segments that it is cut from.
#[derive(Clone, Copy, Debug)]
pub struct EventWindow {
    pub first_event_time: SystemTime,
    pub last_event_time: SystemTime,
    pub duration_seconds: u64,
    pub post_event_seconds: u64,
    pub segment_seconds: u64,
}

pub open spec fn or_epoch(t: Option<SystemTime>) -> SystemTime {
    match t {
        Some(t) => t,
        None => SystemTime { nanos: 0 },
    }
}

/// The whole seconds that hold `nanos`.
pub open spec fn secs_up(nanos: int) -> int {
    (nanos + 999_999_999) / 1_000_000_000
}

impl EventWindow {
    /// Where the clip ends: some seconds after the last event.
    pub open spec fn target_end(self) -> int {
        self.last_event_time.nanos + self.post_event_seconds * NANOS_PER_SEC
    }

    /// How much of the clip's length lies before the first event.
    pub open spec fn lead_seconds(self) -> int {
        if self.duration_seconds > self.post_event_seconds {
            self.duration_seconds - self.post_event_seconds
        } else {
            0
        }
    }

    /// Where the clip starts.
    pub open spec fn expected_start(self) -> SystemTime {
        or_epoch(self.first_event_time.minus(self.lead_seconds() * NANOS_PER_SEC))
    }

    /// How many segments the clip takes.
    pub open spec fn needed(self) -> int {
        if self.target_end() >= self.expected_start().nanos {
            needed_for(
                secs_up(self.target_end() - self.expected_start().nanos),
                self.segment_seconds as int,
            )
        } else {
            needed_for(self.duration_seconds as int, self.segment_seconds as int)
        }
    }

    /// When the recording of `segment` began, one segment's length before it
    /// was last written to.
    pub open spec fn start_of(self, segment: ReplaySegment) -> SystemTime {
        or_epoch(segment.modified.minus(self.segment_seconds * NANOS_PER_SEC))
    }

    /// The latest point at which a recording of this clip may begin.
    pub open spec fn latest_start(self) -> int {
        self.expected_start().nanos + self.segment_seconds * NANOS_PER_SEC
    }

    /// The points in time and the count of segments that a selection from `s`
    /// computes can be told in the types that hold them.
    pub open spec fn representable(self, s: Seq<ReplaySegment>) -> bool {
        &&& self.first_event_time.valid()
        &&& self.last_event_time.valid()
        &&& self.target_end() <= SYSTEM_TIME_MAX
        &&& secs_up(self.target_end() - self.expected_start().nanos) <= u64::MAX
        &&& self.needed() <= usize::MAX
        &&& s.len() >= self.needed() && self.start_of(s[0]).nanos <= self.first_event_time.nanos
            ==> self.latest_start() <= SYSTEM_TIME_MAX
    }

    /// The recording in `s` begins too late for this clip.
    pub open spec fn lost_start(self, s: Seq<ReplaySegment>) -> bool {
        self.start_of(s[0]).nanos > self.first_event_time.nanos || self.start_of(s[0]).nanos
            > self.latest_start()
    }

    /// The first segment written to at or after the end of the clip.
    pub open spec fn end_position(self, s: Seq<ReplaySegment>) -> int
        decreases s.len(),
    {
        if s.len() == 0 || s[0].modified.nanos >= self.target_end() {
            0
        } else {
            1 + self.end_position(s.drop_first())
        }
    }

    /// The last segment of the clip: the one at its end, or a later one where
    /// too few precede that.
    pub open spec fn last_position(self, s: Seq<ReplaySegment>) -> int {
        if self.end_position(s) + 1 < self.needed() {
            self.needed() - 1
        } else {
            self.end_position(s)
        }
    }

    /// The segments of the clip.
    pub open spec fn chosen(self, s: Seq<ReplaySegment>) -> Seq<ReplaySegment> {
        s.subrange(self.last_position(s) + 1 - self.needed(), self.last_position(s) + 1)
    }

    /// What is chosen of `s` leaves out a part between the first event and
    /// the end of the clip.
    pub open spec fn uncovered(self, s: Seq<ReplaySegment>) -> bool {
        let c = self.chosen(s);
        ||| self.start_of(c[0]).nanos > self.first_event_time.nanos
        ||| c.last().modified.nanos < self.last_event_time.nanos
        ||| c.last().modified.nanos < self.target_end()
    }

    pub open spec fn starts_late(self, s: Seq<ReplaySegment>) -> bool {
        self.start_of(self.chosen(s)[0]).nanos > self.latest_start()
    }

    /// What is selected of the ordered segments `s`.
    pub open spec fn selects(self, s: Seq<ReplaySegment>, r: EventSegmentSelection) -> bool {
        let end = SystemTime { nanos: self.target_end() as i128 };
        if s.len() < self.needed() {
            r matches EventSegmentSelection::NotEnoughSegments { available, needed } && available
                == s.len() && needed == self.needed()
        } else if self.lost_start(s) {
            r matches EventSegmentSelection::TooOld { reason } && reason@
                == "required start is older than stable replay window: expected_start="@
                + self.expected_start().shown() + ", earliest_start="@ + self.start_of(
                s[0],
            ).shown()
        } else if s.last().modified.nanos < self.target_end() {
            r matches EventSegmentSelection::NotReadyYet { reason } && reason@
                == "stable segments do not cover post-event window yet: target_end="@ + end.shown()
                + ", latest_stable_end="@ + s.last().modified.shown()
        } else if self.uncovered(s) {
            r matches EventSegmentSelection::NotReadyYet { reason } && reason@
                == "selected stable segments do not cover event window yet: selected_start="@
                + self.start_of(self.chosen(s)[0]).shown() + ", selected_end="@ + self.chosen(
                s,
            ).last().modified.shown()
        } else if self.starts_late(s) {
            r matches EventSegmentSelection::TooOld { reason } && reason@
                == "selected replay window starts too late: expected_start="@
                + self.expected_start().shown() + ", selected_start="@ + self.start_of(
                self.chosen(s)[0],
            ).shown()
        } else {
            r matches EventSegmentSelection::Selected(selected) && selected@ == self.chosen(s)
        }
    }
}

proof fn lemma_end_position(w: EventWindow, s: Seq<ReplaySegment>)
    ensures
        0 <= w.end_position(s) <= s.len(),
        forall|j: int|
            0 <= j < w.end_position(s) ==> (#[trigger] s[j]).modified.nanos < w.target_end(),
        w.end_position(s) < s.len() ==> s[w.end_position(s)].modified.nanos >= w.target_end(),
        s.len() > 0 && s.last().modified.nanos >= w.target_end() ==> w.end_position(s) < s.len(),
    decreases s.len(),
{
    if s.len() == 0 || s[0].modified.nanos >= w.target_end() {
    } else {
        let t = s.drop_first();
        lemma_end_position(w, t);
        assert forall|j: int| 0 <= j < w.end_position(s) implies (
        #[trigger] s[j]).modified.nanos < w.target_end() by {
            if j > 0 {
                assert(t[j - 1] == s[j]);
            }
        }
        if w.end_position(t) < t.len() {
            assert(t[w.end_position(t)] == s[w.end_position(s)]);
        }
        if s.len() > 1 {
            assert(t.last() == s.last());
        }
    }
}

/// A selection is a gapless run of the recording, as long as the clip needs,
/// that begins no later than the first event and ends no earlier than the
/// seconds after the last one are over.
pub proof fn lemma_selection_covers_events(
    w: EventWindow,
    segments: Seq<ReplaySegment>,
    r: EventSegmentSelection,
)
    requires
        w.selects(chronological(segments), r),
        r is Selected,
    ensures
        r->Selected_0@.len() == w.needed(),
        exists|i: int|
            0 <= i && i + w.needed() <= segments.len() && r->Selected_0@ == #[trigger] chronological(
                segments,
            ).subrange(i, i + w.needed()),
        w.start_of(r->Selected_0@[0]).nanos <= w.first_event_time.nanos,
        w.start_of(r->Selected_0@[0]).nanos <= w.latest_start(),
        r->Selected_0@.last().modified.nanos >= w.target_end(),
        w.target_end() >= w.last_event_time.nanos,
        is_chronological(r->Selected_0@),
{
    let s = chronological(segments);
    lemma_chronological(segments);
    lemma_end_position(w, s);
    let start = w.last_position(s) + 1 - w.needed();
    assert(w.needed() >= 1);
    assert(w.last_position(s) < s.len());
    assert(w.chosen(s) == s.subrange(start, start + w.needed()));
    let c = w.chosen(s);
    assert forall|i: int, j: int| 0 <= i <= j < c.len() implies not_after(
        #[trigger] c[i],
        #[trigger] c[j],
    ) by {
        assert(not_after(s[start + i], s[start + j]));
    }
}

/// Nothing is selected while the recording ends before the clip does.
pub proof fn lemma_unfinished_recording_is_not_selected(
    w: EventWindow,
    segments: Seq<ReplaySegment>,
    r: EventSegmentSelection,
)
    requires
        w.selects(chronological(segments), r),
        forall|i: int|
            0 <= i < segments.len() ==> (#[trigger] segments[i]).modified.nanos < w.target_end(),
    ensures
        !(r is Selected),
{
    let s = chronological(segments);
    lemma_chronological(segments);
    if r is Selected {
        assert(w.needed() >= 1);
        assert(s.len() > 0);
        broadcast use vstd::seq_lib::group_to_multiset_ensures;

        s.to_multiset_ensures();
        segments.to_multiset_ensures();
        assert(s.contains(s.last()));
        assert(s.to_multiset().count(s.last()) > 0);
        assert(segments.contains(s.last()));
    }
}

fn segment_start(segment: &ReplaySegment, segment_seconds: u64) -> (r: SystemTime)
    requires
        segment.modified.valid(),
    ensures
        r == or_epoch(segment.modified.minus(segment_seconds * NANOS_PER_SEC)),
        r.valid(),
{
    match segment.modified.checked_sub(Duration::from_secs(segment_seconds)) {
        Some(start) => start,
        None => SystemTime::unix_epoch(),
    }
}

fn two_times(a: &str, first: SystemTime, b: &str, second: SystemTime) -> (r: String)
    requires
        first.valid(),
        second.valid(),
    ensures
        r@ == a@ + first.shown() + b@ + second.shown(),
{
    let mut r: String = a.to_owned();
    r.append(first.debug_text().as_str());
    r.append(b);
    r.append(second.debug_text().as_str());
    r
}

fn copy_range(s: &Vec<ReplaySegment>, from: usize, to: usize) -> (r: Vec<ReplaySegment>)
    requires
        from <= to <= s.len(),
    ensures
        r@ == s@.subrange(from as int, to as int),
{
    let mut r: Vec<ReplaySegment> = Vec::new();
    let mut i: usize = from;
    while i < to
        invariant
            from <= i <= to <= s.len(),
            r@ == s@.subrange(from as int, i as int),
        decreases to - i,
    {
        r.push(s[i].clone());
        i = i + 1;
    }
    r
}

/// The segments that show the events of the window, or why there are none:
/// too few segments, the start already overwritten, or the end not yet
/// recorded.
#[verifier::rlimit(60)]
#[verifier::spinoff_prover]
pub fn select_segments_around_event(
    segments: &Vec<ReplaySegment>,
    first_event_time: SystemTime,
    last_event_time: SystemTime,
    duration_seconds: u64,
    post_event_seconds: u64,
    segment_seconds: u64,
) -> (r: EventSegmentSelection)
    requires
        (EventWindow {
            first_event_time,
            last_event_time,
            duration_seconds,
            post_event_seconds,
            segment_seconds,
        }).representable(chronological(segments@)),
        segments_valid(segments@),
    ensures
        (EventWindow {
            first_event_time,
            last_event_time,
            duration_seconds,
            post_event_seconds,
            segment_seconds,
        }).selects(chronological(segments@), r),
{
    let window = EventWindow {
        first_event_time,
        last_event_time,
        duration_seconds,
        post_event_seconds,
        segment_seconds,
    };
    let sorted = sorted_chronologically(segments);
    proof {
        lemma_chronological_valid(segments@);
    }
    let ghost s = sorted@;
    let target_end = window.last_event_time.plus(Duration::from_secs(window.post_event_seconds));
    let lead: u64 = if window.duration_seconds > window.post_event_seconds {
        window.duration_seconds - window.post_event_seconds
    } else {
        0
    };
    let expected_start: SystemTime = match window.first_event_time.checked_sub(
        Duration::from_secs(lead),
    ) {
        Some(start) => start,
        None => SystemTime::unix_epoch(),
    };
    assert(expected_start == window.expected_start());
    let needed: usize = match target_end.duration_since(expected_start) {
        Some(span) => {
            let whole: u64 = span.as_secs();
            let seconds: u64 = if span.nanos % NANOS_PER_SEC > 0 {
                whole + 1
            } else {
                whole
            };
            assert(seconds == secs_up(span.nanos as int));
            segments_needed_for_duration(seconds, window.segment_seconds)
        },
        None => segments_needed_for_duration(window.duration_seconds, window.segment_seconds),
    };
    assert(needed == window.needed());
    if sorted.len() < needed {
        return EventSegmentSelection::NotEnoughSegments { available: sorted.len(), needed };
    }
    assert(s[0].modified.valid());
    let earliest_start = segment_start(&sorted[0], window.segment_seconds);
    if earliest_start.nanos > window.first_event_time.nanos || earliest_start.nanos
        > expected_start.plus(Duration::from_secs(window.segment_seconds)).nanos {
        return EventSegmentSelection::TooOld {
            reason: two_times(
                "required start is older than stable replay window: expected_start=",
                expected_start,
                ", earliest_start=",
                earliest_start,
            ),
        };
    }
    let latest_end: SystemTime = sorted[sorted.len() - 1].modified;
    assert(s[s.len() - 1].modified.valid());
    if latest_end.nanos < target_end.nanos {
        return EventSegmentSelection::NotReadyYet {
            reason: two_times(
                "stable segments do not cover post-event window yet: target_end=",
                target_end,
                ", latest_stable_end=",
                latest_end,
            ),
        };
    }
    proof {
        lemma_end_position(window, s);
        assert(s.subrange(0, s.len() as int) == s);
    }
    let mut end_index: usize = 0;
    while end_index < sorted.len() && sorted[end_index].modified.nanos < target_end.nanos
        invariant
            end_index <= sorted.len(),
            sorted@ == s,
            target_end.nanos == window.target_end(),
            window.end_position(s) == end_index + window.end_position(
                s.subrange(end_index as int, s.len() as int),
            ),
        decreases sorted.len() - end_index,
    {
        assert(s.subrange(end_index as int, s.len() as int).drop_first() == s.subrange(
            end_index + 1,
            s.len() as int,
        ));
        end_index = end_index + 1;
    }
    assert(end_index == window.end_position(s));
    if end_index + 1 < needed {
        end_index = needed - 1;
    }
    let start_index: usize = end_index + 1 - needed;
    let selected = copy_range(&sorted, start_index, end_index + 1);
    assert(selected@ == window.chosen(s));
    assert(selected@[0] == s[start_index as int]);
    assert(selected@.last() == s[end_index as int]);
    assert(s[start_index as int].modified.valid());
    assert(s[end_index as int].modified.valid());
    let selected_start = segment_start(&selected[0], window.segment_seconds);
    let selected_end: SystemTime = selected[selected.len() - 1].modified;
    if selected_start.nanos > window.first_event_time.nanos || selected_end.nanos
        < window.last_event_time.nanos || selected_end.nanos < target_end.nanos {
        return EventSegmentSelection::NotReadyYet {
            reason: two_times(
                "selected stable segments do not cover event window yet: selected_start=",
                selected_start,
                ", selected_end=",
                selected_end,
            ),
        };
    }
    if selected_start.nanos > expected_start.plus(
        Duration::from_secs(window.segment_seconds),
    ).nanos {
        return EventSegmentSelection::TooOld {
            reason: two_times(
                "selected replay window starts too late: expected_start=",
                expected_start,
                ", selected_start=",
                selected_start,
            ),
        };
    }
    EventSegmentSelection::Selected(selected)
}

/// How far a growing file has come to rest.
#[derive(Clone, Copy, Debug, PartialEq, Eq, Structural)]
pub struct Stability {
    pub previous_len: Option<u64>,
    pub stable_checks: u32,
}

/// What follows from one look at a growing file.
#[derive(Clone, Copy, Debug, PartialEq, Eq, Structural)]
pub enum StabilityStep {
    /// The file has not grown for long enough.
    Stable,
    /// Look again after a pause.
    Wait,
    /// The time allowed is over.
    TimedOut,
}

impl Stability {
    pub fn new() -> (r: Stability)
        ensures
            r.previous_len is None,
            r.stable_checks == 0,
    {
        Stability { previous_len: None, stable_checks: 0 }
    }

    /// The file holds something and has the length of the last look.
    pub open spec fn unchanged(self, len: u64) -> bool {
        len != 0 && self.previous_len == Some(len)
    }

    pub open spec fn after(self, len: u64) -> Stability {
        if self.unchanged(len) {
            Stability {
                previous_len: self.previous_len,
                stable_checks: (self.stable_checks + 1) as u32,
            }
        } else {
            Stability { previous_len: Some(len), stable_checks: 0 }
        }
    }
}

/// One look at a segment: it is at rest once three looks in a row found the
/// length that the look before them had found, and it was not empty.
pub fn wait_until_segment_stable(state: &mut Stability, len: u64, deadline_passed: bool) -> (r:
    StabilityStep)
    requires
        old(state).stable_checks < 3,
    ensures
        *final(state) == old(state).after(len),
        r == (if final(state).stable_checks >= 3 {
            StabilityStep::Stable
        } else if deadline_passed {
            StabilityStep::TimedOut
        } else {
            StabilityStep::Wait
        }),
        r != StabilityStep::Stable ==> final(state).stable_checks < 3,
{
    if len != 0 && state.previous_len == Some(len) {
        state.stable_checks = state.stable_checks + 1;
        if state.stable_checks >= 3 {
            return StabilityStep::Stable;
        }
    } else {
        state.stable_checks = 0;
        state.previous_len = Some(len);
    }
    if deadline_passed {
        StabilityStep::TimedOut
    } else {
        StabilityStep::Wait
    }
}

/// Written at once and under one number.
pub open spec fn ties(a: ReplaySegment, b: ReplaySegment) -> bool {
    a.modified.nanos == b.modified.nanos && a.index == b.index
}

/// The segments that tie with `x`, in the order given.
pub open spec fn tied_with(s: Seq<ReplaySegment>, x: ReplaySegment) -> Seq<ReplaySegment>
    decreases s.len(),
{
    if s.len() == 0 {
        s
    } else if ties(s.last(), x) {
        tied_with(s.drop_last(), x).push(s.last())
    } else {
        tied_with(s.drop_last(), x)
    }
}

proof fn lemma_tied_insert(s: Seq<ReplaySegment>, at: int, new: ReplaySegment, x: ReplaySegment)
    requires
        0 <= at <= s.len(),
        ties(new, x) ==> forall|i: int| at <= i < s.len() ==> !ties(#[trigger] s[i], x),
    ensures
        tied_with(s.insert(at, new), x) == (if ties(new, x) {
            tied_with(s, x).push(new)
        } else {
            tied_with(s, x)
        }),
    decreases s.len(),
{
    let after = s.insert(at, new);
    if at == s.len() {
        assert(after.drop_last() =~= s);
    } else {
        let t = s.drop_last();
        assert(after.drop_last() =~= t.insert(at, new));
        assert(after.last() == s[s.len() - 1]);
        if ties(new, x) {
            assert forall|i: int| at <= i < t.len() implies !ties(#[trigger] t[i], x) by {
                assert(t[i] == s[i]);
            }
        }
        lemma_tied_insert(t, at, new, x);
    }
}

/// Segments that tie keep the order in which they were given.
pub proof fn lemma_ties_keep_their_order(s: Seq<ReplaySegment>, x: ReplaySegment)
    ensures
        tied_with(chronological(s), x) == tied_with(s, x),
    decreases s.len(),
{
    if s.len() > 0 {
        let before = chronological(s.drop_last());
        let new = s.last();
        lemma_ties_keep_their_order(s.drop_last(), x);
        lemma_chronological(s.drop_last());
        lemma_insertion_point(before, new);
        let at = insertion_point(before, new);
        if ties(new, x) {
            assert forall|i: int| at <= i < before.len() implies !ties(#[trigger] before[i], x) by {
                assert(!not_after(before[i], new));
            }
        }
        lemma_tied_insert(before, at, new, x);
    }
}

/// No two different segments tie.
pub open spec fn ties_are_one(s: Seq<ReplaySegment>) -> bool {
    forall|a: ReplaySegment, b: ReplaySegment|
        #[trigger] s.contains(a) && #[trigger] s.contains(b) && ties(a, b) ==> a == b
}

proof fn lemma_ordered_alike(x: Seq<ReplaySegment>, y: Seq<ReplaySegment>)
    requires
        is_chronological(x),
        is_chronological(y),
        x.to_multiset() == y.to_multiset(),
        ties_are_one(x),
    ensures
        x == y,
    decreases x.len(),
{
    broadcast use vstd::seq_lib::group_to_multiset_ensures;

    x.to_multiset_ensures();
    y.to_multiset_ensures();
    assert(x.len() == y.len());
    if x.len() > 0 {
        let n = x.len() - 1;
        let a = x[n];
        let b = y[n];
        assert(x.contains(a));
        assert(y.contains(b));
        assert(x.to_multiset().contains(a) && y.to_multiset().contains(b));
        assert(x.contains(b) && y.contains(a));
        let i = choose|i: int| 0 <= i < x.len() && x[i] == b;
        let j = choose|j: int| 0 <= j < y.len() && y[j] == a;
        assert(not_after(x[i], x[n]));
        assert(not_after(y[j], y[n]));
        assert(a == b);
        let p = x.drop_last();
        let q = y.drop_last();
        assert(x.remove(n) =~= p);
        assert(y.remove(n) =~= q);
        assert(p.to_multiset() =~= x.to_multiset().remove(a));
        assert(q.to_multiset() =~= y.to_multiset().remove(b));
        assert forall|i: int, j: int| 0 <= i <= j < p.len() implies not_after(
            #[trigger] p[i],
            #[trigger] p[j],
        ) by {
            assert(not_after(x[i], x[j]));
        }
        assert forall|i: int, j: int| 0 <= i <= j < q.len() implies not_after(
            #[trigger] q[i],
            #[trigger] q[j],
        ) by {
            assert(not_after(y[i], y[j]));
        }
        assert forall|c: ReplaySegment, d: ReplaySegment| #[trigger]
            p.contains(c) && #[trigger] p.contains(d) && ties(c, d) implies c == d by {
            let k = choose|k: int| 0 <= k < p.len() && p[k] == c;
            let m = choose|m: int| 0 <= m < p.len() && p[m] == d;
            assert(x[k] == c && x[m] == d);
            assert(x.contains(c) && x.contains(d));
        }
        lemma_ordered_alike(p, q);
        assert(x =~= p.push(a));
        assert(y =~= q.push(b));
    } else {
        assert(x =~= y);
    }
}

/// What is selected around an event does not depend on the order in which the
/// segments were found, where no two different ones tie.
pub proof fn lemma_selection_ignores_order(
    one: Seq<ReplaySegment>,
    other: Seq<ReplaySegment>,
    window: EventWindow,
    r: EventSegmentSelection,
)
    requires
        one.to_multiset() == other.to_multiset(),
        ties_are_one(one),
    ensures
        chronological(one) == chronological(other),
        window.selects(chronological(one), r) == window.selects(chronological(other), r),
{
    broadcast use vstd::seq_lib::group_to_multiset_ensures;

    lemma_chronological(one);
    lemma_chronological(other);
    let x = chronological(one);
    one.to_multiset_ensures();
    x.to_multiset_ensures();
    assert forall|a: ReplaySegment, b: ReplaySegment| #[trigger]
        x.contains(a) && #[trigger] x.contains(b) && ties(a, b) implies a == b by {
        assert(x.to_multiset().contains(a) && x.to_multiset().contains(b));
        assert(one.contains(a) && one.contains(b));
    }
    lemma_ordered_alike(x, chronological(other));
}

/// The least count of segments that lasts a number of seconds.
proof fn lemma_needed_for(duration_seconds: int, segment_seconds: int)
    requires
        duration_seconds >= 0,
        segment_seconds >= 1,
    ensures
        needed_for(duration_seconds, segment_seconds) >= 1,
        needed_for(duration_seconds, segment_seconds) * segment_seconds >= duration_seconds,
        needed_for(duration_seconds, segment_seconds) > 1 ==> (needed_for(
            duration_seconds,
            segment_seconds,
        ) - 1) * segment_seconds < duration_seconds,
{
    let q = div_ceil(duration_seconds, segment_seconds);
    assert(q * segment_seconds >= duration_seconds && (q - 1) * segment_seconds < duration_seconds
        && q >= 0) by (nonlinear_arith)
        requires
            q == (duration_seconds + segment_seconds - 1) / segment_seconds,
            duration_seconds >= 0,
            segment_seconds >= 1,
    ;
    if q < 1 {
        assert(1 * segment_seconds >= duration_seconds) by (nonlinear_arith)
            requires
                q * segment_seconds >= duration_seconds,
                q < 1,
                segment_seconds >= 1,
        ;
    }
}

/// The segments kept for a buffer last as long as the buffer with two segments
/// to spare, and one less would not.
pub proof fn lemma_kept_segments_hold_the_buffer(buffer_seconds: nat, segment_seconds: nat)
    requires
        segment_seconds >= 1,
    ensures
        ({
            let kept = kept_count(buffer_seconds as int, segment_seconds as int);
            &&& kept >= 2
            &&& (kept - 2) * segment_seconds >= buffer_seconds
            &&& kept > 2 ==> (kept - 3) * segment_seconds < buffer_seconds
        }),
{
    let q = div_ceil(buffer_seconds as int, segment_seconds as int);
    assert(q * segment_seconds >= buffer_seconds && (q - 1) * segment_seconds < buffer_seconds && q
        >= 0) by (nonlinear_arith)
        requires
            q == (buffer_seconds + segment_seconds - 1) / segment_seconds as int,
            segment_seconds >= 1,
    ;
}

/// The latest segments that last a clip: no segment that is left out was written
/// after one that is taken, and they are the fewest that last long enough, or
/// all that there are.
pub proof fn lemma_latest_segments_last_the_clip(
    segments: Seq<ReplaySegment>,
    duration_seconds: nat,
    segment_seconds: nat,
)
    requires
        segment_seconds >= 1,
    ensures
        ({
            let taken = newest(
                chronological(segments),
                needed_for(duration_seconds as int, segment_seconds as int),
            );
            let n = taken.len();
            &&& is_chronological(taken)
            &&& n <= segments.len()
            &&& n < segments.len() ==> n >= 1 && n * segment_seconds >= duration_seconds
            &&& n > 1 ==> (n - 1) * segment_seconds < duration_seconds
            &&& segments.len() > 0 ==> n >= 1
            &&& forall|i: int|
                0 <= i < n ==> #[trigger] taken[i] == chronological(segments)[segments.len() - n
                    + i]
        }),
{
    let s = chronological(segments);
    let needed = needed_for(duration_seconds as int, segment_seconds as int);
    let taken = newest(s, needed);
    lemma_chronological(segments);
    lemma_needed_for(duration_seconds as int, segment_seconds as int);
    let n = taken.len();
    if n > 1 {
        assert((n - 1) * segment_seconds <= (needed - 1) * segment_seconds) by (nonlinear_arith)
            requires
                n <= needed,
                segment_seconds >= 1,
        ;
    }
    assert forall|i: int, j: int| 0 <= i <= j < taken.len() implies not_after(
        #[trigger] taken[i],
        #[trigger] taken[j],
    ) by {
        assert(not_after(s[s.len() - n + i], s[s.len() - n + j]));
    }
}

/// The longer of the clip and the seconds after its last event, and what lies
/// between its events, in nanoseconds.
pub open spec fn clip_span(
    first_event_time: SystemTime,
    last_event_time: SystemTime,
    duration_seconds: u64,
    post_event_seconds: u64,
) -> int {
    (if duration_seconds >= post_event_seconds {
        duration_seconds as int
    } else {
        post_event_seconds as int
    }) * 1_000_000_000 + (last_event_time.nanos - first_event_time.nanos)
}

proof fn lemma_needed_lasts_the_span(w: EventWindow)
    requires
        w.first_event_time.nanos <= w.last_event_time.nanos,
        w.first_event_time.nanos >= (w.duration_seconds - w.post_event_seconds) * 1_000_000_000,
        w.first_event_time.valid(),
        w.segment_seconds >= 1,
    ensures
        ({
            let span = clip_span(
                w.first_event_time,
                w.last_event_time,
                w.duration_seconds,
                w.post_event_seconds,
            );
            let length = w.segment_seconds * 1_000_000_000;
            &&& w.needed() >= 1
            &&& w.needed() * length >= span
            &&& w.needed() > 1 ==> (w.needed() - 1) * length < span
            &&& w.target_end() - w.expected_start().nanos == span
        }),
{
    let span = clip_span(
        w.first_event_time,
        w.last_event_time,
        w.duration_seconds,
        w.post_event_seconds,
    );
    let seconds = secs_up(span);
    let seg = w.segment_seconds as int;
    let n = w.needed();
    assert(w.target_end() - w.expected_start().nanos == span);
    lemma_needed_for(seconds, seg);
    assert(n * (seg * 1_000_000_000) == (n * seg) * 1_000_000_000) by (nonlinear_arith);
    assert((n - 1) * (seg * 1_000_000_000) == ((n - 1) * seg) * 1_000_000_000)
        by (nonlinear_arith);
}

/// A clip around its events is made of the fewest segments that last from its
/// lead before the first event to the seconds after the last one.
pub proof fn lemma_selection_lasts_the_clip(
    segments: Seq<ReplaySegment>,
    first_event_time: SystemTime,
    last_event_time: SystemTime,
    duration_seconds: u64,
    post_event_seconds: u64,
    segment_seconds: u64,
    r: EventSegmentSelection,
)
    requires
        (EventWindow {
            first_event_time,
            last_event_time,
            duration_seconds,
            post_event_seconds,
            segment_seconds,
        }).selects(chronological(segments), r),
        first_event_time.valid(),
        first_event_time.nanos <= last_event_time.nanos,
        first_event_time.nanos >= (duration_seconds - post_event_seconds) * 1_000_000_000,
        segment_seconds >= 1,
    ensures
        ({
            let span = clip_span(
                first_event_time,
                last_event_time,
                duration_seconds,
                post_event_seconds,
            );
            let length = segment_seconds * 1_000_000_000;
            match r {
                EventSegmentSelection::Selected(s) => {
                    &&& s@.len() >= 1
                    &&& s@.len() * length >= span
                    &&& s@.len() > 1 ==> (s@.len() - 1) * length < span
                    &&& duration_seconds >= post_event_seconds ==> {
                        let asked = duration_seconds * 1_000_000_000 + (last_event_time.nanos
                            - first_event_time.nanos);
                        &&& s@.len() * (segment_seconds * 1_000_000_000) >= asked
                        &&& s@.len() > 1 ==> (s@.len() - 1) * (segment_seconds * 1_000_000_000)
                            < asked
                    }
                },
                EventSegmentSelection::NotEnoughSegments { available, needed } => {
                    &&& available == segments.len()
                    &&& available < needed
                    &&& needed * length >= span
                    &&& needed > 1 ==> (needed - 1) * length < span
                },
                _ => segments.len() >= 1 && segments.len() * length >= span,
            }
        }),
{
    let w = EventWindow {
        first_event_time,
        last_event_time,
        duration_seconds,
        post_event_seconds,
        segment_seconds,
    };
    let s = chronological(segments);
    let length = segment_seconds * 1_000_000_000;
    lemma_chronological(segments);
    lemma_needed_lasts_the_span(w);
    lemma_end_position(w, s);
    if s.len() >= w.needed() {
        assert(s.len() * length >= w.needed() * length) by (nonlinear_arith)
            requires
                s.len() >= w.needed(),
                length >= 0,
        ;
    }
}

/// A clip around its events is a run of the recording in the order of time. It
/// begins no later than the first event, and at most one segment after the lead
/// before it does. It ends no earlier than the seconds after the last event are
/// over, with the first segment that does so unless it begins with the oldest
/// segment of all.
pub proof fn lemma_selection_lies_around_the_events(
    segments: Seq<ReplaySegment>,
    first_event_time: SystemTime,
    last_event_time: SystemTime,
    duration_seconds: u64,
    post_event_seconds: u64,
    segment_seconds: u64,
    r: EventSegmentSelection,
)
    requires
        (EventWindow {
            first_event_time,
            last_event_time,
            duration_seconds,
            post_event_seconds,
            segment_seconds,
        }).selects(chronological(segments), r),
        r is Selected,
        first_event_time.valid(),
        first_event_time.nanos >= (duration_seconds - post_event_seconds) * 1_000_000_000,
    ensures
        ({
            let s = r->Selected_0@;
            let length = segment_seconds * 1_000_000_000;
            let end = last_event_time.nanos + post_event_seconds * 1_000_000_000;
            let start = s[0].modified.nanos - length;
            let lead = (duration_seconds - post_event_seconds) * 1_000_000_000;
            let recording = chronological(segments);
            &&& start >= SYSTEM_TIME_MIN ==> start <= first_event_time.nanos
            &&& start >= SYSTEM_TIME_MIN && lead >= 0 ==> start <= first_event_time.nanos - lead
                + length
            &&& s.last().modified.nanos >= end
            &&& is_chronological(s)
            &&& exists|at: int|
                #![trigger recording.subrange(at, at + s.len())]
                {
                    &&& 0 <= at
                    &&& at + s.len() <= recording.len()
                    &&& s == recording.subrange(at, at + s.len())
                    &&& at == 0 || at + s.len() < 2 || recording[at + s.len() - 2].modified.nanos
                        < end
                }
        }),
{
    let w = EventWindow {
        first_event_time,
        last_event_time,
        duration_seconds,
        post_event_seconds,
        segment_seconds,
    };
    let recording = chronological(segments);
    lemma_selection_covers_events(w, segments, r);
    lemma_chronological(segments);
    lemma_end_position(w, recording);
    let at = w.last_position(recording) + 1 - w.needed();
    assert(r->Selected_0@ == recording.subrange(at, at + r->Selected_0@.len()));
}

/// A recording without gaps that reaches from the lead before the first event to
/// the seconds after the last one makes the clip, where the lead is no shorter
/// than a segment.
pub proof fn lemma_gapless_recording_makes_the_clip(
    segments: Seq<ReplaySegment>,
    first_event_time: SystemTime,
    last_event_time: SystemTime,
    duration_seconds: u64,
    post_event_seconds: u64,
    segment_seconds: u64,
    r: EventSegmentSelection,
)
    requires
        (EventWindow {
            first_event_time,
            last_event_time,
            duration_seconds,
            post_event_seconds,
            segment_seconds,
        }).selects(chronological(segments), r),
        first_event_time.valid(),
        first_event_time.nanos <= last_event_time.nanos,
        segment_seconds >= 1,
        duration_seconds >= post_event_seconds + segment_seconds,
        first_event_time.nanos >= (duration_seconds - post_event_seconds) * 1_000_000_000,
        segments.len() > 0,
        forall|i: int|
            0 < i < segments.len() ==> (#[trigger] segments[i]).modified.nanos
                == segments[0].modified.nanos + i * (segment_seconds * 1_000_000_000),
        segments[0].modified.nanos - segment_seconds * 1_000_000_000 >= SYSTEM_TIME_MIN,
        segments[0].modified.nanos - segment_seconds * 1_000_000_000 <= first_event_time.nanos - (
        duration_seconds - post_event_seconds) * 1_000_000_000,
        segments.last().modified.nanos >= last_event_time.nanos + post_event_seconds
            * 1_000_000_000,
    ensures
        r is Selected,
{
    let w = EventWindow {
        first_event_time,
        last_event_time,
        duration_seconds,
        post_event_seconds,
        segment_seconds,
    };
    let s = segments;
    let length = segment_seconds * 1_000_000_000;
    let n = w.needed();
    let end = w.target_end();
    assert(is_chronological(s)) by {
        assert forall|i: int, j: int| 0 <= i <= j < s.len() implies not_after(
            #[trigger] s[i],
            #[trigger] s[j],
        ) by {
            assert(i < j ==> i * length < j * length) by (nonlinear_arith)
                requires
                    length > 0,
            ;
            assert(0 * length == 0);
        }
    }
    lemma_chronological_fixed(s);
    lemma_needed_lasts_the_span(w);
    lemma_end_position(w, s);
    let first = s[0].modified.nanos as int;
    let count = s.len() as int;
    assert(s.last().modified.nanos == first + (count - 1) * length) by {
        if count > 1 {
            assert(s[count - 1] == s.last());
        }
    }
    // The recording lasts at least as long as the clip, so it has enough segments.
    assert(count >= n) by (nonlinear_arith)
        requires
            n > 1 ==> (n - 1) * length < end - w.expected_start().nanos,
            n >= 1,
            count >= 1,
            first - length <= w.expected_start().nanos,
            first + (count - 1) * length >= end,
            length > 0,
    ;
    let e = w.end_position(s);
    let l = w.last_position(s);
    let c = w.chosen(s);
    assert(e < count);
    assert(c.len() == n);
    assert(c[0] == s[l + 1 - n]);
    assert(c.last() == s[l]);
    if e + 1 < n {
        assert(l + 1 - n == 0);
        assert(l * length >= e * length) by (nonlinear_arith)
            requires
                l >= e,
                length > 0,
        ;
        if e == 0 {
            assert(s[l].modified.nanos == first + l * length);
            assert(s[e].modified.nanos >= end);
            assert(l * length >= 0) by (nonlinear_arith)
                requires
                    l >= 0,
                    length > 0,
            ;
        } else {
            assert(s[l].modified.nanos == first + l * length);
            assert(s[e].modified.nanos == first + e * length);
        }
    } else {
        assert(l == e);
        let k = e + 1 - n;
        if e > 0 {
            assert(s[e - 1].modified.nanos < end);
            assert(s[e].modified.nanos == first + e * length);
            assert(s[e - 1].modified.nanos == first + (e - 1) * length) by {
                if e == 1 {
                    assert((e - 1) * length == 0) by (nonlinear_arith)
                        requires
                            e == 1,
                    ;
                }
            }
            assert(s[k].modified.nanos == first + k * length) by {
                if k == 0 {
                    assert(k * length == 0) by (nonlinear_arith)
                        requires
                            k == 0,
                    ;
                }
            }
            assert(k * length + n * length == e * length + length) by (nonlinear_arith)
                requires
                    k + n == e + 1,
            ;
            assert((e - 1) * length == e * length - length) by (nonlinear_arith);
        }
    }
}

/// One of the files holds the segment: it has the segment's path and is not empty.
pub open spec fn is_in_files(files: Seq<SegmentFile>, segment: ReplaySegment) -> bool {
    exists|i: int|
        0 <= i < files.len() && (#[trigger] files[i]).path == segment.path && files[i].is_file
            && files[i].len > 0 && segment_index(files[i].path@) == Some(segment.index as nat)
}

proof fn lemma_listed(files: Seq<SegmentFile>)
    ensures
        forall|i: int|
            0 <= i < files.len() && (#[trigger] files[i]).is_file && files[i].len > 0
                && segment_index(files[i].path@) is Some ==> exists|k: int|
                0 <= k < listed(files).len() && (#[trigger] listed(files)[k]).path == files[i].path
                    && listed(files)[k].index == segment_index(files[i].path@)->0 && (
                files[i].modified matches Some(m) ==> listed(files)[k].modified == m),
        forall|k: int|
            0 <= k < listed(files).len() ==> is_in_files(files, #[trigger] listed(files)[k]),
    decreases files.len(),
{
    if files.len() > 0 {
        let t = files.drop_last();
        lemma_listed(t);
        let before = listed(t);
        let all = listed(files);
        assert(files[files.len() - 1] == files.last());
        assert forall|i: int|
            0 <= i < files.len() && (#[trigger] files[i]).is_file && files[i].len > 0
                && segment_index(files[i].path@) is Some implies exists|k: int|
            0 <= k < all.len() && (#[trigger] all[k]).path == files[i].path && all[k].index
                == segment_index(files[i].path@)->0 && (files[i].modified matches Some(m)
                ==> all[k].modified == m) by {
            if i < t.len() {
                assert(t[i] == files[i]);
                let k = choose|k: int|
                    0 <= k < before.len() && (#[trigger] before[k]).path == t[i].path
                        && before[k].index == segment_index(t[i].path@)->0 && (
                    t[i].modified matches Some(m) ==> before[k].modified == m);
                assert(all[k] == before[k]);
            } else {
                lemma_segment_index_fits(files[i].path@);
                assert(all[before.len() as int].path == files[i].path);
            }
        }
        assert forall|k: int| 0 <= k < all.len() implies is_in_files(files, #[trigger] all[k]) by {
            if k < before.len() {
                assert(all[k] == before[k]);
                assert(is_in_files(t, before[k]));
                let i = choose|i: int|
                    0 <= i < t.len() && (#[trigger] t[i]).path == before[k].path && t[i].is_file
                        && t[i].len > 0 && segment_index(t[i].path@) == Some(
                        before[k].index as nat,
                    );
                assert(files[i] == t[i]);
            } else {
                lemma_segment_index_fits(files.last().path@);
                assert(files[files.len() - 1].path == all[k].path);
            }
        }
    }
}

proof fn lemma_segment_index_fits(p: Seq<char>)
    ensures
        segment_index(p) matches Some(n) ==> n <= u64::MAX,
{
}

/// Every file of a segment that is not empty is a segment of the recording, and
/// nothing else is.
pub proof fn lemma_every_segment_is_listed(files: Seq<SegmentFile>, i: int)
    requires
        0 <= i < files.len(),
    ensures
        files[i].is_file && files[i].len > 0 && segment_index(files[i].path@) is Some
            ==> exists|k: int|
            0 <= k < listed(files).len() && (#[trigger] listed(files)[k]).path == files[i].path
                && listed(files)[k].index == segment_index(files[i].path@)->0 && (
            files[i].modified matches Some(m) ==> listed(files)[k].modified == m),
        forall|k: int|
            0 <= k < listed(files).len() ==> is_in_files(files, #[trigger] listed(files)[k]),
{
    lemma_listed(files);
}

/// The segments that are removed are the oldest, and as many as there are too many:
/// none that is kept was written before one that goes.
pub proof fn lemma_oldest_segments_go(files: Seq<SegmentFile>, keep: nat)
    ensures
        ({
            let all = chronological(listed(files));
            let gone = superfluous(all, keep as int);
            &&& gone.len() == (if all.len() > keep {
                all.len() - keep
            } else {
                0
            })
            &&& forall|i: int| 0 <= i < gone.len() ==> #[trigger] gone[i] == all[i]
            &&& forall|i: int, j: int|
                0 <= i < gone.len() <= j < all.len() ==> (#[trigger] gone[i]).modified.nanos <= (
                #[trigger] all[j]).modified.nanos
        }),
{
    let all = chronological(listed(files));
    let gone = superfluous(all, keep as int);
    lemma_chronological(listed(files));
    assert forall|i: int, j: int| 0 <= i < gone.len() <= j < all.len() implies (
    #[trigger] gone[i]).modified.nanos <= (#[trigger] all[j]).modified.nanos by {
        assert(not_after(all[i], all[j]));
    }
}

/// The finished segments of a list are all those, in order, that were last written
/// at least half a segment and one and a half seconds ago.
pub proof fn lemma_finished_segments_rest(
    s: Seq<ReplaySegment>,
    now: SystemTime,
    segment_seconds: u64,
)
    requires
        segment_seconds * 1000 <= u64::MAX,
    ensures
        forall|x: ReplaySegment| #[trigger]
            finished(s, now, min_age_nanos(segment_seconds)).contains(x) <==> s.contains(x)
                && now.nanos - x.modified.nanos >= 1_500_000_000 && now.nanos - x.modified.nanos
                >= segment_seconds * 500_000_000,
{
    let age = min_age_nanos(segment_seconds);
    lemma_finished(s, now, age);
}

proof fn lemma_finished(s: Seq<ReplaySegment>, now: SystemTime, min_age: int)
    ensures
        forall|x: ReplaySegment| #[trigger]
            finished(s, now, min_age).contains(x) <==> s.contains(x) && now.nanos
                - x.modified.nanos >= min_age,
    decreases s.len(),
{
    if s.len() > 0 {
        let t = s.drop_last();
        lemma_finished(t, now, min_age);
        let before = finished(t, now, min_age);
        let all = finished(s, now, min_age);
        assert forall|x: ReplaySegment| #[trigger] all.contains(x) <==> s.contains(x) && now.nanos
            - x.modified.nanos >= min_age by {
            if before.contains(x) {
                let k = choose|k: int| 0 <= k < before.len() && before[k] == x;
                assert(all[k] == x);
            }
            if t.contains(x) {
                let k = choose|k: int| 0 <= k < t.len() && t[k] == x;
                assert(s[k] == x);
            }
            if s.contains(x) {
                let k = choose|k: int| 0 <= k < s.len() && s[k] == x;
                if k < t.len() {
                    assert(t[k] == x);
                } else if is_old_enough(s.last(), now, min_age) {
                    assert(all[before.len() as int] == x);
                }
            }
            if all.contains(x) {
                let k = choose|k: int| 0 <= k < all.len() && all[k] == x;
                if k < before.len() {
                    assert(before[k] == x);
                    assert(before.contains(x));
                } else {
                    assert(s[s.len() - 1] == x);
                }
            }
        }
    }
}

proof fn lemma_segment_name_is_plain(n: nat)
    ensures
        segment_name(n).len() >= 13,
        segment_name(n)[0] == 's',
        !segment_name(n).contains('/'),
{
    let digits = text::padded_decimal(n, 6);
    let name = segment_name(n);
    reveal_strlit("segment-");
    reveal_strlit(".webm");
    assert("segment-"@.len() == 8);
    assert(".webm"@.len() == 5);
    text::lemma_padded_decimal(n, 6);
    assert forall|i: int| 0 <= i < name.len() implies name[i] != '/' by {
        if i < 8 {
            assert(name[i] == "segment-"@[i]);
        } else if i < 8 + digits.len() {
            assert(name[i] == digits[i - 8]);
            assert(text::is_digit(digits[i - 8]));
        } else {
            assert(name[i] == ".webm"@[i - 8 - digits.len()]);
        }
    }
    assert(name[0] == "segment-"@[0]);
}

proof fn lemma_stripped(front: Seq<char>, middle: Seq<char>, back: Seq<char>)
    ensures
        text::strip_prefix_of(front + middle + back, front) == Some(middle + back),
        text::strip_suffix_of(middle + back, back) == Some(middle),
{
    let whole = front + middle + back;
    let rest = middle + back;
    assert(whole.subrange(0, front.len() as int) =~= front);
    assert(whole.subrange(front.len() as int, whole.len() as int) =~= rest);
    assert(rest.subrange(rest.len() - back.len(), rest.len() as int) =~= back);
    assert(rest.subrange(0, rest.len() - back.len()) =~= middle);
}

/// A segment reads back from its name.
pub proof fn lemma_segment_name_tells_its_number(dir: Seq<char>, index: u64)
    ensures
        segment_index(path::joined_path(dir, segment_name(index as nat))) == Some(index as nat),
{
    let n = index as nat;
    let digits = text::padded_decimal(n, 6);
    let name = segment_name(n);
    lemma_segment_name_is_plain(n);
    assert(name != seq!['.']);
    assert(name != seq!['.', '.']);
    path::lemma_joined_path(dir, name);
    lemma_stripped("segment-"@, digits, ".webm"@);
    text::lemma_padded_decimal(n, 6);
    assert(text::is_digit(digits[0]));
    assert(text::without_plus(digits) == digits);
}

/// A recording that is long enough but begins after the first event is too late for
/// its clip, and one that begins in time but ends before the seconds after the last
/// event are over is not ready yet.
pub proof fn lemma_refusals_say_what_is_missing(
    segments: Seq<ReplaySegment>,
    first_event_time: SystemTime,
    last_event_time: SystemTime,
    duration_seconds: u64,
    post_event_seconds: u64,
    segment_seconds: u64,
    r: EventSegmentSelection,
)
    requires
        (EventWindow {
            first_event_time,
            last_event_time,
            duration_seconds,
            post_event_seconds,
            segment_seconds,
        }).selects(chronological(segments), r),
        segments.len() > 0,
        !(r is NotEnoughSegments),
        first_event_time.valid(),
        first_event_time.nanos >= (duration_seconds - post_event_seconds) * 1_000_000_000,
        chronological(segments)[0].modified.nanos - segment_seconds * 1_000_000_000
            >= SYSTEM_TIME_MIN,
    ensures
        ({
            let begins = chronological(segments)[0].modified.nanos - segment_seconds
                * 1_000_000_000;
            let ends = chronological(segments).last().modified.nanos;
            let end = last_event_time.nanos + post_event_seconds * 1_000_000_000;
            let lead = (duration_seconds - post_event_seconds) * 1_000_000_000;
            &&& begins > first_event_time.nanos ==> r is TooOld
            &&& lead >= 0 && begins > first_event_time.nanos - lead + segment_seconds
                * 1_000_000_000 ==> r is TooOld
            &&& begins <= first_event_time.nanos - (if lead >= 0 {
                lead
            } else {
                0
            }) && ends < end ==> r is NotReadyYet
        }),
{
    lemma_chronological(segments);
}

}
