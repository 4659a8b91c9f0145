//! The clips on disk: where they are looked for, and what is shown of them.

use vstd::prelude::*;
use vstd::string::*;
use crate::app::clip_types::{ClipContext, ClipReason};
use crate::app::events::{ClipInfo, ClipView};
use crate::capture::gpu_screen_recorder;
use crate::desktop::editor;
use crate::order;
use crate::path;
use crate::text;
use crate::time::{SystemTime, NANOS_PER_SEC};

verus! {

/// One of the paths is the given one.
pub open spec fn holds_path(paths: Seq<Seq<char>>, p: Seq<char>) -> bool {
    exists|i: int| 0 <= i < paths.len() && path::is_same_path(#[trigger] paths[i], p)
}

fn has_path(paths: &Vec<String>, p: &str) -> (r: bool)
    ensures
        r == holds_path(text::texts(paths@), p@),
{
    let mut i: usize = 0;
    while i < paths.len()
        invariant
            i <= paths.len(),
            forall|j: int|
                0 <= j < i ==> !path::is_same_path(#[trigger] text::texts(paths@)[j], p@),
        decreases paths.len() - i,
    {
        assert(text::texts(paths@)[i as int] == paths@[i as int]@);
        if path::same_path(paths[i].as_str(), p) {
            return true;
        }
        i = i + 1;
    }
    false
}

/// The paths without those that were there before.
pub open spec fn with_new_path(paths: Seq<Seq<char>>, p: Seq<char>) -> Seq<Seq<char>> {
    if holds_path(paths, p) {
        paths
    } else {
        paths.push(p)
    }
}

/// The directories that are searched for clips: each given one, and those of
/// edited clips in it; none twice.
pub open spec fn scan_roots(dirs: Seq<Seq<char>>) -> Seq<Seq<char>>
    decreases dirs.len(),
{
    if dirs.len() == 0 {
        seq![]
    } else {
        let dir = dirs.last();
        with_new_path(
            with_new_path(
                with_new_path(scan_roots(dirs.drop_last()), dir),
                path::joined_path(dir, "Edited"@),
            ),
            path::joined_path(dir, "Social"@),
        )
    }
}

fn add_path(paths: &mut Vec<String>, p: String)
    ensures
        text::texts(final(paths)@) == with_new_path(text::texts(old(paths)@), p@),
{
    if !has_path(paths, p.as_str()) {
        let ghost before = text::texts(paths@);
        paths.push(p);
        assert(text::texts(paths@) =~= before.push(p@));
    }
}

pub fn gallery_scan_roots_for_base_dirs(base_dirs: &Vec<String>) -> (r: Vec<String>)
    ensures
        text::texts(r@) == scan_roots(text::texts(base_dirs@)),
{
    let ghost all = text::texts(base_dirs@);
    let mut roots: Vec<String> = Vec::new();
    let mut i: usize = 0;
    assert(text::texts(roots@) =~= scan_roots(all.subrange(0, 0)));
    while i < base_dirs.len()
        invariant
            i <= base_dirs.len(),
            all == text::texts(base_dirs@),
            text::texts(roots@) == scan_roots(all.subrange(0, i as int)),
        decreases base_dirs.len() - i,
    {
        let ghost next = all.subrange(0, i + 1);
        assert(next.drop_last() == all.subrange(0, i as int));
        assert(next.last() == base_dirs@[i as int]@);
        let dir = base_dirs[i].as_str();
        add_path(&mut roots, dir.to_owned());
        add_path(&mut roots, path::join_path(dir, "Edited"));
        add_path(&mut roots, path::join_path(dir, "Social"));
        i = i + 1;
    }
    assert(all.subrange(0, all.len() as int) == all);
    roots
}

/// No two of the paths are the same.
pub open spec fn paths_apart(paths: Seq<Seq<char>>) -> bool {
    forall|i: int, j: int|
        0 <= i < j < paths.len() ==> !path::is_same_path(#[trigger] paths[i], #[trigger] paths[j])
}

proof fn lemma_new_path_apart(paths: Seq<Seq<char>>, p: Seq<char>)
    requires
        paths_apart(paths),
    ensures
        paths_apart(with_new_path(paths, p)),
{
    let after = with_new_path(paths, p);
    assert forall|i: int, j: int| 0 <= i < j < after.len() implies !path::is_same_path(
        #[trigger] after[i],
        #[trigger] after[j],
    ) by {
        assert(after[i] == paths[i]);
        if j < paths.len() {
            assert(after[j] == paths[j]);
        }
    }
}

/// No directory is searched twice.
pub proof fn lemma_roots_are_distinct(dirs: Seq<Seq<char>>)
    ensures
        paths_apart(scan_roots(dirs)),
    decreases dirs.len(),
{
    if dirs.len() > 0 {
        let dir = dirs.last();
        lemma_roots_are_distinct(dirs.drop_last());
        let first = with_new_path(scan_roots(dirs.drop_last()), dir);
        let second = with_new_path(first, path::joined_path(dir, "Edited"@));
        lemma_new_path_apart(scan_roots(dirs.drop_last()), dir);
        lemma_new_path_apart(first, path::joined_path(dir, "Edited"@));
        lemma_new_path_apart(second, path::joined_path(dir, "Social"@));
    }
}

pub fn is_supported_gallery_video(p: &str, is_file: bool) -> (r: bool)
    ensures
        r == (is_file && editor::is_video(p@)),
{
    is_file && editor::has_video_extension(p)
}

/// Why a clip was made, by the start of its name.
pub open spec fn reason_in_name(name: Seq<char>) -> ClipReason {
    if text::has_prefix(name, "multi-kill"@) {
        ClipReason::MultiKill
    } else if text::has_prefix(name, "base"@) {
        ClipReason::BaseDestroyed
    } else if text::has_prefix(name, "kill"@) {
        ClipReason::TargetDestroyed
    } else if text::has_prefix(name, "death"@) {
        ClipReason::PlayerDestroyed
    } else if text::has_prefix(name, "manual"@) {
        ClipReason::Manual
    } else {
        ClipReason::Unknown
    }
}

pub fn clip_reason_from_name(name: &str) -> (r: ClipReason)
    ensures
        r == reason_in_name(name@),
{
    if text::starts_with(name, "multi-kill") {
        ClipReason::MultiKill
    } else if text::starts_with(name, "base") {
        ClipReason::BaseDestroyed
    } else if text::starts_with(name, "kill") {
        ClipReason::TargetDestroyed
    } else if text::starts_with(name, "death") {
        ClipReason::PlayerDestroyed
    } else if text::starts_with(name, "manual") {
        ClipReason::Manual
    } else {
        ClipReason::Unknown
    }
}

/// A file that was found, and what is known of it.
#[derive(Debug)]
pub struct GalleryEntry {
    pub path: String,
    pub is_file: bool,
    /// The canonical path, where it could be had.
    pub canonical: Option<String>,
    /// The length, where the file could be asked for it.
    pub len: Option<u64>,
    /// When it was last written, where that is known.
    pub modified: Option<SystemTime>,
    /// The reason that is written down beside it.
    pub reason: Option<ClipReason>,
    /// The length in whole seconds that is written down beside it.
    pub duration_seconds: Option<u64>,
    pub has_thumbnail: bool,
    pub preview_url: Option<String>,
}

/// What is shown of a file.
pub open spec fn shown_clip(entry: GalleryEntry, now: SystemTime) -> ClipView {
    let file_name = match path::file_name_of(entry.path@) {
        Some(name) => name,
        None => entry.path@,
    };
    ClipView {
        path: entry.path@,
        thumbnail_path: if entry.has_thumbnail {
            Some(path::with_extension_of(entry.path@, "jpg"@))
        } else {
            None
        },
        preview_url: text::opt_text(entry.preview_url),
        file_name,
        reason: match entry.reason {
            Some(reason) => reason,
            None => reason_in_name(file_name),
        },
        size_bytes: entry.len->0,
        duration_seconds: match entry.duration_seconds {
            Some(n) => n,
            None => 0,
        },
        modified_secs_ago: seconds_since(entry.modified, now),
    }
}

/// How long ago a file was written; 0 where that is not known or lies ahead.
pub open spec fn seconds_since(modified: Option<SystemTime>, now: SystemTime) -> u64 {
    match modified {
        Some(m) => if now.nanos >= m.nanos {
            ((now.nanos - m.nanos) / NANOS_PER_SEC as int) as u64
        } else {
            0
        },
        None => 0,
    }
}

/// The path by which a file is known.
pub open spec fn known_path(entry: GalleryEntry) -> Seq<char> {
    match entry.canonical {
        Some(p) => p@,
        None => entry.path@,
    }
}

pub ghost struct Scan {
    pub seen: Seq<Seq<char>>,
    pub clips: Seq<ClipView>,
    pub total: int,
}

pub open spec fn saturated(n: int) -> int {
    if n > u64::MAX {
        u64::MAX as int
    } else {
        n
    }
}

/// A file is shown if it is a video that was not found before and whose length
/// is known.
pub open spec fn scanned_one(s: Scan, entry: GalleryEntry, now: SystemTime) -> Scan {
    if !(entry.is_file && editor::is_video(entry.path@)) || holds_path(s.seen, known_path(entry)) {
        s
    } else {
        let seen = s.seen.push(known_path(entry));
        match entry.len {
            Some(len) => Scan {
                seen,
                clips: s.clips.push(shown_clip(entry, now)),
                total: saturated(s.total + len),
            },
            None => Scan { seen, ..s },
        }
    }
}

pub open spec fn scanned(entries: Seq<GalleryEntry>, now: SystemTime) -> Scan
    decreases entries.len(),
{
    if entries.len() == 0 {
        Scan { seen: seq![], clips: seq![], total: 0 }
    } else {
        scanned_one(scanned(entries.drop_last(), now), entries.last(), now)
    }
}

pub open spec fn clip_views(s: Seq<ClipInfo>) -> Seq<ClipView> {
    s.map_values(|c: ClipInfo| c@)
}

pub open spec fn ages(s: Seq<ClipView>) -> Seq<u64> {
    s.map_values(|c: ClipView| c.modified_secs_ago)
}

/// The same clips, the youngest first.
pub open spec fn is_sorted_by_age(sorted: Seq<ClipView>, clips: Seq<ClipView>) -> bool {
    exists|positions: Seq<usize>|
        {
            &&& #[trigger] order::is_order(ages(clips), positions)
            &&& sorted.len() == clips.len()
            &&& forall|i: int|
                0 <= i < sorted.len() ==> #[trigger] sorted[i] == clips[positions[i] as int]
        }
}

fn show_clip(entry: &GalleryEntry, len: u64, now: SystemTime) -> (r: ClipInfo)
    requires
        entry.len == Some(len),
        now.valid(),
        entry.modified matches Some(m) ==> m.valid(),
    ensures
        r@ == shown_clip(*entry, now),
{
    let file_name: String = match path::file_name(entry.path.as_str()) {
        Some(name) => name,
        None => entry.path.clone(),
    };
    let reason: ClipReason = match entry.reason {
        Some(reason) => reason,
        None => clip_reason_from_name(file_name.as_str()),
    };
    let age: u64 = match entry.modified {
        Some(modified) => match now.duration_since(modified) {
            Some(span) => span.as_secs(),
            None => 0,
        },
        None => 0,
    };
    ClipInfo {
        path: entry.path.clone(),
        thumbnail_path: if entry.has_thumbnail {
            Some(path::with_extension(entry.path.as_str(), "jpg"))
        } else {
            None
        },
        preview_url: text::clone_opt_text(&entry.preview_url),
        file_name,
        reason,
        size_bytes: len,
        duration_seconds: match entry.duration_seconds {
            Some(n) => n,
            None => 0,
        },
        modified_secs_ago: age,
    }
}

pub open spec fn entries_valid(entries: Seq<GalleryEntry>) -> bool {
    forall|i: int|
        0 <= i < entries.len() ==> ((#[trigger] entries[i]).modified matches Some(m) ==> m.valid())
}

fn sort_by_age(clips: &Vec<ClipInfo>) -> (r: Vec<ClipInfo>)
    ensures
        is_sorted_by_age(clip_views(r@), clip_views(clips@)),
{
    let mut all: Vec<u64> = Vec::new();
    let mut i: usize = 0;
    while i < clips.len()
        invariant
            i <= clips.len(),
            all@ == ages(clip_views(clips@)).subrange(0, i as int),
        decreases clips.len() - i,
    {
        all.push(clips[i].modified_secs_ago);
        assert(all@ =~= ages(clip_views(clips@)).subrange(0, i + 1));
        i = i + 1;
    }
    assert(all@ =~= ages(clip_views(clips@)));
    let positions = order::youngest_first(&all);
    let mut r: Vec<ClipInfo> = Vec::new();
    let mut k: usize = 0;
    while k < positions.len()
        invariant
            k <= positions.len(),
            positions@.len() == clips@.len(),
            order::is_order(ages(clip_views(clips@)), positions@),
            r@.len() == k,
            forall|j: int| 0 <= j < k ==> (#[trigger] r@[j]) == clips@[positions@[j] as int],
        decreases positions.len() - k,
    {
        assert(positions@[k as int] < ages(clip_views(clips@)).len());
        r.push(clips[positions[k]].clone());
        k = k + 1;
    }
    proof {
        let sorted = clip_views(r@);
        let given = clip_views(clips@);
        assert forall|j: int| 0 <= j < sorted.len() implies #[trigger] sorted[j]
            == given[positions@[j] as int] by {
            assert(r@[j] == clips@[positions@[j] as int]);
            assert(positions@[j] < given.len());
        }
        assert(order::is_order(ages(given), positions@));
    }
    r
}

/// The clips among the files that were found, the youngest first, and their
/// length in all.
pub fn scan_clips(entries: &Vec<GalleryEntry>, now: SystemTime) -> (r: (Vec<ClipInfo>, u64))
    requires
        now.valid(),
        entries_valid(entries@),
    ensures
        is_sorted_by_age(clip_views(r.0@), scanned(entries@, now).clips),
        r.1 == scanned(entries@, now).total,
{
    let mut clips: Vec<ClipInfo> = Vec::new();
    let mut seen: Vec<String> = Vec::new();
    let mut total: u64 = 0;
    let mut i: usize = 0;
    proof {
        let none = entries@.subrange(0, 0);
        assert(text::texts(seen@) =~= scanned(none, now).seen);
        assert(clip_views(clips@) =~= scanned(none, now).clips);
    }
    while i < entries.len()
        invariant
            i <= entries.len(),
            now.valid(),
            entries_valid(entries@),
            text::texts(seen@) == scanned(entries@.subrange(0, i as int), now).seen,
            clip_views(clips@) == scanned(entries@.subrange(0, i as int), now).clips,
            total == scanned(entries@.subrange(0, i as int), now).total,
        decreases entries.len() - i,
    {
        let ghost next = entries@.subrange(0, i + 1);
        assert(next.drop_last() == entries@.subrange(0, i as int));
        assert(next.last() == entries@[i as int]);
        let entry = &entries[i];
        let known: String = match &entry.canonical {
            Some(p) => p.clone(),
            None => entry.path.clone(),
        };
        if is_supported_gallery_video(entry.path.as_str(), entry.is_file) && !has_path(
            &seen,
            known.as_str(),
        ) {
            let ghost before = text::texts(seen@);
            let ghost shown = clip_views(clips@);
            seen.push(known);
            assert(text::texts(seen@) =~= before.push(known@));
            if let Some(len) = entry.len {
                let clip = show_clip(entry, len, now);
                clips.push(clip);
                assert(clip_views(clips@) =~= shown.push(clip@));
                total = if total > u64::MAX - len {
                    u64::MAX
                } else {
                    total + len
                };
            }
        }
        i = i + 1;
    }
    assert(entries@.subrange(0, entries@.len() as int) == entries@);
    (sort_by_age(&clips), total)
}

/// The files that go with a clip: the video, what is written down of it, and
/// its picture.
pub fn delete_clip_files(p: &str) -> (r: Vec<String>)
    ensures
        text::texts(r@) == seq![
            p@,
            path::with_extension_of(p@, "json"@),
            path::with_extension_of(p@, "jpg"@),
        ],
{
    let mut r: Vec<String> = Vec::new();
    r.push(p.to_owned());
    r.push(path::with_extension(p, "json"));
    r.push(path::with_extension(p, "jpg"));
    assert(text::texts(r@) =~= seq![
        p@,
        path::with_extension_of(p@, "json"@),
        path::with_extension_of(p@, "jpg"@),
    ]);
    r
}

/// The length of the clips in all.
pub open spec fn bytes_in(clips: Seq<ClipView>) -> int
    decreases clips.len(),
{
    if clips.len() == 0 {
        0
    } else {
        bytes_in(clips.drop_last()) + clips.last().size_bytes
    }
}

/// No file is shown twice, however often it was found, and the length in all is
/// that of the clips that are shown.
pub proof fn lemma_scan_shows_each_once(entries: Seq<GalleryEntry>, now: SystemTime)
    ensures
        paths_apart(scanned(entries, now).seen),
        scanned(entries, now).clips.len() <= scanned(entries, now).seen.len(),
        scanned(entries, now).seen.len() <= entries.len(),
        bytes_in(scanned(entries, now).clips) >= 0,
        scanned(entries, now).total == saturated(bytes_in(scanned(entries, now).clips)),
    decreases entries.len(),
{
    if entries.len() > 0 {
        let entry = entries.last();
        let before = scanned(entries.drop_last(), now);
        lemma_scan_shows_each_once(entries.drop_last(), now);
        lemma_new_path_apart(before.seen, known_path(entry));
        if entry.len is Some {
            assert(before.clips.push(shown_clip(entry, now)).drop_last() =~= before.clips);
        }
    }
}

/// A file that was found is a clip: a video whose length is known.
pub open spec fn is_clip_file(entry: GalleryEntry) -> bool {
    &&& entry.is_file
    &&& entry.len is Some
    &&& path::extension_of(entry.path@) matches Some(ext) && (text::ascii_lowered(ext) == "mp4"@
        || text::ascii_lowered(ext) == "webm"@)
}

/// Every clip is shown that is not found a second time, with its length, its
/// reason, its name and its age, and nothing but clips is shown.
pub proof fn lemma_every_clip_is_shown(entries: Seq<GalleryEntry>, now: SystemTime)
    ensures
        forall|i: int|
            #![trigger entries[i]]
            0 <= i < entries.len() && is_clip_file(entries[i]) && (forall|j: int|
                #![trigger known_path(entries[j])]
                0 <= j < i ==> !path::is_same_path(known_path(entries[j]), known_path(entries[i])))
                ==> scanned(entries, now).clips.contains(shown_clip(entries[i], now)),
        forall|c: ClipView| #[trigger]
            scanned(entries, now).clips.contains(c) ==> exists|i: int|
                0 <= i < entries.len() && is_clip_file(#[trigger] entries[i]) && c == shown_clip(
                    entries[i],
                    now,
                ),
        forall|p: Seq<char>| #[trigger]
            scanned(entries, now).seen.contains(p) ==> exists|i: int|
                0 <= i < entries.len() && known_path(#[trigger] entries[i]) == p,
    decreases entries.len(),
{
    if entries.len() > 0 {
        let t = entries.drop_last();
        let last = entries.last();
        assert(entries[entries.len() - 1] == last);
        lemma_every_clip_is_shown(t, now);
        let before = scanned(t, now);
        let after = scanned(entries, now);
        assert forall|c: ClipView| #[trigger] before.clips.contains(c) implies after.clips.contains(
            c,
        ) by {
            let k = choose|k: int| 0 <= k < before.clips.len() && before.clips[k] == c;
            assert(after.clips[k] == c);
        }
        assert forall|c: ClipView| #[trigger] after.clips.contains(c) implies exists|i: int|
            0 <= i < entries.len() && is_clip_file(#[trigger] entries[i]) && c == shown_clip(
                entries[i],
                now,
            ) by {
            let k = choose|k: int| 0 <= k < after.clips.len() && after.clips[k] == c;
            if k < before.clips.len() {
                assert(before.clips[k] == c);
                assert(before.clips.contains(c));
                let i = choose|i: int|
                    0 <= i < t.len() && is_clip_file(#[trigger] t[i]) && c == shown_clip(
                        t[i],
                        now,
                    );
                assert(entries[i] == t[i]);
            } else {
                assert(is_clip_file(entries[entries.len() - 1]));
            }
        }
        assert forall|p: Seq<char>| #[trigger] after.seen.contains(p) implies exists|i: int|
            0 <= i < entries.len() && known_path(#[trigger] entries[i]) == p by {
            let k = choose|k: int| 0 <= k < after.seen.len() && after.seen[k] == p;
            if k < before.seen.len() {
                assert(before.seen[k] == p);
                assert(before.seen.contains(p));
                let i = choose|i: int| 0 <= i < t.len() && known_path(#[trigger] t[i]) == p;
                assert(entries[i] == t[i]);
            } else {
                assert(known_path(entries[entries.len() - 1]) == p);
            }
        }
        assert forall|i: int|
            #![trigger entries[i]]
            0 <= i < entries.len() && is_clip_file(entries[i]) && (forall|j: int|
                #![trigger known_path(entries[j])]
                0 <= j < i ==> !path::is_same_path(
                    known_path(entries[j]),
                    known_path(entries[i]),
                )) implies after.clips.contains(shown_clip(entries[i], now)) by {
            if i < t.len() {
                assert(t[i] == entries[i]);
                assert forall|j: int|
                    #![trigger known_path(t[j])]
                    0 <= j < i implies !path::is_same_path(
                    known_path(t[j]),
                    known_path(t[i]),
                ) by {
                    assert(t[j] == entries[j]);
                    assert(!path::is_same_path(known_path(entries[j]), known_path(entries[i])));
                }
                assert(before.clips.contains(shown_clip(t[i], now)));
            } else {
                if holds_path(before.seen, known_path(last)) {
                    let k = choose|k: int|
                        0 <= k < before.seen.len() && path::is_same_path(
                            #[trigger] before.seen[k],
                            known_path(last),
                        );
                    assert(before.seen.contains(before.seen[k]));
                    let j = choose|j: int|
                        0 <= j < t.len() && known_path(#[trigger] t[j]) == before.seen[k];
                    assert(t[j] == entries[j]);
                    assert(!path::is_same_path(known_path(entries[j]), known_path(entries[i])));
                }
                assert(after.clips[before.clips.len() as int] == shown_clip(last, now));
            }
        }
    }
}

/// A clip is shown with what is known of its file. What is written down of its
/// reason comes before its name.
pub proof fn lemma_clip_shows_its_file(entry: GalleryEntry, now: SystemTime)
    requires
        is_clip_file(entry),
    ensures
        ({
            let c = shown_clip(entry, now);
            &&& c.path == entry.path@
            &&& Some(c.size_bytes) == entry.len
            &&& path::file_name_of(entry.path@) == Some(c.file_name)
            &&& entry.reason is Some ==> Some(c.reason) == entry.reason
            &&& entry.duration_seconds is Some ==> Some(c.duration_seconds)
                == entry.duration_seconds
            &&& entry.duration_seconds is None ==> c.duration_seconds == 0
            &&& entry.has_thumbnail ==> c.thumbnail_path is Some && path::extension_of(
                c.thumbnail_path->0,
            ) == Some("jpg"@) && path::file_stem_of(c.thumbnail_path->0) == path::file_stem_of(
                entry.path@,
            )
            &&& !entry.has_thumbnail ==> c.thumbnail_path is None
            &&& c.preview_url == text::opt_text(entry.preview_url)
        }),
{
    reveal_strlit("jpg");
    path::lemma_extension_of_with_extension(entry.path@, "jpg"@);
}

/// How long ago a file was written, in whole seconds.
pub proof fn lemma_age_in_seconds(modified: SystemTime, now: SystemTime)
    requires
        modified.valid(),
        now.valid(),
        modified.nanos <= now.nanos,
    ensures
        ({
            let age = seconds_since(Some(modified), now);
            age * 1_000_000_000 <= now.nanos - modified.nanos < (age + 1) * 1_000_000_000
        }),
{
}

/// The clips come with the youngest first, each as often as it was found.
pub proof fn lemma_youngest_clips_come_first(sorted: Seq<ClipView>, clips: Seq<ClipView>)
    requires
        is_sorted_by_age(sorted, clips),
    ensures
        sorted.len() == clips.len(),
        forall|i: int, j: int|
            0 <= i < j < sorted.len() ==> (#[trigger] sorted[i]).modified_secs_ago <= (
            #[trigger] sorted[j]).modified_secs_ago,
        forall|i: int| 0 <= i < sorted.len() ==> clips.contains(#[trigger] sorted[i]),
{
    let positions = choose|positions: Seq<usize>|
        {
            &&& #[trigger] order::is_order(ages(clips), positions)
            &&& sorted.len() == clips.len()
            &&& forall|i: int|
                0 <= i < sorted.len() ==> #[trigger] sorted[i] == clips[positions[i] as int]
        };
    assert forall|i: int, j: int| 0 <= i < j < sorted.len() implies (
    #[trigger] sorted[i]).modified_secs_ago <= (#[trigger] sorted[j]).modified_secs_ago by {
        assert(order::comes_before(ages(clips), positions[i] as int, positions[j] as int));
        assert(positions[i] < ages(clips).len() && positions[j] < ages(clips).len());
    }
    assert forall|i: int| 0 <= i < sorted.len() implies clips.contains(#[trigger] sorted[i]) by {
        assert(positions[i] < ages(clips).len());
    }
}

/// A clip's name tells why it was made, to whoever reads the name again.
pub proof fn lemma_name_tells_the_reason(context: ClipContext, rest: Seq<char>)
    ensures
        reason_in_name(gpu_screen_recorder::clip_stem(context) + rest) == context.reason,
{
    reveal_strlit("multi-kill");
    reveal_strlit("base");
    reveal_strlit("kill");
    reveal_strlit("death");
    reveal_strlit("manual");
    reveal_strlit("clip");
    reveal_strlit("-");
    let prefix = gpu_screen_recorder::stem_prefix(context.reason);
    let name = gpu_screen_recorder::clip_stem(context) + rest;
    assert(name.subrange(0, prefix.len() as int) =~= prefix);
    assert(text::has_prefix(name, prefix));
    assert(name[0] == prefix[0]);
    if text::has_prefix(name, "multi-kill"@) {
        assert(name.subrange(0, 10)[0] == 'm');
        assert(name.subrange(0, 10)[1] == 'u');
        assert(name[1] == 'u');
    }
    if text::has_prefix(name, "base"@) {
        assert(name.subrange(0, 4)[0] == 'b');
    }
    if text::has_prefix(name, "kill"@) {
        assert(name.subrange(0, 4)[0] == 'k');
    }
    if text::has_prefix(name, "death"@) {
        assert(name.subrange(0, 5)[0] == 'd');
    }
    if text::has_prefix(name, "manual"@) {
        assert(name.subrange(0, 6)[0] == 'm');
        assert(name.subrange(0, 6)[1] == 'a');
        assert(name[1] == 'a');
    }
    assert(name[1] == prefix[1]);
}

proof fn lemma_new_path_holds(paths: Seq<Seq<char>>, p: Seq<char>)
    ensures
        holds_path(with_new_path(paths, p), p),
        forall|q: Seq<char>| #[trigger] holds_path(paths, q) ==> holds_path(
            with_new_path(paths, p),
            q,
        ),
{
    let after = with_new_path(paths, p);
    if !holds_path(paths, p) {
        assert(path::is_same_path(after[paths.len() as int], p));
    }
    assert forall|q: Seq<char>| #[trigger] holds_path(paths, q) implies holds_path(after, q) by {
        let i = choose|i: int| 0 <= i < paths.len() && path::is_same_path(#[trigger] paths[i], q);
        assert(path::is_same_path(after[i], q));
    }
}

/// Every directory is searched, and the directories of edited clips in it.
pub proof fn lemma_every_root_is_searched(dirs: Seq<Seq<char>>, i: int)
    requires
        0 <= i < dirs.len(),
    ensures
        holds_path(scan_roots(dirs), dirs[i]),
        holds_path(scan_roots(dirs), path::joined_path(dirs[i], "Edited"@)),
        holds_path(scan_roots(dirs), path::joined_path(dirs[i], "Social"@)),
    decreases dirs.len(),
{
    let t = dirs.drop_last();
    let dir = dirs.last();
    let first = with_new_path(scan_roots(t), dir);
    let second = with_new_path(first, path::joined_path(dir, "Edited"@));
    lemma_new_path_holds(scan_roots(t), dir);
    lemma_new_path_holds(first, path::joined_path(dir, "Edited"@));
    lemma_new_path_holds(second, path::joined_path(dir, "Social"@));
    if i < t.len() {
        assert(t[i] == dirs[i]);
        lemma_every_root_is_searched(t, i);
    }
}

}
