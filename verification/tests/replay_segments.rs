use wt_clipper::capture::segments::{
    list_segments, parse_segment_index, prune_old_segments, segment_file_name,
    segment_location_pattern, segments_needed_for_duration, segments_to_keep,
    select_segments_around_event, select_segments_for_duration, selected_segments_duration,
    snapshot_stable_segments, wait_until_segment_stable, EventSegmentSelection, ReplaySegment,
    SegmentFile, Stability, StabilityStep,
};
use wt_clipper::time::{Duration, SystemTime};

fn file(index: u64, millis: u64) -> SegmentFile {
    SegmentFile {
        path: format!("/s/{}", segment_file_name(index)),
        is_file: true,
        len: 7,
        modified: Some(SystemTime::unix_epoch().plus(Duration::from_millis(millis))),
    }
}

fn indexes(segments: &[ReplaySegment]) -> Vec<u64> {
    segments.iter().map(|segment| segment.index).collect()
}

fn segment_at(index: u64, seconds: u64, millis: u64) -> ReplaySegment {
    ReplaySegment {
        index,
        path: segment_file_name(index),
        modified: SystemTime::unix_epoch()
            .plus(Duration::from_secs(seconds))
            .plus(Duration::from_millis(millis)),
    }
}

#[test]
fn computes_segments_to_keep_with_margin() {
    assert_eq!(segments_to_keep(30, 2), 17);
    assert_eq!(segments_to_keep(10, 3), 6);
}

#[test]
fn formats_segment_name() {
    assert_eq!(segment_file_name(12), "segment-000012.webm");
}

#[test]
fn selected_duration_can_cover_clip_seconds() {
    assert!(selected_segments_duration(10, 2).nanos >= Duration::from_secs(20).nanos);
}

#[test]
fn computes_export_segments_needed_from_duration() {
    assert_eq!(segments_needed_for_duration(25, 5), 5);
    assert_eq!(segments_needed_for_duration(20, 5), 4);
    assert_eq!(segments_needed_for_duration(25, 2), 13);
}

#[test]
fn selects_only_requested_duration_segments() {
    let base = SystemTime::unix_epoch().plus(Duration::from_secs(100));
    let segments = (0..8)
        .map(|index| ReplaySegment {
            index,
            path: segment_file_name(index),
            modified: base.plus(Duration::from_secs(index * 5)),
        })
        .collect::<Vec<_>>();

    let selected = select_segments_for_duration(&segments, 25, 5);

    assert_eq!(
        selected
            .iter()
            .map(|segment| segment.index)
            .collect::<Vec<_>>(),
        vec![3, 4, 5, 6, 7]
    );
}

#[test]
fn selects_segments_around_event_time() {
    let base = SystemTime::unix_epoch().plus(Duration::from_secs(100));
    let segments = (0..10)
        .map(|index| ReplaySegment {
            index,
            path: segment_file_name(index),
            modified: base.plus(Duration::from_secs((index + 1) * 5)),
        })
        .collect::<Vec<_>>();

    let selected = match select_segments_around_event(
        &segments,
        base.plus(Duration::from_secs(27)),
        base.plus(Duration::from_secs(27)),
        25,
        6,
        5,
    ) {
        EventSegmentSelection::Selected(selected) => selected,
        other => panic!("expected selected segments, got {other:?}"),
    };

    assert_eq!(
        selected
            .iter()
            .map(|segment| segment.index)
            .collect::<Vec<_>>(),
        vec![2, 3, 4, 5, 6]
    );
}

#[test]
fn returns_none_when_event_is_not_covered_by_buffer() {
    let base = SystemTime::unix_epoch().plus(Duration::from_secs(100));
    let segments = (0..5)
        .map(|index| ReplaySegment {
            index,
            path: segment_file_name(index),
            modified: base.plus(Duration::from_secs((index + 1) * 5)),
        })
        .collect::<Vec<_>>();

    let selected = select_segments_around_event(
        &segments,
        base.plus(Duration::from_secs(60)),
        base.plus(Duration::from_secs(60)),
        25,
        6,
        5,
    );

    assert!(matches!(
        selected,
        EventSegmentSelection::NotReadyYet { .. }
    ));
}

#[test]
fn returns_not_ready_when_post_event_end_is_not_stable_yet() {
    let base = SystemTime::unix_epoch().plus(Duration::from_secs(100));
    let segments = (0..5)
        .map(|index| ReplaySegment {
            index,
            path: segment_file_name(index),
            modified: base.plus(Duration::from_secs((index + 1) * 5)),
        })
        .collect::<Vec<_>>();

    let selected = select_segments_around_event(
        &segments,
        base.plus(Duration::from_secs(20)),
        base.plus(Duration::from_secs(20)),
        25,
        10,
        5,
    );

    assert!(matches!(
        selected,
        EventSegmentSelection::NotReadyYet { .. }
    ));
}

#[test]
fn returns_too_old_when_required_start_left_buffer() {
    let base = SystemTime::unix_epoch().plus(Duration::from_secs(100));
    let segments = (10..15)
        .map(|index| ReplaySegment {
            index,
            path: segment_file_name(index),
            modified: base.plus(Duration::from_secs((index + 1) * 5)),
        })
        .collect::<Vec<_>>();

    let selected = select_segments_around_event(
        &segments,
        base.plus(Duration::from_secs(20)),
        base.plus(Duration::from_secs(20)),
        25,
        5,
        5,
    );

    assert!(matches!(selected, EventSegmentSelection::TooOld { .. }));
}

#[test]
fn selects_exactly_five_segments_for_twenty_five_second_clip() {
    let base = SystemTime::unix_epoch().plus(Duration::from_secs(100));
    let segments = (0..8)
        .map(|index| ReplaySegment {
            index,
            path: segment_file_name(index),
            modified: base.plus(Duration::from_secs((index + 1) * 5)),
        })
        .collect::<Vec<_>>();

    let selected = match select_segments_around_event(
        &segments,
        base.plus(Duration::from_secs(20)),
        base.plus(Duration::from_secs(20)),
        25,
        5,
        5,
    ) {
        EventSegmentSelection::Selected(selected) => selected,
        other => panic!("expected selected segments, got {other:?}"),
    };

    assert_eq!(selected.len(), 5);
    assert_eq!(
        selected
            .iter()
            .map(|segment| segment.index)
            .collect::<Vec<_>>(),
        vec![0, 1, 2, 3, 4]
    );
}

#[test]
fn multi_kill_selection_can_exceed_single_clip_duration() {
    let base = SystemTime::unix_epoch().plus(Duration::from_secs(1000));
    let segments = (0..10)
        .map(|index| ReplaySegment {
            index,
            path: segment_file_name(index),
            modified: base.plus(Duration::from_secs((index + 1) * 5)),
        })
        .collect::<Vec<_>>();

    let selected = match select_segments_around_event(
        &segments,
        base.plus(Duration::from_secs(25)),
        base.plus(Duration::from_secs(35)),
        25,
        5,
        5,
    ) {
        EventSegmentSelection::Selected(selected) => selected,
        other => panic!("expected long multi-kill selection, got {other:?}"),
    };

    assert_eq!(selected.len(), 7);
    assert_eq!(
        selected
            .iter()
            .map(|segment| segment.index)
            .collect::<Vec<_>>(),
        vec![1, 2, 3, 4, 5, 6, 7]
    );
}

#[test]
fn selects_wrapped_splitmux_segments_by_modified_time_case_one() {
    let segments = vec![
        segment_at(0, 2039, 469),
        segment_at(1, 2044, 464),
        segment_at(2, 2049, 467),
        segment_at(3, 2054, 469),
        segment_at(5, 2029, 466),
    ];
    let event_time =
        SystemTime::unix_epoch().plus(Duration::from_secs(2044)).plus(Duration::from_millis(749));

    let selected =
        match select_segments_around_event(&segments, event_time, event_time, 25, 5, 5) {
            EventSegmentSelection::Selected(selected) => selected,
            other => panic!("expected wrapped segments to be selectable, got {other:?}"),
        };

    assert_eq!(
        selected
            .iter()
            .map(|segment| segment.index)
            .collect::<Vec<_>>(),
        vec![5, 0, 1, 2, 3]
    );
}

#[test]
fn selects_wrapped_splitmux_segments_by_modified_time_case_two() {
    let segments = vec![
        segment_at(0, 2074, 462),
        segment_at(1, 2079, 474),
        segment_at(2, 2084, 464),
        segment_at(4, 2059, 461),
        segment_at(5, 2064, 468),
    ];
    let event_time =
        SystemTime::unix_epoch().plus(Duration::from_secs(2076)).plus(Duration::from_millis(850));

    let selected =
        match select_segments_around_event(&segments, event_time, event_time, 25, 5, 5) {
            EventSegmentSelection::Selected(selected) => selected,
            other => panic!("expected wrapped segments to be selectable, got {other:?}"),
        };

    assert_eq!(
        selected
            .iter()
            .map(|segment| segment.index)
            .collect::<Vec<_>>(),
        vec![4, 5, 0, 1, 2]
    );
}

#[test]
fn prunes_old_segments() {
    let files: Vec<SegmentFile> = (0..4).map(|index| file(index, 100 * index)).collect();

    let removed = prune_old_segments(&files, 2);

    assert_eq!(indexes(&removed), vec![0, 1]);
    assert_eq!(indexes(&list_segments(&files)), vec![0, 1, 2, 3]);
    let kept: Vec<SegmentFile> = (2..4).map(|index| file(index, 100 * index)).collect();
    assert_eq!(indexes(&list_segments(&kept)), vec![2, 3]);
}

#[test]
fn stable_snapshot_excludes_newest_segment() {
    let files: Vec<SegmentFile> = (0..4).map(|index| file(index, index)).collect();
    let now = SystemTime::unix_epoch().plus(Duration::from_millis(1_603));

    let snapshot = snapshot_stable_segments(&files, 10, 2, now);

    assert_eq!(snapshot.found_count, 4);
    assert_eq!(snapshot.excluded_newest.unwrap().index, 3);
    assert_eq!(indexes(&snapshot.selected), vec![0, 1, 2]);
}

#[test]
fn stable_snapshot_excludes_too_recent_segments() {
    let files: Vec<SegmentFile> = (0..3).map(|index| file(index, index)).collect();
    let now = SystemTime::unix_epoch().plus(Duration::from_millis(4));

    let snapshot = snapshot_stable_segments(&files, 10, 2, now);

    assert!(snapshot.selected.is_empty());
}

#[test]
fn stable_snapshot_keeps_selected_segments_sorted() {
    let mut files = Vec::new();
    let mut written = 0;
    for index in [3, 1, 4, 0, 2] {
        files.push(file(index, written));
        written += 1;
    }
    let now = SystemTime::unix_epoch().plus(Duration::from_millis(1_605));

    let snapshot = snapshot_stable_segments(&files, 3, 2, now);

    assert_eq!(snapshot.selected.len(), 3);
    assert!(snapshot.selected.windows(2).all(|window| {
        (window[0].modified.nanos, window[0].index) <= (window[1].modified.nanos, window[1].index)
    }));
    assert_eq!(indexes(&snapshot.selected), vec![1, 4, 0]);
}

#[test]
fn wait_until_segment_stable_accepts_unchanged_file() {
    let mut state = Stability::new();
    assert!(matches!(
        wait_until_segment_stable(&mut state, 7, false),
        StabilityStep::Wait
    ));
    assert!(matches!(
        wait_until_segment_stable(&mut state, 7, false),
        StabilityStep::Wait
    ));
    assert!(matches!(
        wait_until_segment_stable(&mut state, 7, false),
        StabilityStep::Wait
    ));
    assert!(matches!(
        wait_until_segment_stable(&mut state, 7, false),
        StabilityStep::Stable
    ));
}

#[test]
fn what_is_no_segment_is_not_listed() {
    let mut empty = file(1, 5);
    empty.len = 0;
    let mut directory = file(2, 5);
    directory.is_file = false;
    let mut other = file(3, 5);
    other.path = "/s/notes.txt".to_owned();
    assert!(list_segments(&vec![empty, directory, other]).is_empty());
    assert_eq!(parse_segment_index("/s/segment-000012.webm"), Some(12));
    assert_eq!(parse_segment_index("/s/segment-x.webm"), None);
    assert_eq!(segment_location_pattern("/s"), "/s/segment-%06d.webm");
}

#[test]
fn too_few_segments_are_counted() {
    let segments = vec![segment_at(0, 100, 0)];
    let event = SystemTime::unix_epoch().plus(Duration::from_secs(99));
    assert!(matches!(
        select_segments_around_event(&segments, event, event, 25, 1, 5),
        EventSegmentSelection::NotEnoughSegments { available: 1, .. }
            | EventSegmentSelection::TooOld { .. }
    ));
}
