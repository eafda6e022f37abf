use daw::ids::StableId;
use daw::media::{import_media, MediaIndex};
use daw::model::{Clip, MediaReference, Project, Track};
use daw::timeline::{
    clip_drag_step, timeline_grid, track_header_action, TrackHeaderAction, TrackHeaderInput, ClipDrag, ClipMoveRequest, DragEvent, SnapMode, TimelineGrid,
    apply_sample_delta, clip_media_label, first_project_clip, samples_per_beat, selected_clip,
    snap_grid_samples_from_ms, snap_sample, timeline_sample_span, MIN_TIMELINE_SAMPLES,
};

fn clip(id: &str, media: &str, start: u64, duration: u64) -> Clip {
    Clip {
        id: StableId::from_string(id.to_owned()),
        media_id: StableId::from_string(media.to_owned()),
        start_sample: start,
        duration_samples: duration,
    }
}

fn project_with(clips: Vec<Vec<Clip>>) -> Project {
    let mut project = Project::new("Timeline");
    for (i, cs) in clips.into_iter().enumerate() {
        let mut track = Track::new(&format!("T{i}"));
        track.clips = cs;
        project.tracks.push(track);
    }
    project
}

#[test]
fn converts_snap_grid_milliseconds_to_samples() {
    assert_eq!(snap_grid_samples_from_ms(250), 12_000);
    assert_eq!(snap_grid_samples_from_ms(1_000), 48_000);
}

#[test]
fn converts_tempo_to_beat_samples() {
    assert_eq!(samples_per_beat(120), 24_000);
    assert_eq!(samples_per_beat(96), 30_000);
    assert_eq!(samples_per_beat(60), 48_000);
}

#[test]
fn snaps_samples_to_nearest_grid_line() {
    assert_eq!(snap_sample(11_999, Some(12_000)), 12_000);
    assert_eq!(snap_sample(6_000, Some(12_000)), 12_000);
    assert_eq!(snap_sample(5_999, Some(12_000)), 0);
    assert_eq!(snap_sample(18_001, Some(12_000)), 24_000);
    assert_eq!(snap_sample(18_001, None), 18_001);
}

#[test]
fn snapping_edge_cases() {
    assert_eq!(snap_sample(7, Some(0)), 7);
    assert_eq!(snap_sample(24_000, Some(12_000)), 24_000);
    assert_eq!(snap_sample(u64::MAX, Some(10)), u64::MAX);
    assert_eq!(samples_per_beat(0), 2_880_000);
    assert_eq!(samples_per_beat(7), 411_429);
}

#[test]
fn moves_samples_with_saturation() {
    assert_eq!(apply_sample_delta(100, 50), 150);
    assert_eq!(apply_sample_delta(100, -150), 0);
    assert_eq!(apply_sample_delta(u64::MAX - 1, 5), u64::MAX);
    assert_eq!(apply_sample_delta(u64::MAX, i64::MIN), u64::MAX - 9_223_372_036_854_775_808);
}

#[test]
fn spans_clips_and_live_recording() {
    let empty = project_with(vec![]);
    assert_eq!(timeline_sample_span(&empty, None), MIN_TIMELINE_SAMPLES);
    let project = project_with(vec![vec![clip("a", "m", 100_000, 200_000)], vec![clip("b", "m", 10, 5)]]);
    assert_eq!(timeline_sample_span(&project, None), 300_000);
    assert_eq!(timeline_sample_span(&project, Some((250_000, 100_000))), 350_000);
    let huge = project_with(vec![vec![clip("c", "m", u64::MAX, 5)]]);
    assert_eq!(timeline_sample_span(&huge, None), u64::MAX);
}

#[test]
fn finds_first_and_selected_clips() {
    let project = project_with(vec![vec![], vec![clip("b", "m", 5, 5), clip("c", "m", 9, 1)]]);
    assert_eq!(first_project_clip(&project).map(|c| c.id.as_str().to_owned()), Some("b".to_owned()));
    assert!(first_project_clip(&project_with(vec![vec![]])).is_none());
    let wanted = StableId::from_string("c".to_owned());
    assert_eq!(selected_clip(&project, Some(&wanted)).map(|c| c.start_sample), Some(9));
    assert!(selected_clip(&project, None).is_none());
    let missing = StableId::from_string("z".to_owned());
    assert!(selected_clip(&project, Some(&missing)).is_none());
}

#[test]
fn labels_clip_media() {
    let mut index = MediaIndex::new();
    let object = import_media(&mut index, "/music/takes/kick.wav", b"kick");
    let mut project = project_with(vec![vec![clip("a", "linked", 0, 1)]]);
    project.media.push(MediaReference {
        id: StableId::from_string("linked".to_owned()),
        content_hash: Some(object.hash.clone()),
        original_path: None,
    });
    project.media.push(MediaReference {
        id: StableId::from_string("bare".to_owned()),
        content_hash: None,
        original_path: None,
    });
    project.media.push(MediaReference {
        id: StableId::from_string("gone".to_owned()),
        content_hash: Some("feed".to_owned()),
        original_path: None,
    });
    let objects = index.objects.clone();
    assert_eq!(clip_media_label(&project, &objects, &clip("a", "linked", 0, 1)), "kick.wav");
    assert_eq!(clip_media_label(&project, &objects, &clip("a", "bare", 0, 1)), "unlinked media");
    assert_eq!(clip_media_label(&project, &objects, &clip("a", "gone", 0, 1)), "audio clip");
    assert_eq!(clip_media_label(&project, &objects, &clip("a", "nope", 0, 1)), "missing media");
}

fn sid(s: &str) -> StableId {
    StableId::from_string(s.to_owned())
}

fn begin() -> DragEvent {
    DragEvent::Begin { clip_id: sid("c"), track_id: sid("t1"), start_sample: 48_000, duration_samples: 1_000 }
}

#[test]
fn clip_drag_starts_at_the_clip() {
    let (drag, request) = clip_drag_step(None, begin());
    assert_eq!(
        drag,
        Some(ClipDrag {
            clip_id: sid("c"),
            original_track_id: sid("t1"),
            current_track_id: sid("t1"),
            original_start_sample: 48_000,
            duration_samples: 1_000,
            current_start_sample: 48_000,
        })
    );
    assert_eq!(request, None);
}

#[test]
fn clip_drag_moves_snaps_and_commits() {
    let (drag, _) = clip_drag_step(None, begin());
    let update = DragEvent::Update { track_id: sid("t2"), delta_samples: 5_000, snap_grid_samples: Some(12_000) };
    let (drag, request) = clip_drag_step(drag, update);
    assert_eq!(request, None);
    let d = drag.as_ref().expect("drag continues");
    assert_eq!(d.current_start_sample, 48_000);
    assert_eq!(d.current_track_id, sid("t2"));
    let update = DragEvent::Update { track_id: sid("t1"), delta_samples: 7_000, snap_grid_samples: Some(12_000) };
    let (drag, _) = clip_drag_step(drag, update);
    assert_eq!(drag.as_ref().map(|d| d.current_start_sample), Some(60_000));
    let (drag, request) = clip_drag_step(drag, DragEvent::End);
    assert_eq!(drag, None);
    assert_eq!(
        request,
        Some(ClipMoveRequest { clip_id: sid("c"), track_id: sid("t1"), start_sample: 60_000, duration_samples: 1_000 })
    );
}

#[test]
fn clip_drag_without_change_commits_nothing() {
    let (drag, _) = clip_drag_step(None, begin());
    let update = DragEvent::Update { track_id: sid("t1"), delta_samples: -60_000, snap_grid_samples: None };
    let (drag, _) = clip_drag_step(drag, update);
    assert_eq!(drag.as_ref().map(|d| d.current_start_sample), Some(0));
    let update = DragEvent::Update { track_id: sid("t1"), delta_samples: 0, snap_grid_samples: None };
    let (drag, _) = clip_drag_step(drag, update);
    assert_eq!(clip_drag_step(drag, DragEvent::End), (None, None));
    let stray = DragEvent::Update { track_id: sid("t1"), delta_samples: 10, snap_grid_samples: None };
    assert_eq!(clip_drag_step(None, stray), (None, None));
    assert_eq!(clip_drag_step(None, DragEvent::End), (None, None));
}

#[test]
fn builds_time_and_beat_grids() {
    assert_eq!(timeline_grid(false, SnapMode::Beat, 250, 120, 4), TimelineGrid { snap: None, beat: None, bar: None });
    assert_eq!(timeline_grid(true, SnapMode::Time, 250, 120, 4), TimelineGrid { snap: Some(12_000), beat: None, bar: None });
    assert_eq!(
        timeline_grid(true, SnapMode::Beat, 250, 120, 4),
        TimelineGrid { snap: Some(6_000), beat: Some(24_000), bar: Some(96_000) }
    );
    assert_eq!(
        timeline_grid(true, SnapMode::Beat, 250, 120, 0),
        TimelineGrid { snap: Some(24_000), beat: Some(24_000), bar: Some(96_000) }
    );
}

fn idle(name: &str) -> TrackHeaderInput {
    TrackHeaderInput {
        name_edit: name.to_owned(),
        name_committed: false,
        arm_clicked: false,
        remove_clicked: false,
        volume_percent: 100,
        volume_changed: false,
        mute_clicked: false,
        solo_clicked: false,
    }
}

#[test]
fn track_header_picks_one_action() {
    let mut track = Track::new("Drums");
    track.id = sid("t");
    assert_eq!(track_header_action(&track, &idle("Drums")), None);

    let mut input = idle("  Drums ");
    input.name_committed = true;
    assert_eq!(track_header_action(&track, &input), None);
    input.name_edit = "Kit ".to_owned();
    input.arm_clicked = true;
    assert_eq!(
        track_header_action(&track, &input),
        Some(TrackHeaderAction::Rename { track_id: sid("t"), name: "Kit ".to_owned() })
    );

    let mut input = idle("Drums");
    input.arm_clicked = true;
    input.remove_clicked = true;
    assert_eq!(track_header_action(&track, &input), Some(TrackHeaderAction::Arm { track_id: sid("t") }));
    input.arm_clicked = false;
    assert_eq!(track_header_action(&track, &input), Some(TrackHeaderAction::Remove { track_id: sid("t") }));

    let mut input = idle("Drums");
    input.mute_clicked = true;
    input.volume_percent = 80;
    assert_eq!(
        track_header_action(&track, &input),
        Some(TrackHeaderAction::SetControls { track_id: sid("t"), volume_percent: 80, muted: true, solo: false })
    );
}
