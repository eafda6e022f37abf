use daw::commands::{ProjectCommand, ProjectIoError};
use daw::history::{diff, history, list_branches, merge_branch};
use daw::ids::StableId;
use daw::commands::validate_project_state;
use daw::model::{Project, Track, DEFAULT_TEMPO_BPM, PROJECT_SCHEMA_VERSION};
use daw::paths::{
    active_branch_path, branch_dir_path, command_log_path, media_objects_path, project_file_path,
    snapshot_dir_path, waveform_cache_path,
};
use daw::store::{
    add_clip, add_media_reference, add_track, checkout_snapshot, create_branch, create_snapshot,
    init_project, remove_clip, remove_track, replay_project, set_clip_placement,
    set_project_tempo, set_track_controls, switch_branch, ProjectStore,
};

fn new_store(name: &str) -> (ProjectStore, Project) {
    let store = init_project(name).expect("init project");
    let base = store.project.clone();
    (store, base)
}

fn replay(store: &ProjectStore, base: &Project) -> Project {
    replay_project(base.clone(), &store.log, &store.snapshots).expect("replay project")
}

fn track(id: &StableId, name: &str) -> Track {
    Track {
        id: id.clone(),
        name: name.to_owned(),
        volume_percent: 100,
        muted: false,
        solo: false,
        clips: Vec::new(),
    }
}

#[test]
fn lib_exposes_package_version() {
    assert!(!daw::VERSION.is_empty());
}

#[test]
fn rejects_duplicate_track_ids() {
    let duplicate_id = StableId::from_string("same-id".to_owned());
    let project = Project {
        schema_version: PROJECT_SCHEMA_VERSION,
        id: StableId::from_string("project-id".to_owned()),
        name: "Session".to_owned(),
        tempo_bpm: 120,
        tracks: vec![track(&duplicate_id, "A"), track(&duplicate_id, "B")],
        media: Vec::new(),
    };

    let errors = project.validate();

    assert_eq!(errors.len(), 1);
    assert_eq!(errors[0].message(), "track IDs must be unique");
}

#[test]
fn new_project_is_valid_and_empty() {
    let project = Project::new("Session");
    assert_eq!(project.schema_version, PROJECT_SCHEMA_VERSION);
    assert_eq!(project.name, "Session");
    assert!(project.tracks.is_empty());
    assert!(project.validate().is_empty());
}

#[test]
fn rejects_unsupported_schema_and_blank_name() {
    let mut project = Project::new("  ");
    project.schema_version = 999;
    let messages: Vec<String> = project.validate().iter().map(|e| e.message().to_owned()).collect();
    assert_eq!(
        messages,
        vec!["unsupported schema_version 999; expected 1".to_owned(), "project name must not be empty".to_owned()]
    );
}

#[test]
fn rejects_clip_with_unknown_media_and_loud_track() {
    let mut project = Project::new("Session");
    let mut t = track(&StableId::from_string("t".to_owned()), "Drums");
    t.volume_percent = 201;
    t.clips.push(daw::model::Clip {
        id: StableId::from_string("c".to_owned()),
        media_id: StableId::from_string("missing".to_owned()),
        start_sample: 0,
        duration_samples: 0,
    });
    project.tracks.push(t);
    let messages: Vec<String> = project.validate().iter().map(|e| e.message().to_owned()).collect();
    assert_eq!(
        messages,
        vec![
            "track t volume_percent must be between 0 and 200".to_owned(),
            "clip c duration_samples must be greater than zero".to_owned(),
            "clip c references unknown media missing".to_owned(),
        ]
    );
}

#[test]
fn init_project_starts_on_main_branch() {
    let (store, base) = new_store("Layout");
    assert_eq!(store.project.name, "Layout");
    assert_eq!(store.active_branch, "main");
    assert!(store.log.is_empty());
    assert_eq!(store.branches.len(), 1);
    assert_eq!(store.branches[0].name, "main");
    assert_eq!(replay(&store, &base), store.project);
}

#[test]
fn init_project_rejects_blank_name() {
    assert!(matches!(init_project("   "), Err(ProjectIoError::Invalid(_))));
}

#[test]
fn adds_track_through_command_log() {
    let (mut store, base) = new_store("Command Log");

    let track = add_track(&mut store, "Bass").expect("add track");
    let replayed = replay(&store, &base);

    assert_eq!(store.project.tracks, vec![track]);
    assert_eq!(replayed, store.project);
    assert_eq!(store.log.len(), 1);
}

#[test]
fn creates_and_checks_out_snapshot() {
    let (mut store, base) = new_store("Snapshots");
    add_track(&mut store, "Original").expect("add original track");
    let snapshot = create_snapshot(&mut store, "before edits");
    add_track(&mut store, "Later").expect("add later track");

    let restored = checkout_snapshot(&mut store, &snapshot.id).expect("checkout snapshot");

    assert_eq!(restored.tracks.len(), 1);
    assert_eq!(restored.tracks[0].name, "Original");
    assert_eq!(store.project, restored);
    assert_eq!(replay(&store, &base), restored);
}

#[test]
fn checkout_of_unknown_snapshot_changes_nothing() {
    let (mut store, _base) = new_store("Snapshots");
    add_track(&mut store, "Original").expect("add track");
    let before = store.project.clone();
    let missing = StableId::from_string("nope".to_owned());
    let result = checkout_snapshot(&mut store, &missing);
    match result {
        Err(ProjectIoError::Io(message)) => assert_eq!(message, "snapshot nope not found"),
        other => panic!("unexpected result: {other:?}"),
    }
    assert_eq!(store.project, before);
    assert_eq!(store.log.len(), 1);
}

#[test]
fn adds_media_reference_and_clip_through_command_log() {
    let (mut store, base) = new_store("Clips");
    let track = add_track(&mut store, "Audio").expect("add track");
    let media = add_media_reference(&mut store, "abc123", Some("/tmp/source.wav".to_owned()))
        .expect("add media");

    let clip = add_clip(&mut store, &track.id, &media.id, 48_000, 24_000).expect("add clip");

    assert_eq!(store.project.media, vec![media]);
    assert_eq!(store.project.tracks[0].clips, vec![clip]);
    assert_eq!(replay(&store, &base), store.project);
}

#[test]
fn sets_track_controls_through_command_log() {
    let (mut store, base) = new_store("Mixer");
    let track = add_track(&mut store, "Lead").expect("add track");

    let updated = set_track_controls(&mut store, &track.id, 75, true, false).expect("set controls");

    assert_eq!(updated.volume_percent, 75);
    assert!(updated.muted);
    assert!(!updated.solo);
    assert_eq!(store.project.tracks[0], updated);
    assert_eq!(replay(&store, &base), store.project);
}

#[test]
fn refuses_track_volume_above_limit() {
    let (mut store, _base) = new_store("Mixer");
    let track = add_track(&mut store, "Lead").expect("add track");
    let before = store.project.clone();

    let result = set_track_controls(&mut store, &track.id, 201, false, false);

    assert!(matches!(result, Err(ProjectIoError::Invalid(_))));
    assert_eq!(store.project, before);
    assert_eq!(store.log.len(), 1);
}

#[test]
fn edits_and_removes_clips_through_command_log() {
    let (mut store, base) = new_store("Clip Edits");
    let track = add_track(&mut store, "Audio").expect("add track");
    let media = add_media_reference(&mut store, "abc123", Some("/tmp/source.wav".to_owned()))
        .expect("add media");
    let first_clip = add_clip(&mut store, &track.id, &media.id, 48_000, 24_000).expect("add first clip");
    let second_clip =
        add_clip(&mut store, &track.id, &media.id, 96_000, 12_000).expect("add second clip");

    let edited = set_clip_placement(&mut store, &second_clip.id, 12_000, 36_000).expect("edit clip");
    let removed = remove_clip(&mut store, &first_clip.id).expect("remove clip");

    assert_eq!(edited.start_sample, 12_000);
    assert_eq!(edited.duration_samples, 36_000);
    assert_eq!(removed, first_clip);
    assert_eq!(store.project.tracks[0].clips, vec![edited]);
    assert_eq!(store.project.media, vec![media]);
    assert_eq!(replay(&store, &base), store.project);
}

#[test]
fn keeps_clips_sorted_by_start() {
    let (mut store, _base) = new_store("Order");
    let track = add_track(&mut store, "Audio").expect("add track");
    let media = add_media_reference(&mut store, "abc123", None).expect("add media");
    let late = add_clip(&mut store, &track.id, &media.id, 96_000, 10).expect("late");
    let early = add_clip(&mut store, &track.id, &media.id, 0, 10).expect("early");
    let middle = add_clip(&mut store, &track.id, &media.id, 48_000, 10).expect("middle");
    assert_eq!(store.project.tracks[0].clips, vec![early, middle, late]);
}

#[test]
fn removes_unused_media_when_last_clip_is_removed() {
    let (mut store, base) = new_store("Clip Media Prune");
    let track = add_track(&mut store, "Audio").expect("add track");
    let media = add_media_reference(&mut store, "abc123", Some("/tmp/source.wav".to_owned()))
        .expect("add media");
    let clip = add_clip(&mut store, &track.id, &media.id, 0, 24_000).expect("add clip");

    remove_clip(&mut store, &clip.id).expect("remove clip");

    assert!(store.project.tracks[0].clips.is_empty());
    assert!(store.project.media.is_empty());
    assert_eq!(replay(&store, &base), store.project);
}

#[test]
fn removes_track_and_prunes_its_media() {
    let (mut store, base) = new_store("Track Remove");
    let first = add_track(&mut store, "First").expect("add first track");
    let second = add_track(&mut store, "Second").expect("add second track");
    let first_media = add_media_reference(&mut store, "abc123", Some("/tmp/first.wav".to_owned()))
        .expect("add first media");
    let second_media = add_media_reference(&mut store, "def456", Some("/tmp/second.wav".to_owned()))
        .expect("add second media");
    add_clip(&mut store, &first.id, &first_media.id, 0, 24_000).expect("add first clip");
    let second_clip = add_clip(&mut store, &second.id, &second_media.id, 48_000, 12_000)
        .expect("add second clip");

    let removed = remove_track(&mut store, &first.id).expect("remove track");

    assert_eq!(removed.id, first.id);
    assert_eq!(removed.name, first.name);
    assert_eq!(removed.clips.len(), 1);
    assert_eq!(store.project.tracks, vec![Track { clips: vec![second_clip], ..second }]);
    assert_eq!(store.project.media, vec![second_media]);
    assert_eq!(replay(&store, &base), store.project);
}

#[test]
fn refuses_clip_on_unknown_track() {
    let (mut store, _base) = new_store("Unknown");
    let media = add_media_reference(&mut store, "abc123", None).expect("add media");
    let missing = StableId::from_string("ghost".to_owned());
    match add_clip(&mut store, &missing, &media.id, 0, 10) {
        Err(ProjectIoError::Invalid(errors)) => {
            assert_eq!(errors[0].message(), "unknown track id ghost");
        }
        other => panic!("unexpected result: {other:?}"),
    }
}

#[test]
fn creates_and_switches_branches() {
    let (mut store, _base) = new_store("Branches");
    add_track(&mut store, "Drums").expect("add drums");
    create_branch(&mut store, "chorus").expect("create branch");
    add_track(&mut store, "Bass").expect("add bass");

    switch_branch(&mut store, "chorus").expect("switch branch");
    let branches = list_branches(&store);

    assert_eq!(store.project.tracks.len(), 1);
    assert_eq!(store.project.tracks[0].name, "Drums");
    assert_eq!(branches, vec!["chorus".to_owned(), "main".to_owned()]);
}

#[test]
fn rejects_bad_branch_names() {
    let (mut store, _base) = new_store("Branches");
    assert!(create_branch(&mut store, "").is_err());
    assert!(create_branch(&mut store, "a/b").is_err());
    assert!(switch_branch(&mut store, "nowhere").is_err());
    assert_eq!(list_branches(&store), vec!["main".to_owned()]);
}

#[test]
fn diffs_and_merges_non_conflicting_branch_tracks() {
    let (mut store, _base) = new_store("Merge");
    add_track(&mut store, "Drums").expect("add drums");
    create_branch(&mut store, "feature").expect("create branch");
    switch_branch(&mut store, "feature").expect("switch feature");
    add_track(&mut store, "Lead").expect("add lead");
    switch_branch(&mut store, "main").expect("switch main");
    add_track(&mut store, "Bass").expect("add bass");

    let diff = diff(&store, "current", "branch:feature").expect("diff branch");
    let report = merge_branch(&mut store, "feature").expect("merge branch");

    assert_eq!(diff.added_tracks, vec!["Lead".to_owned()]);
    assert_eq!(diff.removed_tracks, vec!["Bass".to_owned()]);
    assert_eq!(report.added_tracks, vec!["Lead".to_owned()]);
    assert_eq!(store.project.tracks.len(), 3);
}

#[test]
fn history_lists_commands_and_snapshots() {
    let (mut store, _base) = new_store("History");
    add_track(&mut store, "Drums").expect("add drums");
    create_snapshot(&mut store, "first");
    let items = history(&store);
    assert_eq!(items.len(), 2);
    assert!(items.iter().any(|item| item.summary == "snapshot 'first'"));
    assert!(items.iter().any(|item| item.summary.starts_with("add track")));
    for pair in items.windows(2) {
        assert!(pair[0].id.as_str() <= pair[1].id.as_str());
    }
}

#[test]
fn command_summary_names_the_edit() {
    let command = ProjectCommand::RemoveTrack { track_id: StableId::from_string("t1".to_owned()) };
    assert_eq!(command.summary(), "remove track t1");
}

#[test]
fn stable_ids_have_uuid_shape() {
    let id = StableId::from_seed(0x0123_4567_89ab_cdef_0123_4567_89ab_cdef);
    assert_eq!(id.as_str(), "01234567-89ab-cdef-0123-456789abcdef");
    let fresh = StableId::new();
    assert_eq!(fresh.as_str().len(), 36);
    assert_ne!(fresh, StableId::new());
}

#[test]
fn initializes_expected_project_layout() {
    let store = init_project("Layout").expect("init project");

    assert_eq!(store.project.name, "Layout");
    assert_eq!(project_file_path("/p"), "/p/project.daw.json");
    assert_eq!(command_log_path("/p"), "/p/history/commands.jsonl");
    assert_eq!(snapshot_dir_path("/p"), "/p/history/snapshots");
    assert_eq!(branch_dir_path("/p"), "/p/history/branches");
    assert_eq!(active_branch_path("/p"), "/p/history/active_branch.txt");
    assert_eq!(media_objects_path("/p"), "/p/media/objects");
    assert_eq!(waveform_cache_path("/p"), "/p/cache/waveforms");
    assert!(store.log.is_empty());
    assert_eq!(store.active_branch, "main");

    let loaded = validate_project_state(store.project.clone()).expect("load project");
    assert_eq!(loaded, store.project);
}

#[test]
fn load_rejects_invalid_project() {
    let project = Project {
        schema_version: 999,
        id: StableId::from_string("project-id".to_owned()),
        name: "Broken".to_owned(),
        tempo_bpm: 120,
        tracks: Vec::new(),
        media: Vec::new(),
    };

    let result = validate_project_state(project);

    assert!(matches!(result, Err(ProjectIoError::Invalid(_))));
}

#[test]
fn new_projects_default_to_120_bpm() {
    assert_eq!(DEFAULT_TEMPO_BPM, 120);
    assert_eq!(Project::new("Session").tempo_bpm, 120);
    assert_eq!(init_project("Session").expect("init project").project.tempo_bpm, 120);
}

#[test]
fn sets_project_tempo_through_command_log() {
    let (mut store, base) = new_store("Tempo");
    let project = set_project_tempo(&mut store, 96).expect("set tempo");
    assert_eq!(project.tempo_bpm, 96);
    assert_eq!(store.project.tempo_bpm, 96);
    assert_eq!(store.log.len(), 1);
    assert_eq!(store.log[0].command.summary(), "set project tempo 96 BPM");
    assert_eq!(replay(&store, &base).tempo_bpm, 96);
}

#[test]
fn rejects_unusable_tempo() {
    let (mut store, _) = new_store("Tempo");
    for tempo in [0u16, 19, 301] {
        let result = set_project_tempo(&mut store, tempo);
        match result {
            Err(ProjectIoError::Invalid(errors)) => {
                assert_eq!(errors.len(), 1);
                assert_eq!(errors[0].message(), "tempo_bpm must be between 20 and 300");
            }
            other => panic!("expected an invalid tempo, got {other:?}"),
        }
        assert_eq!(store.project.tempo_bpm, 120);
    }
    assert!(set_project_tempo(&mut store, 20).is_ok());
    assert!(set_project_tempo(&mut store, 300).is_ok());
}

#[test]
fn init_project_fails_only_for_blank_names() {
    assert!(init_project("Layout").is_ok());
    match init_project(" \t") {
        Err(ProjectIoError::Invalid(errors)) => {
            assert_eq!(errors.len(), 1);
            assert_eq!(errors[0].message(), "project name must not be empty");
        }
        Err(other) => panic!("expected a blank-name error, got {other:?}"),
        Ok(_) => panic!("a blank name was accepted"),
    }
}

#[test]
fn adding_the_same_media_twice_changes_nothing_more() {
    let (mut store, _) = new_store("Media Twice");
    add_media_reference(&mut store, "abc123", Some("/tmp/a.wav".to_owned())).expect("first add");
    let after_first = store.project.clone();
    add_media_reference(&mut store, "abc123", Some("/tmp/a.wav".to_owned())).expect("second add");
    assert_eq!(store.project, after_first);
}

#[test]
fn add_clip_checks_media_then_track_then_length() {
    let (mut store, _) = new_store("Clip Rules");
    let track = add_track(&mut store, "Drums").expect("add track");
    let media = add_media_reference(&mut store, "abc123", None).expect("add media");
    let ghost = StableId::from_string("ghost".to_owned());
    match add_clip(&mut store, &ghost, &ghost, 0, 10) {
        Err(ProjectIoError::Invalid(errors)) => assert_eq!(errors[0].message(), "unknown media id ghost"),
        other => panic!("expected unknown media, got {other:?}"),
    }
    let before = store.project.clone();
    assert!(matches!(add_clip(&mut store, &track.id, &media.id, 0, 0), Err(ProjectIoError::Invalid(_))));
    assert_eq!(store.project, before);
    let clip = add_clip(&mut store, &track.id, &media.id, 5, 10).expect("add clip");
    assert_eq!(store.project.tracks[0].clips, vec![clip]);
}
