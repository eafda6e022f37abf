use daw::cli::{default_project_name, parse_switch, project_name_from_file_name};
use daw::commands::ProjectIoError;
use daw::ids::StableId;
use daw::media::{import_media, MediaIndex, WaveformPeak, WaveformSummary};
use daw::model::{Clip, MediaReference, Project, Track, ValidationError};
use daw::render::{clip_placement, plan_project_render, render_length, Placement};
use daw::timeline::{clip_waveform, metronome_bars_for};

fn clip(id: &str, media: &str, start: u64, duration: u64) -> Clip {
    Clip {
        id: StableId::from_string(id.to_owned()),
        media_id: StableId::from_string(media.to_owned()),
        start_sample: start,
        duration_samples: duration,
    }
}

fn media(id: &str, hash: Option<&str>) -> MediaReference {
    MediaReference {
        id: StableId::from_string(id.to_owned()),
        content_hash: hash.map(str::to_owned),
        original_path: None,
    }
}

fn track(name: &str, clips: Vec<Clip>, muted: bool, solo: bool) -> Track {
    let mut t = Track::new(name);
    t.clips = clips;
    t.muted = muted;
    t.solo = solo;
    t
}

#[test]
fn places_clips_relative_to_render_start() {
    assert_eq!(
        clip_placement(&clip("a", "m", 1_000, 500), 0),
        Ok(Placement { source_start: 0, destination_start: 1_000, frames: 500, clip_offset: 0 })
    );
    assert_eq!(
        clip_placement(&clip("a", "m", 1_000, 500), 1_200),
        Ok(Placement { source_start: 200, destination_start: 0, frames: 300, clip_offset: 200 })
    );
}

#[test]
fn render_length_covers_clips_after_start() {
    let mut project = Project::new("Render");
    project.tracks.push(track("A", vec![clip("a", "m", 0, 100), clip("b", "m", 500, 100)], true, false));
    assert_eq!(render_length(&project, 10, 0).unwrap(), 600);
    assert_eq!(render_length(&project, 10, 550).unwrap(), 50);
    assert_eq!(render_length(&project, 1_000, 0).unwrap(), 1_000);
    assert_eq!(render_length(&project, 10, 700).unwrap(), 10);
}

#[test]
fn plans_audible_clips_in_order() {
    let mut index = MediaIndex::new();
    let kick = import_media(&mut index, "/k.wav", b"kick");
    let snare = import_media(&mut index, "/s.wav", b"snare");
    let objects = index.objects.clone();
    let mut project = Project::new("Render");
    project.media.push(media("k", Some(&kick.hash)));
    project.media.push(media("s", Some(&snare.hash)));
    project.tracks.push(track("Kick", vec![clip("c1", "k", 0, 10), clip("c2", "k", 20, 10)], false, false));
    project.tracks.push(track("Snare", vec![clip("c3", "s", 5, 10)], true, false));

    let plan = plan_project_render(&project, &objects, 1, 0).expect("plan");
    assert_eq!(plan.total_frames, 30);
    assert_eq!(plan.failure, None);
    assert_eq!(plan.clips.len(), 2);
    assert!(plan.clips.iter().all(|c| c.track_index == 0));
    assert_eq!(objects[plan.clips[0].object_index].hash, kick.hash);
    assert_eq!(plan.clips[1].placement, Ok(Placement { source_start: 0, destination_start: 20, frames: 10, clip_offset: 0 }));

    project.tracks[1].muted = false;
    project.tracks[1].solo = true;
    let soloed = plan_project_render(&project, &objects, 1, 0).expect("plan");
    assert_eq!(soloed.clips.len(), 1);
    assert_eq!(soloed.clips[0].track_index, 1);
    assert_eq!(objects[soloed.clips[0].object_index].hash, snare.hash);
}

#[test]
fn plan_stops_at_unresolvable_media() {
    let mut project = Project::new("Render");
    project.media.push(media("bare", None));
    project.media.push(media("gone", Some("feed")));
    project.tracks.push(track("A", vec![clip("c1", "bare", 0, 10)], false, false));
    let plan = plan_project_render(&project, &Vec::new(), 1, 0).expect("plan");
    assert!(plan.clips.is_empty());
    assert_eq!(plan.failure, Some("media bare has no content hash".to_owned()));
    project.tracks[0].clips = vec![clip("c2", "gone", 0, 10)];
    let plan = plan_project_render(&project, &Vec::new(), 1, 0).expect("plan");
    assert_eq!(plan.failure, Some("media hash feed is not imported".to_owned()));
    project.tracks[0].clips = vec![clip("c3", "nope", 0, 10)];
    let plan = plan_project_render(&project, &Vec::new(), 1, 0).expect("plan");
    assert_eq!(plan.failure, Some("clip c3 references unknown media nope".to_owned()));
}

#[test]
fn finds_clip_waveforms_and_metronome_bars() {
    let mut project = Project::new("Wave");
    project.media.push(media("m", Some("h2")));
    let waveforms = vec![
        WaveformSummary { hash: "h1".to_owned(), sample_rate: 1, channels: 1, frames_per_peak: 1, peaks: vec![] },
        WaveformSummary {
            hash: "h2".to_owned(),
            sample_rate: 1,
            channels: 1,
            frames_per_peak: 1,
            peaks: vec![WaveformPeak { min: -1, max: 1 }],
        },
    ];
    assert_eq!(clip_waveform(&project, &waveforms, &clip("c", "m", 0, 1)).map(|w| w.hash.as_str()), Some("h2"));
    assert!(clip_waveform(&project, &waveforms, &clip("c", "x", 0, 1)).is_none());
    assert_eq!(metronome_bars_for(0, 120), Ok(1));
    assert_eq!(metronome_bars_for(96_000, 120), Ok(1));
    assert_eq!(metronome_bars_for(96_001, 120), Ok(2));
    assert_eq!(metronome_bars_for(48_000 * 60, 60), Ok(15));
}

#[test]
fn reads_switches_and_default_names() {
    for yes in ["true", "yes", "1", "on"] {
        assert_eq!(parse_switch(yes), Some(true));
    }
    for no in ["false", "no", "0", "off"] {
        assert_eq!(parse_switch(no), Some(false));
    }
    assert_eq!(parse_switch("TRUE"), None);
    assert_eq!(default_project_name("/tmp/my-session"), "my-session");
    assert_eq!(default_project_name("/"), "Untitled");
    assert_eq!(default_project_name(""), "Untitled");
}

#[test]
fn formats_project_errors() {
    let invalid = ProjectIoError::Invalid(vec![
        ValidationError::new("a".to_owned()),
        ValidationError::new("b".to_owned()),
    ]);
    assert_eq!(invalid.message(), "project validation failed\n- a\n- b");
    let conflict = ProjectIoError::Conflict(vec!["Drums".to_owned()]);
    assert_eq!(conflict.message(), "merge conflicts\n- Drums");
    assert_eq!(ProjectIoError::Io("disk".to_owned()).message(), "disk");
}

#[test]
fn names_projects_after_their_directory() {
    assert_eq!(project_name_from_file_name(Some("session".to_owned())), "session");
    assert_eq!(project_name_from_file_name(Some(String::new())), "Untitled");
    assert_eq!(project_name_from_file_name(None), "Untitled");
}
