//! Replayable project edits and the rules that apply them to a project.

use vstd::prelude::*;

use crate::ids::{push_id, StableId};
use crate::model::{
    clip_ok, has_duplicates, law_valid_exactly_when_rules_met, track_ids, track_ok,
    MAX_TRACK_VOLUME_PERCENT, clips_view, is_valid, media_has_id, media_list_has_id, media_view, messages_of, tracks_view,
    validation_messages, Clip, ClipView, MediaReference, MediaView, Project, ProjectView, Track,
    TrackView, ValidationError,
};
use crate::text::{is_blank, push_str, string_from_chars};

verus! {

/// A user edit that can be replayed to rebuild project state.
#[derive(Debug, PartialEq, Eq)]
pub enum ProjectCommand {
    /// Add a new timeline track.
    AddTrack { track: Track },
    /// Remove a timeline track and its clips.
    RemoveTrack { track_id: StableId },
    /// Add or update a media reference.
    AddMediaReference { media: MediaReference },
    /// Add a clip to an existing track.
    AddClip { track_id: StableId, clip: Clip },
    /// Move or resize an existing clip.
    SetClipPlacement { clip_id: StableId, start_sample: u64, duration_samples: u64 },
    /// Remove an existing clip from its track.
    RemoveClip { clip_id: StableId },
    /// Update mixer controls for an existing track.
    SetTrackControls { track_id: StableId, volume_percent: u16, muted: bool, solo: bool },
    /// Set the project tempo.
    SetProjectTempo { tempo_bpm: u16 },
    /// Replace current state with a stored snapshot.
    CheckoutSnapshot { snapshot_id: StableId },
}

pub enum CommandView {
    AddTrack { track: TrackView },
    RemoveTrack { track_id: Seq<char> },
    AddMediaReference { media: MediaView },
    AddClip { track_id: Seq<char>, clip: ClipView },
    SetClipPlacement { clip_id: Seq<char>, start_sample: u64, duration_samples: u64 },
    RemoveClip { clip_id: Seq<char> },
    SetTrackControls { track_id: Seq<char>, volume_percent: u16, muted: bool, solo: bool },
    SetProjectTempo { tempo_bpm: u16 },
    CheckoutSnapshot { snapshot_id: Seq<char> },
}

impl View for ProjectCommand {
    type V = CommandView;

    open spec fn view(&self) -> CommandView {
        match self {
            ProjectCommand::AddTrack { track } => CommandView::AddTrack { track: track@ },
            ProjectCommand::RemoveTrack { track_id } => CommandView::RemoveTrack {
                track_id: track_id@,
            },
            ProjectCommand::AddMediaReference { media } => CommandView::AddMediaReference {
                media: media@,
            },
            ProjectCommand::AddClip { track_id, clip } => CommandView::AddClip {
                track_id: track_id@,
                clip: clip@,
            },
            ProjectCommand::SetClipPlacement { clip_id, start_sample, duration_samples } =>
                CommandView::SetClipPlacement {
                clip_id: clip_id@,
                start_sample: *start_sample,
                duration_samples: *duration_samples,
            },
            ProjectCommand::RemoveClip { clip_id } => CommandView::RemoveClip {
                clip_id: clip_id@,
            },
            ProjectCommand::SetTrackControls { track_id, volume_percent, muted, solo } =>
                CommandView::SetTrackControls {
                track_id: track_id@,
                volume_percent: *volume_percent,
                muted: *muted,
                solo: *solo,
            },
            ProjectCommand::SetProjectTempo { tempo_bpm } => CommandView::SetProjectTempo {
                tempo_bpm: *tempo_bpm,
            },
            ProjectCommand::CheckoutSnapshot { snapshot_id } => CommandView::CheckoutSnapshot {
                snapshot_id: snapshot_id@,
            },
        }
    }
}

impl Clone for ProjectCommand {
    fn clone(&self) -> (r: Self)
        ensures
            r@ == self@,
    {
        match self {
            ProjectCommand::AddTrack { track } => ProjectCommand::AddTrack { track: track.clone() },
            ProjectCommand::RemoveTrack { track_id } => ProjectCommand::RemoveTrack {
                track_id: track_id.clone(),
            },
            ProjectCommand::AddMediaReference { media } => ProjectCommand::AddMediaReference {
                media: media.clone(),
            },
            ProjectCommand::AddClip { track_id, clip } => ProjectCommand::AddClip {
                track_id: track_id.clone(),
                clip: clip.clone(),
            },
            ProjectCommand::SetClipPlacement { clip_id, start_sample, duration_samples } =>
                ProjectCommand::SetClipPlacement {
                clip_id: clip_id.clone(),
                start_sample: *start_sample,
                duration_samples: *duration_samples,
            },
            ProjectCommand::RemoveClip { clip_id } => ProjectCommand::RemoveClip {
                clip_id: clip_id.clone(),
            },
            ProjectCommand::SetTrackControls { track_id, volume_percent, muted, solo } =>
                ProjectCommand::SetTrackControls {
                track_id: track_id.clone(),
                volume_percent: *volume_percent,
                muted: *muted,
                solo: *solo,
            },
            ProjectCommand::SetProjectTempo { tempo_bpm } => ProjectCommand::SetProjectTempo {
                tempo_bpm: *tempo_bpm,
            },
            ProjectCommand::CheckoutSnapshot { snapshot_id } => ProjectCommand::CheckoutSnapshot {
                snapshot_id: snapshot_id.clone(),
            },
        }
    }
}

/// Full project snapshot metadata.
#[derive(Debug, PartialEq, Eq)]
pub struct Snapshot {
    /// Stable snapshot identifier.
    pub id: StableId,
    /// Unix timestamp in milliseconds.
    pub timestamp_millis: u128,
    /// Human-readable snapshot message.
    pub message: String,
    /// Full project state captured by this snapshot.
    pub project: Project,
}

#[verifier::ext_equal]
pub struct SnapshotView {
    pub id: Seq<char>,
    pub timestamp_millis: u128,
    pub message: Seq<char>,
    pub project: ProjectView,
}

impl View for Snapshot {
    type V = SnapshotView;

    open spec fn view(&self) -> SnapshotView {
        SnapshotView {
            id: self.id@,
            timestamp_millis: self.timestamp_millis,
            message: self.message@,
            project: self.project@,
        }
    }
}

pub open spec fn snapshots_view(s: Seq<Snapshot>) -> Seq<SnapshotView> {
    s.map_values(|x: Snapshot| x@)
}

impl Clone for Snapshot {
    fn clone(&self) -> (r: Self)
        ensures
            r@ == self@,
    {
        Snapshot {
            id: self.id.clone(),
            timestamp_millis: self.timestamp_millis,
            message: self.message.clone(),
            project: self.project.clone(),
        }
    }
}

/// Error returned by project operations.
#[derive(Debug)]
pub enum ProjectIoError {
    /// Filesystem failure, with its message.
    Io(String),
    /// JSON serialization or parsing failure, with its message.
    Json(String),
    /// Project document failed validation.
    Invalid(Vec<ValidationError>),
    /// Merge cannot proceed without user conflict resolution.
    Conflict(Vec<String>),
}

pub enum ErrorView {
    Io(Seq<char>),
    Json(Seq<char>),
    Invalid(Seq<Seq<char>>),
    Conflict(Seq<Seq<char>>),
}

impl View for ProjectIoError {
    type V = ErrorView;

    open spec fn view(&self) -> ErrorView {
        match self {
            ProjectIoError::Io(m) => ErrorView::Io(m@),
            ProjectIoError::Json(m) => ErrorView::Json(m@),
            ProjectIoError::Invalid(errors) => ErrorView::Invalid(messages_of(errors@)),
            ProjectIoError::Conflict(names) => ErrorView::Conflict(
                names@.map_values(|n: String| n@),
            ),
        }
    }
}

/// Each item on a line of its own, after a heading.
pub open spec fn bulleted(heading: Seq<char>, items: Seq<Seq<char>>) -> Seq<char>
    decreases items.len(),
{
    if items.len() == 0 {
        heading
    } else {
        bulleted(heading, items.drop_last()) + "\n- "@ + items.last()
    }
}

/// The text of an error, as it is shown to the user.
pub open spec fn error_text(e: ErrorView) -> Seq<char> {
    match e {
        ErrorView::Io(m) => m,
        ErrorView::Json(m) => m,
        ErrorView::Invalid(ms) => bulleted("project validation failed"@, ms),
        ErrorView::Conflict(cs) => bulleted("merge conflicts"@, cs),
    }
}

fn push_bulleted(out: &mut Vec<char>, heading: &str, items: &Vec<String>)
    ensures
        final(out)@ == old(out)@ + bulleted(heading@, items@.map_values(|n: String| n@)),
{
    let ghost all = items@.map_values(|n: String| n@);
    let ghost start = out@;
    push_str(out, heading);
    let mut i: usize = 0;
    while i < items.len()
        invariant
            i <= items@.len(),
            all == items@.map_values(|n: String| n@),
            out@ == start + bulleted(heading@, all.subrange(0, i as int)),
        decreases items@.len() - i,
    {
        push_str(out, "\n- ");
        push_str(out, items[i].as_str());
        proof {
            let sub = all.subrange(0, i + 1);
            assert(sub.drop_last() =~= all.subrange(0, i as int));
            assert(sub.last() == items@[i as int]@);
            assert(out@ =~= start + bulleted(heading@, sub));
        }
        i = i + 1;
    }
    assert(all.subrange(0, i as int) =~= all);
}

impl ProjectIoError {
    /// The error's text.
    pub fn message(&self) -> (s: String)
        ensures
            s@ == error_text(self@),
    {
        match self {
            ProjectIoError::Io(m) => m.clone(),
            ProjectIoError::Json(m) => m.clone(),
            ProjectIoError::Invalid(errors) => {
                let mut texts: Vec<String> = Vec::new();
                let mut i: usize = 0;
                while i < errors.len()
                    invariant
                        i <= errors@.len(),
                        texts@.len() == i,
                        forall|j: int| 0 <= j < i ==> #[trigger] texts@[j]@ == errors@[j]@,
                    decreases errors@.len() - i,
                {
                    texts.push(errors[i].message().to_owned());
                    i = i + 1;
                }
                assert(texts@.map_values(|n: String| n@) =~= messages_of(errors@));
                let mut out: Vec<char> = Vec::new();
                push_bulleted(&mut out, "project validation failed", &texts);
                string_from_chars(&out)
            },
            ProjectIoError::Conflict(names) => {
                let mut out: Vec<char> = Vec::new();
                push_bulleted(&mut out, "merge conflicts", names);
                string_from_chars(&out)
            },
        }
    }
}

pub open spec fn project_result_view(r: Result<Project, ProjectIoError>) -> Result<
    ProjectView,
    ErrorView,
> {
    match r {
        Ok(p) => Ok(p@),
        Err(e) => Err(e@),
    }
}

// ---------------------------------------------------------------------------
// The rules, stated over views
// ---------------------------------------------------------------------------

/// The project itself when it is valid, otherwise its validation messages.
pub open spec fn checked(p: ProjectView) -> Result<ProjectView, ErrorView> {
    if is_valid(p) {
        Ok(p)
    } else {
        Err(ErrorView::Invalid(validation_messages(p)))
    }
}

pub open spec fn unknown_track(id: Seq<char>) -> ErrorView {
    ErrorView::Invalid(seq!["unknown track id "@ + id])
}

pub open spec fn unknown_clip(id: Seq<char>) -> ErrorView {
    ErrorView::Invalid(seq!["unknown clip id "@ + id])
}

pub open spec fn unknown_media(id: Seq<char>) -> ErrorView {
    ErrorView::Invalid(seq!["unknown media id "@ + id])
}

pub open spec fn missing_snapshot(id: Seq<char>) -> ErrorView {
    ErrorView::Io("snapshot "@ + id + " not found"@)
}

/// `k` is the first position of a track with this identifier.
pub open spec fn is_first_track(ts: Seq<TrackView>, id: Seq<char>, k: int) -> bool {
    &&& 0 <= k < ts.len()
    &&& ts[k].id == id
    &&& forall|j: int| 0 <= j < k ==> #[trigger] ts[j].id != id
}

pub open spec fn has_track(ts: Seq<TrackView>, id: Seq<char>) -> bool {
    exists|k: int| 0 <= k < ts.len() && #[trigger] ts[k].id == id
}

pub open spec fn first_track(ts: Seq<TrackView>, id: Seq<char>) -> int {
    choose|k: int| is_first_track(ts, id, k)
}

/// `k` is the first position of a media reference with this identifier.
pub open spec fn is_first_media(ms: Seq<MediaView>, id: Seq<char>, k: int) -> bool {
    &&& 0 <= k < ms.len()
    &&& ms[k].id == id
    &&& forall|j: int| 0 <= j < k ==> #[trigger] ms[j].id != id
}

pub open spec fn first_media(ms: Seq<MediaView>, id: Seq<char>) -> int {
    choose|k: int| is_first_media(ms, id, k)
}

/// `(t, c)` is the first clip with this identifier, tracks in order and clips in order.
pub open spec fn is_first_clip(ts: Seq<TrackView>, id: Seq<char>, t: int, c: int) -> bool {
    &&& 0 <= t < ts.len()
    &&& 0 <= c < ts[t].clips.len()
    &&& ts[t].clips[c].id == id
    &&& forall|u: int| 0 <= u < t ==> !track_has_clip(#[trigger] ts[u], id)
    &&& forall|d: int| 0 <= d < c ==> #[trigger] ts[t].clips[d].id != id
}

pub open spec fn track_has_clip(t: TrackView, id: Seq<char>) -> bool {
    exists|c: int| 0 <= c < t.clips.len() && #[trigger] t.clips[c].id == id
}

pub open spec fn has_clip(ts: Seq<TrackView>, id: Seq<char>) -> bool {
    exists|t: int| 0 <= t < ts.len() && track_has_clip(#[trigger] ts[t], id)
}

pub open spec fn first_clip(ts: Seq<TrackView>, id: Seq<char>) -> (int, int) {
    choose|t: int, c: int| is_first_clip(ts, id, t, c)
}

/// Stable insertion of a clip after every clip that starts no later than it.
pub open spec fn insert_by_start(s: Seq<ClipView>, c: ClipView) -> Seq<ClipView>
    decreases s.len(),
{
    if s.len() == 0 {
        seq![c]
    } else if s.last().start_sample <= c.start_sample {
        s.push(c)
    } else {
        insert_by_start(s.drop_last(), c).push(s.last())
    }
}

/// Stable sort of clips by timeline start.
pub open spec fn sort_by_start(s: Seq<ClipView>) -> Seq<ClipView>
    decreases s.len(),
{
    if s.len() == 0 {
        s
    } else {
        insert_by_start(sort_by_start(s.drop_last()), s.last())
    }
}

pub open spec fn with_clips(t: TrackView, clips: Seq<ClipView>) -> TrackView {
    TrackView { clips, ..t }
}

pub open spec fn with_tracks(p: ProjectView, tracks: Seq<TrackView>) -> ProjectView {
    ProjectView { tracks, ..p }
}

pub open spec fn with_media(p: ProjectView, media: Seq<MediaView>) -> ProjectView {
    ProjectView { media, ..p }
}

/// Every track with its clips sorted by start.
pub open spec fn sort_all_tracks(ts: Seq<TrackView>) -> Seq<TrackView> {
    ts.map_values(|t: TrackView| with_clips(t, sort_by_start(t.clips)))
}

/// True when some clip on some track references this media.
pub open spec fn media_in_use(ts: Seq<TrackView>, media_id: Seq<char>) -> bool {
    exists|t: int, c: int|
        0 <= t < ts.len() && 0 <= c < ts[t].clips.len() && #[trigger] ts[t].clips[c].media_id
            == media_id
}

/// Drop every media reference that no clip uses.
pub open spec fn prune_media(p: ProjectView) -> ProjectView {
    with_media(p, p.media.filter(|m: MediaView| media_in_use(p.tracks, m.id)))
}

/// Every track with the clips of this identifier removed.
pub open spec fn remove_clip_everywhere(ts: Seq<TrackView>, id: Seq<char>) -> Seq<TrackView> {
    ts.map_values(|t: TrackView| with_clips(t, t.clips.filter(|c: ClipView| c.id != id)))
}

/// `k` is the first snapshot with this identifier.
pub open spec fn is_first_snapshot(s: Seq<SnapshotView>, id: Seq<char>, k: int) -> bool {
    &&& 0 <= k < s.len()
    &&& s[k].id == id
    &&& forall|j: int| 0 <= j < k ==> #[trigger] s[j].id != id
}

pub open spec fn has_snapshot(s: Seq<SnapshotView>, id: Seq<char>) -> bool {
    exists|k: int| 0 <= k < s.len() && #[trigger] s[k].id == id
}

pub open spec fn first_snapshot(s: Seq<SnapshotView>, id: Seq<char>) -> int {
    choose|k: int| is_first_snapshot(s, id, k)
}

pub open spec fn remove_track_spec(p: ProjectView, track_id: Seq<char>) -> Result<ProjectView, ErrorView> {
    let kept = p.tracks.filter(|t: TrackView| t.id != track_id);
    if kept.len() == p.tracks.len() {
        Err(unknown_track(track_id))
    } else {
        checked(prune_media(with_tracks(p, kept)))
    }
}

pub open spec fn add_media_spec(p: ProjectView, media: MediaView) -> Result<ProjectView, ErrorView> {
    if media_has_id(p.media, media.id) {
        checked(with_media(p, p.media.update(first_media(p.media, media.id), media)))
    } else {
        checked(with_media(p, p.media.push(media)))
    }
}

pub open spec fn add_clip_spec(p: ProjectView, track_id: Seq<char>, clip: ClipView) -> Result<ProjectView, ErrorView> {
    if !media_has_id(p.media, clip.media_id) {
        Err(unknown_media(clip.media_id))
    } else if !has_track(p.tracks, track_id) {
        Err(unknown_track(track_id))
    } else {
        let k = first_track(p.tracks, track_id);
        let t = p.tracks[k];
        checked(with_tracks(p, p.tracks.update(k, with_clips(t, sort_by_start(t.clips.push(clip))))))
    }
}

pub open spec fn set_clip_placement_spec(
    p: ProjectView,
    clip_id: Seq<char>,
    start_sample: u64,
    duration_samples: u64,
) -> Result<ProjectView, ErrorView> {
    if !has_clip(p.tracks, clip_id) {
        Err(unknown_clip(clip_id))
    } else {
        let (t, c) = first_clip(p.tracks, clip_id);
        let old = p.tracks[t].clips[c];
        let moved = ClipView { start_sample, duration_samples, ..old };
        let placed = p.tracks.update(t, with_clips(p.tracks[t], p.tracks[t].clips.update(c, moved)));
        checked(with_tracks(p, sort_all_tracks(placed)))
    }
}

pub open spec fn remove_clip_spec(p: ProjectView, clip_id: Seq<char>) -> Result<ProjectView, ErrorView> {
    if !has_clip(p.tracks, clip_id) {
        Err(unknown_clip(clip_id))
    } else {
        checked(prune_media(with_tracks(p, remove_clip_everywhere(p.tracks, clip_id))))
    }
}

pub open spec fn set_track_controls_spec(
    p: ProjectView,
    track_id: Seq<char>,
    volume_percent: u16,
    muted: bool,
    solo: bool,
) -> Result<ProjectView, ErrorView> {
    if !has_track(p.tracks, track_id) {
        Err(unknown_track(track_id))
    } else {
        let k = first_track(p.tracks, track_id);
        let t = p.tracks[k];
        checked(with_tracks(p, p.tracks.update(k, TrackView { volume_percent, muted, solo, ..t })))
    }
}

pub open spec fn set_tempo_spec(p: ProjectView, tempo_bpm: u16) -> Result<ProjectView, ErrorView> {
    checked(ProjectView { tempo_bpm, ..p })
}

pub open spec fn checkout_spec(snaps: Seq<SnapshotView>, snapshot_id: Seq<char>) -> Result<ProjectView, ErrorView> {
    if has_snapshot(snaps, snapshot_id) {
        Ok(snaps[first_snapshot(snaps, snapshot_id)].project)
    } else {
        Err(missing_snapshot(snapshot_id))
    }
}

/// The result of applying one command to a project, given the stored snapshots.
#[verifier::opaque]
pub open spec fn apply_spec(p: ProjectView, cmd: CommandView, snaps: Seq<SnapshotView>) -> Result<
    ProjectView,
    ErrorView,
> {
    match cmd {
        CommandView::AddTrack { track } => checked(with_tracks(p, p.tracks.push(track))),
        CommandView::RemoveTrack { track_id } => remove_track_spec(p, track_id),
        CommandView::AddMediaReference { media } => add_media_spec(p, media),
        CommandView::AddClip { track_id, clip } => add_clip_spec(p, track_id, clip),
        CommandView::SetClipPlacement { clip_id, start_sample, duration_samples } =>
            set_clip_placement_spec(p, clip_id, start_sample, duration_samples),
        CommandView::RemoveClip { clip_id } => remove_clip_spec(p, clip_id),
        CommandView::SetTrackControls { track_id, volume_percent, muted, solo } =>
            set_track_controls_spec(p, track_id, volume_percent, muted, solo),
        CommandView::SetProjectTempo { tempo_bpm } => set_tempo_spec(p, tempo_bpm),
        CommandView::CheckoutSnapshot { snapshot_id } => checkout_spec(snaps, snapshot_id),
    }
}

// ---------------------------------------------------------------------------
// Executable rules
// ---------------------------------------------------------------------------

fn invalid_with(prefix: &str, id: &StableId) -> (e: ProjectIoError)
    ensures
        e@ == ErrorView::Invalid(seq![prefix@ + id@]),
{
    let mut m: Vec<char> = Vec::new();
    push_str(&mut m, prefix);
    push_id(&mut m, id);
    let mut errors: Vec<ValidationError> = Vec::new();
    errors.push(ValidationError::new(string_from_chars(&m)));
    assert(messages_of(errors@) =~= seq![prefix@ + id@]);
    ProjectIoError::Invalid(errors)
}

pub(crate) fn unknown_track_error(id: &StableId) -> (e: ProjectIoError)
    ensures
        e@ == unknown_track(id@),
{
    invalid_with("unknown track id ", id)
}

pub(crate) fn unknown_clip_error(id: &StableId) -> (e: ProjectIoError)
    ensures
        e@ == unknown_clip(id@),
{
    invalid_with("unknown clip id ", id)
}

pub(crate) fn unknown_media_error(id: &StableId) -> (e: ProjectIoError)
    ensures
        e@ == unknown_media(id@),
{
    invalid_with("unknown media id ", id)
}

/// The project when it validates, otherwise all its validation errors.
pub fn validate_project_state(project: Project) -> (r: Result<Project, ProjectIoError>)
    ensures
        project_result_view(r) == checked(project@),
{
    let errors = project.validate();
    if errors.len() == 0 {
        Ok(project)
    } else {
        Err(ProjectIoError::Invalid(errors))
    }
}

/// Position of the first track with this identifier.
pub fn find_track(tracks: &Vec<Track>, id: &StableId) -> (r: Option<usize>)
    ensures
        match r {
            Some(k) => is_first_track(tracks_view(tracks@), id@, k as int),
            None => !has_track(tracks_view(tracks@), id@),
        },
{
    let ghost tv = tracks_view(tracks@);
    let mut i: usize = 0;
    while i < tracks.len()
        invariant
            i <= tracks@.len(),
            tv == tracks_view(tracks@),
            forall|j: int| 0 <= j < i ==> #[trigger] tv[j].id != id@,
        decreases tracks@.len() - i,
    {
        if tracks[i].id.same(id) {
            return Some(i);
        }
        i = i + 1;
    }
    None
}

pub proof fn lemma_first_track_unique(ts: Seq<TrackView>, id: Seq<char>, k: int)
    requires
        is_first_track(ts, id, k),
    ensures
        has_track(ts, id),
        first_track(ts, id) == k,
{
    assert(ts[k].id == id);
    let k2 = first_track(ts, id);
    assert(is_first_track(ts, id, k2));
    if k2 < k {
        assert(ts[k2].id != id);
    }
    if k < k2 {
        assert(ts[k].id != id);
    }
}

/// Position of the first media reference with this identifier.
pub fn find_media(media: &Vec<MediaReference>, id: &StableId) -> (r: Option<usize>)
    ensures
        match r {
            Some(k) => is_first_media(media_view(media@), id@, k as int),
            None => !media_has_id(media_view(media@), id@),
        },
{
    let ghost mv = media_view(media@);
    let mut i: usize = 0;
    while i < media.len()
        invariant
            i <= media@.len(),
            mv == media_view(media@),
            forall|j: int| 0 <= j < i ==> #[trigger] mv[j].id != id@,
        decreases media@.len() - i,
    {
        if media[i].id.same(id) {
            return Some(i);
        }
        i = i + 1;
    }
    None
}

pub proof fn lemma_first_media_unique(ms: Seq<MediaView>, id: Seq<char>, k: int)
    requires
        is_first_media(ms, id, k),
    ensures
        media_has_id(ms, id),
        first_media(ms, id) == k,
{
    assert(ms[k].id == id);
    let k2 = first_media(ms, id);
    assert(is_first_media(ms, id, k2));
    if k2 < k {
        assert(ms[k2].id != id);
    }
    if k < k2 {
        assert(ms[k].id != id);
    }
}

/// Location (track, clip) of the first clip with this identifier.
pub fn find_clip(tracks: &Vec<Track>, id: &StableId) -> (r: Option<(usize, usize)>)
    ensures
        match r {
            Some((t, c)) => is_first_clip(tracks_view(tracks@), id@, t as int, c as int),
            None => !has_clip(tracks_view(tracks@), id@),
        },
{
    let ghost tv = tracks_view(tracks@);
    let mut t: usize = 0;
    while t < tracks.len()
        invariant
            t <= tracks@.len(),
            tv == tracks_view(tracks@),
            forall|u: int| 0 <= u < t ==> !track_has_clip(#[trigger] tv[u], id@),
        decreases tracks@.len() - t,
    {
        let clips = &tracks[t].clips;
        let ghost cv = tv[t as int].clips;
        assert(cv == clips_view(clips@));
        let mut c: usize = 0;
        while c < clips.len()
            invariant
                c <= clips@.len(),
                cv == clips_view(clips@),
                t < tracks@.len(),
                tv == tracks_view(tracks@),
                cv == tv[t as int].clips,
                forall|u: int| 0 <= u < t ==> !track_has_clip(#[trigger] tv[u], id@),
                forall|d: int| 0 <= d < c ==> #[trigger] cv[d].id != id@,
            decreases clips@.len() - c,
        {
            if clips[c].id.same(id) {
                return Some((t, c));
            }
            c = c + 1;
        }
        t = t + 1;
    }
    None
}

pub proof fn lemma_first_clip_unique(ts: Seq<TrackView>, id: Seq<char>, t: int, c: int)
    requires
        is_first_clip(ts, id, t, c),
    ensures
        has_clip(ts, id),
        first_clip(ts, id) == (t, c),
{
    assert(track_has_clip(ts[t], id));
    let (t2, c2) = first_clip(ts, id);
    assert(is_first_clip(ts, id, t2, c2));
    if t2 < t {
        assert(!track_has_clip(ts[t2], id));
    }
    if t < t2 {
        assert(!track_has_clip(ts[t], id));
    }
    assert(t == t2);
    if c2 < c {
        assert(ts[t].clips[c2].id != id);
    }
    if c < c2 {
        assert(ts[t].clips[c].id != id);
    }
}

proof fn lemma_insert_by_start_at(s: Seq<ClipView>, c: ClipView, k: int)
    requires
        0 <= k <= s.len(),
        k == 0 || s[k - 1].start_sample <= c.start_sample,
        forall|j: int| k <= j < s.len() ==> #[trigger] s[j].start_sample > c.start_sample,
    ensures
        insert_by_start(s, c) == s.insert(k, c),
    decreases s.len(),
{
    if s.len() == 0 {
        assert(s.insert(k, c) =~= seq![c]);
    } else if k == s.len() {
        assert(s.insert(k, c) =~= s.push(c));
    } else {
        assert(s.last().start_sample > c.start_sample);
        lemma_insert_by_start_at(s.drop_last(), c, k);
        assert(s.drop_last().insert(k, c).push(s.last()) =~= s.insert(k, c));
    }
}

/// Sorting keeps every clip: whatever the list held, the sorted list holds.
pub proof fn lemma_insert_by_start_contains(s: Seq<ClipView>, c: ClipView, x: ClipView)
    requires
        x == c || s.contains(x),
    ensures
        insert_by_start(s, c).contains(x),
    decreases s.len(),
{
    let r = insert_by_start(s, c);
    if s.len() == 0 {
        assert(r[0] == c);
    } else if s.last().start_sample <= c.start_sample {
        if x == c {
            assert(r[r.len() - 1] == c);
        } else {
            let k = choose|k: int| 0 <= k < s.len() && s[k] == x;
            assert(r[k] == x);
        }
    } else {
        if x == s.last() {
            assert(r[r.len() - 1] == x);
        } else {
            if x != c {
                let k = choose|k: int| 0 <= k < s.len() && s[k] == x;
                assert(k != s.len() - 1);
                assert(s.drop_last()[k] == x);
            }
            lemma_insert_by_start_contains(s.drop_last(), c, x);
            let sub = insert_by_start(s.drop_last(), c);
            let k = choose|k: int| 0 <= k < sub.len() && sub[k] == x;
            assert(r[k] == x);
        }
    }
}

pub proof fn lemma_sort_by_start_contains(s: Seq<ClipView>, x: ClipView)
    requires
        s.contains(x),
    ensures
        sort_by_start(s).contains(x),
    decreases s.len(),
{
    if x == s.last() {
        lemma_insert_by_start_contains(sort_by_start(s.drop_last()), s.last(), x);
    } else {
        let k = choose|k: int| 0 <= k < s.len() && s[k] == x;
        assert(k != s.len() - 1);
        assert(s.drop_last()[k] == x);
        lemma_sort_by_start_contains(s.drop_last(), x);
        lemma_insert_by_start_contains(sort_by_start(s.drop_last()), s.last(), x);
    }
}

/// Insert a clip into an already ordered list, after every clip that starts no later.
fn insert_clip_by_start(out: &mut Vec<Clip>, clip: Clip)
    ensures
        clips_view(final(out)@) == insert_by_start(clips_view(old(out)@), clip@),
{
    let ghost s = clips_view(out@);
    let mut k = out.len();
    while k > 0 && out[k - 1].start_sample > clip.start_sample
        invariant
            k <= out@.len(),
            s == clips_view(out@),
            forall|j: int| k <= j < s.len() ==> #[trigger] s[j].start_sample > clip.start_sample,
        decreases k,
    {
        k = k - 1;
    }
    proof {
        lemma_insert_by_start_at(s, clip@, k as int);
    }
    out.insert(k, clip);
    assert(clips_view(out@) =~= s.insert(k as int, clip@));
}

/// Stable sort of clips by their timeline start.
pub fn sort_clips_by_start(clips: Vec<Clip>) -> (r: Vec<Clip>)
    ensures
        clips_view(r@) == sort_by_start(clips_view(clips@)),
{
    let ghost cv = clips_view(clips@);
    let mut out: Vec<Clip> = Vec::new();
    let mut rest = clips;
    let mut i: usize = 0;
    let n = rest.len();
    // Move clips out front to back: reverse `rest` so popping yields them in order.
    let mut rev: Vec<Clip> = Vec::new();
    while rest.len() > 0
        invariant
            rest@.len() + rev@.len() == n,
            n == cv.len(),
            forall|j: int| 0 <= j < rest@.len() ==> #[trigger] rest@[j]@ == cv[j],
            forall|j: int| 0 <= j < rev@.len() ==> #[trigger] rev@[j]@ == cv[n - 1 - j],
        decreases rest@.len(),
    {
        let c = rest.pop().unwrap();
        rev.push(c);
    }
    while i < n
        invariant
            i <= n,
            n == cv.len(),
            rev@.len() == n - i,
            forall|j: int| 0 <= j < rev@.len() ==> #[trigger] rev@[j]@ == cv[n - 1 - j],
            clips_view(out@) == sort_by_start(cv.subrange(0, i as int)),
        decreases n - i,
    {
        let c = rev.pop().unwrap();
        assert(c@ == cv[i as int]);
        insert_clip_by_start(&mut out, c);
        proof {
            assert(cv.subrange(0, i + 1).drop_last() =~= cv.subrange(0, i as int));
        }
        i = i + 1;
    }
    assert(cv.subrange(0, n as int) =~= cv);
    out
}

/// Sort the clips of every track by start.
fn sort_track_clips(project: &mut Project)
    ensures
        final(project)@ == with_tracks(old(project)@, sort_all_tracks(old(project)@.tracks)),
{
    let ghost pv = project@;
    let ghost tv = pv.tracks;
    let mut out: Vec<Track> = Vec::new();
    let mut i: usize = 0;
    while i < project.tracks.len()
        invariant
            i <= project.tracks@.len(),
            project@ == pv,
            tv == pv.tracks,
            out@.len() == i,
            forall|j: int| 0 <= j < i ==> #[trigger] out@[j]@ == with_clips(
                tv[j],
                sort_by_start(tv[j].clips),
            ),
        decreases project.tracks@.len() - i,
    {
        let mut t = project.tracks[i].clone();
        assert(t@ == tv[i as int]);
        let mut clips: Vec<Clip> = Vec::new();
        std::mem::swap(&mut clips, &mut t.clips);
        t.clips = sort_clips_by_start(clips);
        assert(t@ =~= with_clips(tv[i as int], sort_by_start(tv[i as int].clips)));
        out.push(t);
        i = i + 1;
    }
    project.tracks = out;
    assert(tracks_view(project.tracks@) =~= sort_all_tracks(tv));
    assert(project@ =~= with_tracks(pv, sort_all_tracks(tv)));
}

/// True when some clip in some track references the media identifier.
fn media_used(tracks: &Vec<Track>, media_id: &StableId) -> (b: bool)
    ensures
        b == media_in_use(tracks_view(tracks@), media_id@),
{
    let ghost tv = tracks_view(tracks@);
    let mut t: usize = 0;
    while t < tracks.len()
        invariant
            t <= tracks@.len(),
            tv == tracks_view(tracks@),
            forall|u: int, c: int|
                0 <= u < t && 0 <= c < tv[u].clips.len() ==> #[trigger] tv[u].clips[c].media_id
                    != media_id@,
        decreases tracks@.len() - t,
    {
        let clips = &tracks[t].clips;
        let ghost cv = tv[t as int].clips;
        let mut c: usize = 0;
        while c < clips.len()
            invariant
                c <= clips@.len(),
                t < tracks@.len(),
                tv == tracks_view(tracks@),
                cv == tv[t as int].clips,
                cv == clips_view(clips@),
                forall|u: int, d: int|
                    0 <= u < t && 0 <= d < tv[u].clips.len() ==> #[trigger] tv[u].clips[d].media_id
                        != media_id@,
                forall|d: int| 0 <= d < c ==> #[trigger] cv[d].media_id != media_id@,
            decreases clips@.len() - c,
        {
            if clips[c].media_id.same(media_id) {
                assert(tv[t as int].clips[c as int].media_id == media_id@);
                return true;
            }
            c = c + 1;
        }
        t = t + 1;
    }
    false
}

/// Remove every media reference that no clip uses.
pub fn prune_unused_media_references(project: &mut Project)
    ensures
        final(project)@ == prune_media(old(project)@),
{
    let ghost pv = project@;
    let ghost pred = |m: MediaView| media_in_use(pv.tracks, m.id);
    let mut kept: Vec<MediaReference> = Vec::new();
    let mut i: usize = 0;
    while i < project.media.len()
        invariant
            i <= project.media@.len(),
            project@ == pv,
            pred == (|m: MediaView| media_in_use(pv.tracks, m.id)),
            media_view(kept@) == pv.media.subrange(0, i as int).filter(pred),
        decreases project.media@.len() - i,
    {
        let used = media_used(&project.tracks, &project.media[i].id);
        proof {
            reveal(Seq::filter);
            assert(pv.media.subrange(0, i + 1).drop_last() =~= pv.media.subrange(0, i as int));
        }
        if used {
            kept.push(project.media[i].clone());
            assert(media_view(kept@) =~= pv.media.subrange(0, i + 1).filter(pred));
        } else {
            assert(media_view(kept@) =~= pv.media.subrange(0, i + 1).filter(pred));
        }
        i = i + 1;
    }
    assert(pv.media.subrange(0, i as int) =~= pv.media);
    project.media = kept;
    assert(project@ =~= prune_media(pv));
}

/// Apply one command to a project. `CheckoutSnapshot` reads from `snapshots`.
pub fn apply_command(project: Project, command: &ProjectCommand, snapshots: &Vec<Snapshot>) -> (r:
    Result<Project, ProjectIoError>)
    ensures
        project_result_view(r) == apply_spec(project@, command@, snapshots_view(snapshots@)),
{
    reveal(apply_spec);
    match command {
        ProjectCommand::AddTrack { track } => {
            let mut project = project;
            let ghost pv = project@;
            project.tracks.push(track.clone());
            assert(project@ =~= with_tracks(pv, pv.tracks.push(track@)));
            validate_project_state(project)
        },
        ProjectCommand::RemoveTrack { track_id } => apply_remove_track(project, track_id),
        ProjectCommand::AddMediaReference { media } => apply_add_media(project, media),
        ProjectCommand::AddClip { track_id, clip } => apply_add_clip(project, track_id, clip),
        ProjectCommand::SetClipPlacement { clip_id, start_sample, duration_samples } =>
            apply_set_clip_placement(project, clip_id, *start_sample, *duration_samples),
        ProjectCommand::RemoveClip { clip_id } => apply_remove_clip(project, clip_id),
        ProjectCommand::SetTrackControls { track_id, volume_percent, muted, solo } =>
            apply_set_track_controls(project, track_id, *volume_percent, *muted, *solo),
        ProjectCommand::SetProjectTempo { tempo_bpm } => {
            let mut project = project;
            project.tempo_bpm = *tempo_bpm;
            validate_project_state(project)
        },
        ProjectCommand::CheckoutSnapshot { snapshot_id } => {
            match find_snapshot(snapshots, snapshot_id) {
                Some(k) => {
                    proof {
                        lemma_first_snapshot_unique(snapshots_view(snapshots@), snapshot_id@, k as int);
                    }
                    Ok(snapshots[k].project.clone())
                },
                None => {
                    let mut m: Vec<char> = Vec::new();
                    push_str(&mut m, "snapshot ");
                    push_id(&mut m, snapshot_id);
                    push_str(&mut m, " not found");
                    Err(ProjectIoError::Io(string_from_chars(&m)))
                },
            }
        },
    }
}

/// Position of the first snapshot with this identifier.
pub fn find_snapshot(snapshots: &Vec<Snapshot>, id: &StableId) -> (r: Option<usize>)
    ensures
        match r {
            Some(k) => is_first_snapshot(snapshots_view(snapshots@), id@, k as int),
            None => !has_snapshot(snapshots_view(snapshots@), id@),
        },
{
    let ghost sv = snapshots_view(snapshots@);
    let mut i: usize = 0;
    while i < snapshots.len()
        invariant
            i <= snapshots@.len(),
            sv == snapshots_view(snapshots@),
            forall|j: int| 0 <= j < i ==> #[trigger] sv[j].id != id@,
        decreases snapshots@.len() - i,
    {
        if snapshots[i].id.same(id) {
            return Some(i);
        }
        i = i + 1;
    }
    None
}

pub proof fn lemma_first_snapshot_unique(s: Seq<SnapshotView>, id: Seq<char>, k: int)
    requires
        is_first_snapshot(s, id, k),
    ensures
        has_snapshot(s, id),
        first_snapshot(s, id) == k,
{
    assert(s[k].id == id);
    let k2 = first_snapshot(s, id);
    assert(is_first_snapshot(s, id, k2));
    if k2 < k {
        assert(s[k2].id != id);
    }
    if k < k2 {
        assert(s[k].id != id);
    }
}

fn apply_remove_track(project: Project, track_id: &StableId) -> (r: Result<
    Project,
    ProjectIoError,
>)
    ensures
        project_result_view(r) == remove_track_spec(project@, track_id@),
{
    let ghost pv = project@;
    let ghost pred = |t: TrackView| t.id != track_id@;
    let mut project = project;
    let mut kept: Vec<Track> = Vec::new();
    let mut i: usize = 0;
    while i < project.tracks.len()
        invariant
            i <= project.tracks@.len(),
            project@ == pv,
            pred == (|t: TrackView| t.id != track_id@),
            tracks_view(kept@) == pv.tracks.subrange(0, i as int).filter(pred),
        decreases project.tracks@.len() - i,
    {
        proof {
            reveal(Seq::filter);
            assert(pv.tracks.subrange(0, i + 1).drop_last() =~= pv.tracks.subrange(0, i as int));
        }
        if !project.tracks[i].id.same(track_id) {
            kept.push(project.tracks[i].clone());
        }
        assert(tracks_view(kept@) =~= pv.tracks.subrange(0, i + 1).filter(pred));
        i = i + 1;
    }
    assert(pv.tracks.subrange(0, i as int) =~= pv.tracks);
    if kept.len() == project.tracks.len() {
        return Err(unknown_track_error(track_id));
    }
    project.tracks = kept;
    assert(project@ =~= with_tracks(pv, pv.tracks.filter(pred)));
    prune_unused_media_references(&mut project);
    validate_project_state(project)
}

fn apply_add_media(project: Project, media: &MediaReference) -> (r: Result<
    Project,
    ProjectIoError,
>)
    ensures
        project_result_view(r) == add_media_spec(project@, media@),
{
    let ghost pv = project@;
    let mut project = project;
    match find_media(&project.media, &media.id) {
        Some(k) => {
            proof {
                lemma_first_media_unique(pv.media, media@.id, k as int);
            }
            project.media.set(k, media.clone());
            assert(project@ =~= with_media(pv, pv.media.update(k as int, media@)));
        },
        None => {
            project.media.push(media.clone());
            assert(project@ =~= with_media(pv, pv.media.push(media@)));
        },
    }
    validate_project_state(project)
}

fn apply_add_clip(project: Project, track_id: &StableId, clip: &Clip) -> (r: Result<
    Project,
    ProjectIoError,
>)
    ensures
        project_result_view(r) == add_clip_spec(project@, track_id@, clip@),
{
    let ghost pv = project@;
    if !media_list_has_id(&project.media, &clip.media_id) {
        return Err(unknown_media_error(&clip.media_id));
    }
    let k = match find_track(&project.tracks, track_id) {
        Some(k) => k,
        None => return Err(unknown_track_error(track_id)),
    };
    proof {
        lemma_first_track_unique(pv.tracks, track_id@, k as int);
    }
    let mut project = project;
    let mut t = project.tracks[k].clone();
    let mut clips: Vec<Clip> = Vec::new();
    std::mem::swap(&mut clips, &mut t.clips);
    let ghost before = clips_view(clips@);
    clips.push(clip.clone());
    assert(clips_view(clips@) =~= before.push(clip@));
    t.clips = sort_clips_by_start(clips);
    project.tracks.set(k, t);
    assert(project@ =~= with_tracks(
        pv,
        pv.tracks.update(k as int, with_clips(pv.tracks[k as int], sort_by_start(before.push(clip@)))),
    ));
    validate_project_state(project)
}

fn apply_set_clip_placement(
    project: Project,
    clip_id: &StableId,
    start_sample: u64,
    duration_samples: u64,
) -> (r: Result<Project, ProjectIoError>)
    ensures
        project_result_view(r) == set_clip_placement_spec(project@, clip_id@, start_sample, duration_samples),
{
    let ghost pv = project@;
    let (t, c) = match find_clip(&project.tracks, clip_id) {
        Some(loc) => loc,
        None => return Err(unknown_clip_error(clip_id)),
    };
    proof {
        lemma_first_clip_unique(pv.tracks, clip_id@, t as int, c as int);
    }
    let mut project = project;
    let mut track = project.tracks[t].clone();
    let mut moved = track.clips[c].clone();
    moved.start_sample = start_sample;
    moved.duration_samples = duration_samples;
    track.clips.set(c, moved);
    project.tracks.set(t, track);
    proof {
        let old = pv.tracks[t as int].clips[c as int];
        let mv = ClipView { start_sample, duration_samples, ..old };
        assert(clips_view(project.tracks@[t as int].clips@) =~= pv.tracks[t as int].clips.update(
            c as int,
            mv,
        ));
        assert(project@ =~= with_tracks(
            pv,
            pv.tracks.update(
                t as int,
                with_clips(pv.tracks[t as int], pv.tracks[t as int].clips.update(c as int, mv)),
            ),
        ));
    }
    sort_track_clips(&mut project);
    validate_project_state(project)
}

fn apply_remove_clip(project: Project, clip_id: &StableId) -> (r: Result<
    Project,
    ProjectIoError,
>)
    ensures
        project_result_view(r) == remove_clip_spec(project@, clip_id@),
{
    let ghost pv = project@;
    let found = find_clip(&project.tracks, clip_id);
    if found.is_none() {
        return Err(unknown_clip_error(clip_id));
    }
    let mut project = project;
    let ghost pred = |c: ClipView| c.id != clip_id@;
    let mut out: Vec<Track> = Vec::new();
    let mut i: usize = 0;
    while i < project.tracks.len()
        invariant
            i <= project.tracks@.len(),
            project@ == pv,
            pred == (|c: ClipView| c.id != clip_id@),
            out@.len() == i,
            forall|j: int| 0 <= j < i ==> #[trigger] out@[j]@ == with_clips(
                pv.tracks[j],
                pv.tracks[j].clips.filter(pred),
            ),
        decreases project.tracks@.len() - i,
    {
        let mut t = project.tracks[i].clone();
        assert(t@ == pv.tracks[i as int]);
        let ghost cv = clips_view(t.clips@);
        let mut kept: Vec<Clip> = Vec::new();
        let mut c: usize = 0;
        while c < t.clips.len()
            invariant
                c <= t.clips@.len(),
                cv == clips_view(t.clips@),
                pred == (|c: ClipView| c.id != clip_id@),
                clips_view(kept@) == cv.subrange(0, c as int).filter(pred),
            decreases t.clips@.len() - c,
        {
            proof {
                reveal(Seq::filter);
                assert(cv.subrange(0, c + 1).drop_last() =~= cv.subrange(0, c as int));
            }
            if !t.clips[c].id.same(clip_id) {
                kept.push(t.clips[c].clone());
            }
            assert(clips_view(kept@) =~= cv.subrange(0, c + 1).filter(pred));
            c = c + 1;
        }
        assert(cv.subrange(0, c as int) =~= cv);
        t.clips = kept;
        assert(t@ =~= with_clips(pv.tracks[i as int], pv.tracks[i as int].clips.filter(pred)));
        out.push(t);
        i = i + 1;
    }
    project.tracks = out;
    assert(tracks_view(project.tracks@) =~= remove_clip_everywhere(pv.tracks, clip_id@));
    assert(project@ =~= with_tracks(pv, remove_clip_everywhere(pv.tracks, clip_id@)));
    prune_unused_media_references(&mut project);
    validate_project_state(project)
}

fn apply_set_track_controls(
    project: Project,
    track_id: &StableId,
    volume_percent: u16,
    muted: bool,
    solo: bool,
) -> (r: Result<Project, ProjectIoError>)
    ensures
        project_result_view(r) == set_track_controls_spec(project@, track_id@, volume_percent, muted, solo),
{
    let ghost pv = project@;
    let k = match find_track(&project.tracks, track_id) {
        Some(k) => k,
        None => return Err(unknown_track_error(track_id)),
    };
    proof {
        lemma_first_track_unique(pv.tracks, track_id@, k as int);
    }
    let mut project = project;
    let mut t = project.tracks[k].clone();
    t.volume_percent = volume_percent;
    t.muted = muted;
    t.solo = solo;
    project.tracks.set(k, t);
    assert(project@ =~= with_tracks(
        pv,
        pv.tracks.update(k as int, TrackView { volume_percent, muted, solo, ..pv.tracks[k as int] }),
    ));
    validate_project_state(project)
}


/// Whatever an insertion holds is the inserted clip or was in the list.
proof fn lemma_insert_by_start_members(s: Seq<ClipView>, c: ClipView, x: ClipView)
    requires
        insert_by_start(s, c).contains(x),
    ensures
        x == c || s.contains(x),
    decreases s.len(),
{
    let r = insert_by_start(s, c);
    let k = choose|k: int| 0 <= k < r.len() && r[k] == x;
    if s.len() == 0 {
    } else if s.last().start_sample <= c.start_sample {
        if k < s.len() {
            assert(s[k] == x);
        }
    } else {
        let sub = insert_by_start(s.drop_last(), c);
        if k == r.len() - 1 {
            assert(s[s.len() - 1] == x);
        } else {
            assert(sub[k] == x);
            lemma_insert_by_start_members(s.drop_last(), c, x);
            if x != c {
                let j = choose|j: int| 0 <= j < s.drop_last().len() && s.drop_last()[j] == x;
                assert(s[j] == x);
            }
        }
    }
}

/// Whatever a sorted list holds was in the list.
proof fn lemma_sort_by_start_members(s: Seq<ClipView>, x: ClipView)
    requires
        sort_by_start(s).contains(x),
    ensures
        s.contains(x),
    decreases s.len(),
{
    if s.len() > 0 {
        lemma_insert_by_start_members(sort_by_start(s.drop_last()), s.last(), x);
        if x == s.last() {
            assert(s[s.len() - 1] == x);
        } else {
            lemma_sort_by_start_members(s.drop_last(), x);
            let j = choose|j: int| 0 <= j < s.drop_last().len() && s.drop_last()[j] == x;
            assert(s[j] == x);
        }
    }
}

/// When some media reference has the identifier, a first such reference exists.
proof fn lemma_first_media_exists(ms: Seq<MediaView>, id: Seq<char>, k: int)
    requires
        0 <= k < ms.len(),
        ms[k].id == id,
    ensures
        is_first_media(ms, id, first_media(ms, id)),
    decreases k,
{
    if exists|j: int| 0 <= j < k && #[trigger] ms[j].id == id {
        let j = choose|j: int| 0 <= j < k && #[trigger] ms[j].id == id;
        lemma_first_media_exists(ms, id, j);
    } else {
        assert(is_first_media(ms, id, k));
    }
}

/// Adding a track to a valid project succeeds, and appends the track, when the track
/// has a name, a volume of at most 200 percent, no clips, and an identifier that no
/// track of the project has.
pub proof fn law_add_fresh_track(p: ProjectView, t: TrackView, snaps: Seq<SnapshotView>)
    requires
        is_valid(p),
        !is_blank(t.name),
        t.volume_percent <= MAX_TRACK_VOLUME_PERCENT,
        t.clips.len() == 0,
        forall|i: int| 0 <= i < p.tracks.len() ==> #[trigger] p.tracks[i].id != t.id,
    ensures
        apply_spec(p, CommandView::AddTrack { track: t }, snaps) == Ok::<ProjectView, ErrorView>(
            with_tracks(p, p.tracks.push(t)),
        ),
{
    reveal(apply_spec);
    law_valid_exactly_when_rules_met(p);
    let q = with_tracks(p, p.tracks.push(t));
    assert forall|i: int| 0 <= i < q.tracks.len() implies #[trigger] track_ok(q.tracks[i], q.media) by {
        if i < p.tracks.len() {
            assert(q.tracks[i] == p.tracks[i]);
            assert(track_ok(p.tracks[i], p.media));
        }
    }
    let old_ids = track_ids(p.tracks);
    let ids = track_ids(q.tracks);
    assert(ids =~= old_ids.push(t.id));
    if has_duplicates(ids) {
        let (i, j) = choose|i: int, j: int| 0 <= i < j < ids.len() && #[trigger] ids[i] == #[trigger] ids[j];
        if j < p.tracks.len() {
            assert(old_ids[i] == old_ids[j]);
            assert(has_duplicates(old_ids));
        } else {
            assert(p.tracks[i].id == t.id);
        }
    }
    law_valid_exactly_when_rules_met(q);
}

/// Adding a clip to a valid project fails with `unknown media id` when no media
/// reference has the clip's media (checked first), with `unknown track id` when no
/// track has the identifier, and with the validation errors when the clip has no
/// length; otherwise it succeeds and places the clip on the first track with that
/// identifier, whose clips stay in order of start.
pub proof fn law_add_clip(p: ProjectView, track_id: Seq<char>, clip: ClipView, snaps: Seq<SnapshotView>)
    requires
        is_valid(p),
    ensures
        ({
            let r = apply_spec(p, CommandView::AddClip { track_id, clip }, snaps);
            &&& !media_has_id(p.media, clip.media_id) ==> r == Err::<ProjectView, ErrorView>(unknown_media(clip.media_id))
            &&& media_has_id(p.media, clip.media_id) && !has_track(p.tracks, track_id) ==> r
                == Err::<ProjectView, ErrorView>(unknown_track(track_id))
            &&& media_has_id(p.media, clip.media_id) && has_track(p.tracks, track_id) && clip.duration_samples == 0
                ==> r is Err
            &&& media_has_id(p.media, clip.media_id) && has_track(p.tracks, track_id) && clip.duration_samples > 0
                ==> {
                let k = first_track(p.tracks, track_id);
                r == Ok::<ProjectView, ErrorView>(
                    with_tracks(p, p.tracks.update(k, with_clips(p.tracks[k], sort_by_start(p.tracks[k].clips.push(clip))))),
                )
            }
        }),
{
    reveal(apply_spec);
    if media_has_id(p.media, clip.media_id) && has_track(p.tracks, track_id) {
        law_valid_exactly_when_rules_met(p);
        let k0 = choose|k0: int| 0 <= k0 < p.tracks.len() && #[trigger] p.tracks[k0].id == track_id;
        crate::store::lemma_first_track_exists(p.tracks, track_id, k0);
        let k = first_track(p.tracks, track_id);
        assert(is_first_track(p.tracks, track_id, k));
        let t = p.tracks[k];
        let pushed = t.clips.push(clip);
        let sorted = sort_by_start(pushed);
        let q = with_tracks(p, p.tracks.update(k, with_clips(t, sorted)));
        assert(track_ok(t, p.media));
        if clip.duration_samples == 0 {
            assert(pushed[pushed.len() - 1] == clip);
            lemma_sort_by_start_contains(pushed, clip);
            let j = choose|j: int| 0 <= j < sorted.len() && sorted[j] == clip;
            assert(!clip_ok(q.tracks[k].clips[j], q.media));
            assert(!track_ok(q.tracks[k], q.media));
            law_valid_exactly_when_rules_met(q);
        } else {
            assert forall|j: int| 0 <= j < sorted.len() implies #[trigger] clip_ok(sorted[j], p.media) by {
                assert(sorted.contains(sorted[j]));
                lemma_sort_by_start_members(pushed, sorted[j]);
                let m = choose|m: int| 0 <= m < pushed.len() && pushed[m] == sorted[j];
                if m < t.clips.len() {
                    assert(pushed[m] == t.clips[m]);
                    assert(clip_ok(t.clips[m], p.media));
                }
            }
            assert forall|i: int| 0 <= i < q.tracks.len() implies #[trigger] track_ok(q.tracks[i], q.media) by {
                if i != k {
                    assert(track_ok(p.tracks[i], p.media));
                } else {
                    assert(q.tracks[k].clips == sorted);
                }
            }
            assert(track_ids(q.tracks) =~= track_ids(p.tracks));
            law_valid_exactly_when_rules_met(q);
        }
    }
}

/// Keeping some items of a list whose keys all differ leaves keys that all differ.
proof fn lemma_filter_keeps_distinct<A>(s: Seq<A>, key: spec_fn(A) -> Seq<char>, pred: spec_fn(A) -> bool)
    requires
        !has_duplicates(s.map_values(key)),
    ensures
        !has_duplicates(s.filter(pred).map_values(key)),
    decreases s.len(),
{
    reveal(Seq::filter);
    if s.len() > 0 {
        let init = s.drop_last();
        let sk = s.map_values(key);
        let ik = init.map_values(key);
        if has_duplicates(ik) {
            let (i, j) = choose|i: int, j: int| 0 <= i < j < ik.len() && #[trigger] ik[i] == #[trigger] ik[j];
            assert(sk[i] == ik[i] && sk[j] == ik[j]);
            assert(has_duplicates(sk));
        }
        lemma_filter_keeps_distinct(init, key, pred);
        let f = init.filter(pred);
        if pred(s.last()) {
            let g = f.push(s.last());
            assert(s.filter(pred) == g);
            let fk = f.map_values(key);
            let gk = g.map_values(key);
            assert(gk =~= fk.push(key(s.last())));
            if has_duplicates(gk) {
                let (i, j) = choose|i: int, j: int| 0 <= i < j < gk.len() && #[trigger] gk[i] == #[trigger] gk[j];
                if j < f.len() {
                    assert(fk[i] == gk[i] && fk[j] == gk[j]);
                    assert(has_duplicates(fk));
                } else {
                    assert(f.contains(f[i]));
                    init.lemma_filter_contains_rev(pred, f[i]);
                    let m = choose|m: int| 0 <= m < init.len() && init[m] == f[i];
                    assert(sk[m] == key(f[i]));
                    assert(sk[s.len() - 1] == key(s.last()));
                    assert(has_duplicates(sk));
                }
            }
        } else {
            assert(s.filter(pred) == f);
        }
    }
}

/// A list keeps all its items under a filter only when every item passes it.
proof fn lemma_filter_full<A>(s: Seq<A>, pred: spec_fn(A) -> bool)
    requires
        s.filter(pred).len() == s.len(),
    ensures
        forall|i: int| 0 <= i < s.len() ==> pred(#[trigger] s[i]),
    decreases s.len(),
{
    reveal(Seq::filter);
    if s.len() > 0 {
        let init = s.drop_last();
        init.lemma_filter_len(pred);
        if !pred(s.last()) {
            assert(s.filter(pred) == init.filter(pred));
        }
        assert(s.filter(pred) == init.filter(pred).push(s.last()));
        lemma_filter_full(init, pred);
        assert forall|i: int| 0 <= i < s.len() implies pred(#[trigger] s[i]) by {
            if i < s.len() - 1 {
                assert(init[i] == s[i]);
            }
        }
    }
}

/// Removing a track that a valid project has succeeds: the result, which drops every
/// track with that identifier and the media references no remaining clip uses, is
/// valid again.
pub proof fn law_remove_track_keeps_valid(p: ProjectView, track_id: Seq<char>, snaps: Seq<SnapshotView>)
    requires
        is_valid(p),
        has_track(p.tracks, track_id),
    ensures
        apply_spec(p, CommandView::RemoveTrack { track_id }, snaps) is Ok,
{
    reveal(apply_spec);
    law_valid_exactly_when_rules_met(p);
    let pred = |t: TrackView| t.id != track_id;
    let kept = p.tracks.filter(pred);
    let k0 = choose|k0: int| 0 <= k0 < p.tracks.len() && #[trigger] p.tracks[k0].id == track_id;
    if kept.len() == p.tracks.len() {
        lemma_filter_full(p.tracks, pred);
        assert(pred(p.tracks[k0]));
    }
    let mid = with_tracks(p, kept);
    let mpred = |m: MediaView| media_in_use(mid.tracks, m.id);
    let q = prune_media(mid);
    assert(q.media == p.media.filter(mpred));
    assert forall|i: int| 0 <= i < q.tracks.len() implies #[trigger] track_ok(q.tracks[i], q.media) by {
        assert(kept.contains(kept[i]));
        p.tracks.lemma_filter_contains_rev(pred, kept[i]);
        let m = choose|m: int| 0 <= m < p.tracks.len() && p.tracks[m] == kept[i];
        assert(track_ok(p.tracks[m], p.media));
        let t = kept[i];
        assert forall|j: int| 0 <= j < t.clips.len() implies #[trigger] clip_ok(t.clips[j], q.media) by {
            assert(clip_ok(p.tracks[m].clips[j], p.media));
            let c = t.clips[j];
            let jm = choose|jm: int| 0 <= jm < p.media.len() && #[trigger] p.media[jm].id == c.media_id;
            assert(mid.tracks[i].clips[j].media_id == p.media[jm].id);
            assert(media_in_use(mid.tracks, p.media[jm].id));
            p.media.lemma_filter_contains(mpred, jm);
            let n = choose|n: int| 0 <= n < q.media.len() && q.media[n] == p.media[jm];
            assert(q.media[n].id == c.media_id);
        }
    }
    let tkey = |t: TrackView| t.id;
    let mkey = |m: MediaView| m.id;
    assert(track_ids(p.tracks) =~= p.tracks.map_values(tkey));
    assert(track_ids(q.tracks) =~= kept.map_values(tkey));
    lemma_filter_keeps_distinct(p.tracks, tkey, pred);
    assert(crate::model::media_ids(p.media) =~= p.media.map_values(mkey));
    assert(crate::model::media_ids(q.media) =~= p.media.filter(mpred).map_values(mkey));
    lemma_filter_keeps_distinct(p.media, mkey, mpred);
    law_valid_exactly_when_rules_met(q);
}

/// Setting the controls of a track that a valid project has succeeds exactly when the
/// volume is at most 200 percent, and then changes only that track's volume, mute and
/// solo.
pub proof fn law_set_track_controls(
    p: ProjectView,
    track_id: Seq<char>,
    volume_percent: u16,
    muted: bool,
    solo: bool,
    snaps: Seq<SnapshotView>,
)
    requires
        is_valid(p),
        has_track(p.tracks, track_id),
    ensures
        ({
            let r = apply_spec(p, CommandView::SetTrackControls { track_id, volume_percent, muted, solo }, snaps);
            let k = first_track(p.tracks, track_id);
            &&& volume_percent <= MAX_TRACK_VOLUME_PERCENT ==> r == Ok::<ProjectView, ErrorView>(
                with_tracks(p, p.tracks.update(k, TrackView { volume_percent, muted, solo, ..p.tracks[k] })),
            )
            &&& volume_percent > MAX_TRACK_VOLUME_PERCENT ==> r is Err
        }),
{
    reveal(apply_spec);
    law_valid_exactly_when_rules_met(p);
    let k0 = choose|k0: int| 0 <= k0 < p.tracks.len() && #[trigger] p.tracks[k0].id == track_id;
    crate::store::lemma_first_track_exists(p.tracks, track_id, k0);
    let k = first_track(p.tracks, track_id);
    assert(is_first_track(p.tracks, track_id, k));
    let t = p.tracks[k];
    let q = with_tracks(p, p.tracks.update(k, TrackView { volume_percent, muted, solo, ..t }));
    assert(track_ok(t, p.media));
    if volume_percent <= MAX_TRACK_VOLUME_PERCENT {
        assert forall|i: int| 0 <= i < q.tracks.len() implies #[trigger] track_ok(q.tracks[i], q.media) by {
            if i != k {
                assert(track_ok(p.tracks[i], p.media));
            } else {
                assert forall|j: int| 0 <= j < q.tracks[k].clips.len() implies #[trigger] clip_ok(q.tracks[k].clips[j], q.media) by {
                    assert(clip_ok(t.clips[j], p.media));
                }
            }
        }
        assert(track_ids(q.tracks) =~= track_ids(p.tracks));
    } else {
        assert(!track_ok(q.tracks[k], q.media));
    }
    law_valid_exactly_when_rules_met(q);
}

/// Removing a clip that a valid project has succeeds: every clip with that identifier
/// goes, with the media references no remaining clip uses, and the result is valid.
pub proof fn law_remove_clip_keeps_valid(p: ProjectView, clip_id: Seq<char>, snaps: Seq<SnapshotView>)
    requires
        is_valid(p),
        has_clip(p.tracks, clip_id),
    ensures
        apply_spec(p, CommandView::RemoveClip { clip_id }, snaps) is Ok,
{
    reveal(apply_spec);
    law_valid_exactly_when_rules_met(p);
    let cpred = |c: ClipView| c.id != clip_id;
    let mid = with_tracks(p, remove_clip_everywhere(p.tracks, clip_id));
    let mpred = |m: MediaView| media_in_use(mid.tracks, m.id);
    let q = prune_media(mid);
    assert(q.media == p.media.filter(mpred));
    assert forall|i: int| 0 <= i < q.tracks.len() implies #[trigger] track_ok(q.tracks[i], q.media) by {
        let t = p.tracks[i];
        assert(track_ok(t, p.media));
        let kept = t.clips.filter(cpred);
        assert(q.tracks[i] == with_clips(t, kept));
        assert forall|j: int| 0 <= j < kept.len() implies #[trigger] clip_ok(kept[j], q.media) by {
            assert(kept.contains(kept[j]));
            t.clips.lemma_filter_contains_rev(cpred, kept[j]);
            let m = choose|m: int| 0 <= m < t.clips.len() && t.clips[m] == kept[j];
            assert(clip_ok(t.clips[m], p.media));
            let c = kept[j];
            let jm = choose|jm: int| 0 <= jm < p.media.len() && #[trigger] p.media[jm].id == c.media_id;
            assert(mid.tracks[i].clips[j].media_id == p.media[jm].id);
            assert(media_in_use(mid.tracks, p.media[jm].id));
            p.media.lemma_filter_contains(mpred, jm);
            let n = choose|n: int| 0 <= n < q.media.len() && q.media[n] == p.media[jm];
            assert(q.media[n].id == c.media_id);
        }
    }
    assert(track_ids(q.tracks) =~= track_ids(p.tracks));
    let mkey = |m: MediaView| m.id;
    assert(crate::model::media_ids(p.media) =~= p.media.map_values(mkey));
    assert(crate::model::media_ids(q.media) =~= p.media.filter(mpred).map_values(mkey));
    lemma_filter_keeps_distinct(p.media, mkey, mpred);
    law_valid_exactly_when_rules_met(q);
}

/// Adding a media reference to a valid project always succeeds: it replaces the first
/// reference with the same identifier, or is appended when there is none.
pub proof fn law_add_media_keeps_valid(p: ProjectView, m: MediaView, snaps: Seq<SnapshotView>)
    requires
        is_valid(p),
    ensures
        apply_spec(p, CommandView::AddMediaReference { media: m }, snaps) is Ok,
{
    reveal(apply_spec);
    law_valid_exactly_when_rules_met(p);
    let q = if media_has_id(p.media, m.id) {
        with_media(p, p.media.update(first_media(p.media, m.id), m))
    } else {
        with_media(p, p.media.push(m))
    };
    let old_ids = crate::model::media_ids(p.media);
    let ids = crate::model::media_ids(q.media);
    if media_has_id(p.media, m.id) {
        let j = choose|j: int| 0 <= j < p.media.len() && #[trigger] p.media[j].id == m.id;
        lemma_first_media_exists(p.media, m.id, j);
        let k = first_media(p.media, m.id);
        assert(ids =~= old_ids);
        assert forall|id: Seq<char>| media_has_id(p.media, id) implies media_has_id(q.media, id) by {
            let w = choose|w: int| 0 <= w < p.media.len() && #[trigger] p.media[w].id == id;
            assert(q.media[w].id == id);
        }
    } else {
        assert(ids =~= old_ids.push(m.id));
        if has_duplicates(ids) {
            let (i, j) = choose|i: int, j: int| 0 <= i < j < ids.len() && #[trigger] ids[i] == #[trigger] ids[j];
            if j < p.media.len() {
                assert(old_ids[i] == old_ids[j]);
                assert(has_duplicates(old_ids));
            } else {
                assert(p.media[i].id == m.id);
            }
        }
        assert forall|id: Seq<char>| media_has_id(p.media, id) implies media_has_id(q.media, id) by {
            let w = choose|w: int| 0 <= w < p.media.len() && #[trigger] p.media[w].id == id;
            assert(q.media[w].id == id);
        }
    }
    assert forall|i: int| 0 <= i < q.tracks.len() implies #[trigger] track_ok(q.tracks[i], q.media) by {
        let t = p.tracks[i];
        assert(track_ok(t, p.media));
        assert forall|j: int| 0 <= j < t.clips.len() implies #[trigger] clip_ok(t.clips[j], q.media) by {
            assert(clip_ok(t.clips[j], p.media));
        }
    }
    law_valid_exactly_when_rules_met(q);
}

/// Adding the same media reference a second time leaves the project as the first
/// addition made it.
pub proof fn law_add_media_twice(p: ProjectView, m: MediaView)
    requires
        add_media_spec(p, m) is Ok,
    ensures
        add_media_spec(add_media_spec(p, m)->Ok_0, m) == add_media_spec(p, m),
{
    let q = add_media_spec(p, m)->Ok_0;
    if media_has_id(p.media, m.id) {
        let j = choose|j: int| 0 <= j < p.media.len() && #[trigger] p.media[j].id == m.id;
        lemma_first_media_exists(p.media, m.id, j);
        let k = first_media(p.media, m.id);
        assert(q.media == p.media.update(k, m));
        assert(is_first_media(q.media, m.id, k));
        lemma_first_media_unique(q.media, m.id, k);
        assert(q.media.update(k, m) =~= q.media);
        assert(with_media(q, q.media) == q);
    } else {
        let n = p.media.len() as int;
        assert(q.media == p.media.push(m));
        assert forall|j: int| 0 <= j < n implies #[trigger] q.media[j].id != m.id by {
            assert(q.media[j] == p.media[j]);
        }
        assert(is_first_media(q.media, m.id, n));
        lemma_first_media_unique(q.media, m.id, n);
        assert(q.media.update(n, m) =~= q.media);
        assert(with_media(q, q.media) == q);
    }
}

/// Pruning keeps exactly the media references that some clip uses.
proof fn lemma_prune_keeps_used_media(p: ProjectView)
    ensures
        forall|i: int|
            0 <= i < prune_media(p).media.len() ==> media_in_use(p.tracks, #[trigger] prune_media(p).media[i].id),
        forall|m: MediaView| p.media.contains(m) && media_in_use(p.tracks, m.id) ==> #[trigger] prune_media(p).media.contains(m),
        forall|m: MediaView| #[trigger] prune_media(p).media.contains(m) ==> p.media.contains(m),
        prune_media(p).tracks == p.tracks,
{
    let pred = |m: MediaView| media_in_use(p.tracks, m.id);
    broadcast use vstd::seq_lib::group_filter_ensures;
    assert forall|m: MediaView| p.media.contains(m) && media_in_use(p.tracks, m.id) implies #[trigger] prune_media(p).media.contains(m) by {
        let k = choose|k: int| 0 <= k < p.media.len() && p.media[k] == m;
        assert(pred(p.media[k]));
    }
    assert forall|m: MediaView| #[trigger] prune_media(p).media.contains(m) implies p.media.contains(m) by {
        p.media.lemma_filter_contains_rev(pred, m);
    }
}

/// Removing a clip or a track leaves only media references that a remaining clip uses,
/// and keeps every reference that one does.
pub proof fn law_removal_prunes_unused_media(p: ProjectView, id: Seq<char>)
    ensures
        remove_clip_spec(p, id) matches Ok(q) ==> {
            &&& forall|i: int| 0 <= i < q.media.len() ==> media_in_use(q.tracks, #[trigger] q.media[i].id)
            &&& forall|m: MediaView| p.media.contains(m) && media_in_use(q.tracks, m.id) ==> #[trigger] q.media.contains(m)
        },
        remove_track_spec(p, id) matches Ok(q) ==> {
            &&& forall|i: int| 0 <= i < q.media.len() ==> media_in_use(q.tracks, #[trigger] q.media[i].id)
            &&& forall|m: MediaView| p.media.contains(m) && media_in_use(q.tracks, m.id) ==> #[trigger] q.media.contains(m)
        },
{
    lemma_prune_keeps_used_media(with_tracks(p, remove_clip_everywhere(p.tracks, id)));
    lemma_prune_keeps_used_media(with_tracks(p, p.tracks.filter(|t: TrackView| t.id != id)));
}


/// Clips in order of their timeline start.
pub open spec fn clips_in_order(s: Seq<ClipView>) -> bool {
    forall|i: int, j: int| 0 <= i < j < s.len() ==> (#[trigger] s[i]).start_sample <= (#[trigger] s[j]).start_sample
}

proof fn lemma_insert_by_start_bounded(s: Seq<ClipView>, c: ClipView, bound: u64)
    requires
        forall|i: int| 0 <= i < s.len() ==> (#[trigger] s[i]).start_sample <= bound,
        c.start_sample <= bound,
    ensures
        insert_by_start(s, c).len() == s.len() + 1,
        forall|i: int| 0 <= i < insert_by_start(s, c).len() ==> (#[trigger] insert_by_start(s, c)[i]).start_sample <= bound,
    decreases s.len(),
{
    if s.len() > 0 && !(s.last().start_sample <= c.start_sample) {
        lemma_insert_by_start_bounded(s.drop_last(), c, bound);
        let r0 = insert_by_start(s.drop_last(), c);
        assert forall|i: int| 0 <= i < insert_by_start(s, c).len() implies (#[trigger] insert_by_start(s, c)[i]).start_sample <= bound by {
            if i < r0.len() {
                assert(insert_by_start(s, c)[i] == r0[i]);
            }
        }
    }
}

proof fn lemma_insert_by_start_in_order(s: Seq<ClipView>, c: ClipView)
    requires
        clips_in_order(s),
    ensures
        clips_in_order(insert_by_start(s, c)),
    decreases s.len(),
{
    let r = insert_by_start(s, c);
    if s.len() > 0 && !(s.last().start_sample <= c.start_sample) {
        let d = s.drop_last();
        let l = s.last();
        lemma_insert_by_start_in_order(d, c);
        assert forall|i: int| 0 <= i < d.len() implies (#[trigger] d[i]).start_sample <= l.start_sample by {
            assert(d[i] == s[i]);
        }
        lemma_insert_by_start_bounded(d, c, l.start_sample);
        let r0 = insert_by_start(d, c);
        assert forall|i: int, j: int| 0 <= i < j < r.len() implies (#[trigger] r[i]).start_sample <= (#[trigger] r[j]).start_sample by {
            if j < r0.len() {
                assert(r[i] == r0[i] && r[j] == r0[j]);
            } else {
                assert(r[i] == r0[i]);
            }
        }
    } else if s.len() > 0 {
        assert forall|i: int, j: int| 0 <= i < j < r.len() implies (#[trigger] r[i]).start_sample <= (#[trigger] r[j]).start_sample by {
            if j == s.len() && i < s.len() - 1 {
                assert(s[i].start_sample <= s[s.len() - 1].start_sample);
            }
        }
    }
}

/// Sorting clips by start puts them in order of their start.
pub proof fn law_sorted_clips_in_order(s: Seq<ClipView>)
    ensures
        clips_in_order(sort_by_start(s)),
        sort_by_start(s).len() == s.len(),
    decreases s.len(),
{
    if s.len() > 0 {
        law_sorted_clips_in_order(s.drop_last());
        lemma_insert_by_start_in_order(sort_by_start(s.drop_last()), s.last());
        lemma_insert_by_start_bounded(sort_by_start(s.drop_last()), s.last(), u64::MAX);
    }
}


/// Checking out a snapshot, once it is stored under an identifier no earlier snapshot
/// has, gives back the project it was taken of, whatever the current project is.
pub proof fn law_checkout_restores_snapshot(p: ProjectView, snaps: Seq<SnapshotView>, s: SnapshotView)
    requires
        !has_snapshot(snaps, s.id),
    ensures
        apply_spec(p, CommandView::CheckoutSnapshot { snapshot_id: s.id }, snaps.push(s)) == Ok::<
            ProjectView,
            ErrorView,
        >(s.project),
{
    reveal(apply_spec);
    let all = snaps.push(s);
    let k = snaps.len() as int;
    assert forall|j: int| 0 <= j < k implies #[trigger] all[j].id != s.id by {
        assert(all[j] == snaps[j]);
    }
    assert(is_first_snapshot(all, s.id, k));
    lemma_first_snapshot_unique(all, s.id, k);
}

} // verus!
