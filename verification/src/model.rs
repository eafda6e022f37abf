//! Project documents: tracks, clips, media references, and their validation rules.

use vstd::prelude::*;

use crate::ids::{id_text, push_id, StableId};
use crate::text::{copy_opt_string, decimal, is_blank, opt_view, push_decimal, push_str, str_is_blank, string_from_chars};

verus! {

/// Current on-disk project schema version.
pub const PROJECT_SCHEMA_VERSION: u32 = 1;

/// Volume given to new tracks: unity gain.
pub const DEFAULT_TRACK_VOLUME_PERCENT: u16 = 100;

/// Largest volume percentage a valid project may hold.
pub const MAX_TRACK_VOLUME_PERCENT: u16 = 200;

/// Tempo given to new projects, in beats per minute.
pub const DEFAULT_TEMPO_BPM: u16 = 120;

/// Slowest tempo a valid project may hold, in beats per minute.
pub const MIN_TEMPO_BPM: u16 = 20;

/// Fastest tempo a valid project may hold, in beats per minute.
pub const MAX_TEMPO_BPM: u16 = 300;

/// A clip placement on the timeline.
#[derive(Debug, PartialEq, Eq)]
pub struct Clip {
    /// Stable clip identifier.
    pub id: StableId,
    /// Stable media identifier referenced by this clip.
    pub media_id: StableId,
    /// Timeline start in samples.
    pub start_sample: u64,
    /// Clip duration in samples.
    pub duration_samples: u64,
}

/// A timeline track.
#[derive(Debug, PartialEq, Eq)]
pub struct Track {
    /// Stable track identifier.
    pub id: StableId,
    /// Human-readable track name.
    pub name: String,
    /// Linear volume percentage, where 100 is unity gain.
    pub volume_percent: u16,
    /// True when this track should be silent.
    pub muted: bool,
    /// True when this track is soloed.
    pub solo: bool,
    /// Clips placed on this track.
    pub clips: Vec<Clip>,
}

/// A media object referenced by the project.
#[derive(Debug, PartialEq, Eq)]
pub struct MediaReference {
    /// Stable media identifier.
    pub id: StableId,
    /// Content hash, once imported into the media store.
    pub content_hash: Option<String>,
    /// Original import path, retained for relinking.
    pub original_path: Option<String>,
}

/// User-editable project document.
#[derive(Debug, PartialEq, Eq)]
pub struct Project {
    /// Schema version used by migration code.
    pub schema_version: u32,
    /// Stable project identifier.
    pub id: StableId,
    /// Human-readable project name.
    pub name: String,
    /// Project tempo in beats per minute.
    pub tempo_bpm: u16,
    /// Track list in timeline order.
    pub tracks: Vec<Track>,
    /// Media references known to the project.
    pub media: Vec<MediaReference>,
}

/// Project validation failure.
#[derive(Debug, PartialEq, Eq)]
pub struct ValidationError {
    message: String,
}

#[verifier::ext_equal]
pub struct ClipView {
    pub id: Seq<char>,
    pub media_id: Seq<char>,
    pub start_sample: u64,
    pub duration_samples: u64,
}

#[verifier::ext_equal]
pub struct TrackView {
    pub id: Seq<char>,
    pub name: Seq<char>,
    pub volume_percent: u16,
    pub muted: bool,
    pub solo: bool,
    pub clips: Seq<ClipView>,
}

#[verifier::ext_equal]
pub struct MediaView {
    pub id: Seq<char>,
    pub content_hash: Option<Seq<char>>,
    pub original_path: Option<Seq<char>>,
}

#[verifier::ext_equal]
pub struct ProjectView {
    pub schema_version: u32,
    pub id: Seq<char>,
    pub name: Seq<char>,
    pub tempo_bpm: u16,
    pub tracks: Seq<TrackView>,
    pub media: Seq<MediaView>,
}

impl View for Clip {
    type V = ClipView;

    open spec fn view(&self) -> ClipView {
        ClipView {
            id: self.id@,
            media_id: self.media_id@,
            start_sample: self.start_sample,
            duration_samples: self.duration_samples,
        }
    }
}

pub open spec fn clips_view(clips: Seq<Clip>) -> Seq<ClipView> {
    clips.map_values(|c: Clip| c@)
}

impl View for Track {
    type V = TrackView;

    open spec fn view(&self) -> TrackView {
        TrackView {
            id: self.id@,
            name: self.name@,
            volume_percent: self.volume_percent,
            muted: self.muted,
            solo: self.solo,
            clips: clips_view(self.clips@),
        }
    }
}

pub open spec fn tracks_view(tracks: Seq<Track>) -> Seq<TrackView> {
    tracks.map_values(|t: Track| t@)
}

impl View for MediaReference {
    type V = MediaView;

    open spec fn view(&self) -> MediaView {
        MediaView {
            id: self.id@,
            content_hash: opt_view(self.content_hash),
            original_path: opt_view(self.original_path),
        }
    }
}

pub open spec fn media_view(media: Seq<MediaReference>) -> Seq<MediaView> {
    media.map_values(|m: MediaReference| m@)
}

impl View for Project {
    type V = ProjectView;

    open spec fn view(&self) -> ProjectView {
        ProjectView {
            schema_version: self.schema_version,
            id: self.id@,
            name: self.name@,
            tempo_bpm: self.tempo_bpm,
            tracks: tracks_view(self.tracks@),
            media: media_view(self.media@),
        }
    }
}

impl View for ValidationError {
    type V = Seq<char>;

    closed spec fn view(&self) -> Seq<char> {
        self.message@
    }
}

pub open spec fn messages_of(errors: Seq<ValidationError>) -> Seq<Seq<char>> {
    errors.map_values(|e: ValidationError| e@)
}

// ---------------------------------------------------------------------------
// Validation rules
// ---------------------------------------------------------------------------

/// True when some media reference carries the identifier.
pub open spec fn media_has_id(media: Seq<MediaView>, id: Seq<char>) -> bool {
    exists|i: int| 0 <= i < media.len() && #[trigger] media[i].id == id
}

/// True when two distinct positions hold the same identifier.
pub open spec fn has_duplicates(ids: Seq<Seq<char>>) -> bool {
    exists|i: int, j: int| 0 <= i < j < ids.len() && #[trigger] ids[i] == #[trigger] ids[j]
}

pub open spec fn track_ids(tracks: Seq<TrackView>) -> Seq<Seq<char>> {
    tracks.map_values(|t: TrackView| t.id)
}

pub open spec fn media_ids(media: Seq<MediaView>) -> Seq<Seq<char>> {
    media.map_values(|m: MediaView| m.id)
}

pub open spec fn clip_messages(c: ClipView, media: Seq<MediaView>) -> Seq<Seq<char>> {
    (if c.duration_samples == 0 {
        seq!["clip "@ + c.id + " duration_samples must be greater than zero"@]
    } else {
        seq![]
    }) + (if !media_has_id(media, c.media_id) {
        seq!["clip "@ + c.id + " references unknown media "@ + c.media_id]
    } else {
        seq![]
    })
}

pub open spec fn clips_messages(clips: Seq<ClipView>, media: Seq<MediaView>) -> Seq<Seq<char>>
    decreases clips.len(),
{
    if clips.len() == 0 {
        seq![]
    } else {
        clips_messages(clips.drop_last(), media) + clip_messages(clips.last(), media)
    }
}

pub open spec fn track_messages(t: TrackView, media: Seq<MediaView>) -> Seq<Seq<char>> {
    (if is_blank(t.name) {
        seq!["track "@ + t.id + " name must not be empty"@]
    } else {
        seq![]
    }) + (if t.volume_percent > 200 {
        seq!["track "@ + t.id + " volume_percent must be between 0 and 200"@]
    } else {
        seq![]
    }) + clips_messages(t.clips, media)
}

pub open spec fn tracks_messages(tracks: Seq<TrackView>, media: Seq<MediaView>) -> Seq<Seq<char>>
    decreases tracks.len(),
{
    if tracks.len() == 0 {
        seq![]
    } else {
        tracks_messages(tracks.drop_last(), media) + track_messages(tracks.last(), media)
    }
}

/// Every validation message for a project, in the order they are reported.
pub open spec fn validation_messages(p: ProjectView) -> Seq<Seq<char>> {
    (if p.schema_version != PROJECT_SCHEMA_VERSION {
        seq!["unsupported schema_version "@ + decimal(p.schema_version as nat) + "; expected 1"@]
    } else {
        seq![]
    }) + (if is_blank(p.name) {
        seq!["project name must not be empty"@]
    } else {
        seq![]
    }) + (if p.tempo_bpm < MIN_TEMPO_BPM || p.tempo_bpm > MAX_TEMPO_BPM {
        seq!["tempo_bpm must be between 20 and 300"@]
    } else {
        seq![]
    }) + tracks_messages(p.tracks, p.media) + (if has_duplicates(track_ids(p.tracks)) {
        seq!["track IDs must be unique"@]
    } else {
        seq![]
    }) + (if has_duplicates(media_ids(p.media)) {
        seq!["media IDs must be unique"@]
    } else {
        seq![]
    })
}

/// A project is valid when validation reports nothing.
pub open spec fn is_valid(p: ProjectView) -> bool {
    validation_messages(p).len() == 0
}

/// A clip breaks no rule: it has a length, and its media is known to the project.
pub open spec fn clip_ok(c: ClipView, media: Seq<MediaView>) -> bool {
    c.duration_samples > 0 && media_has_id(media, c.media_id)
}

/// A track breaks no rule: it has a name, a volume of at most 200 percent, and clips
/// that break no rule.
pub open spec fn track_ok(t: TrackView, media: Seq<MediaView>) -> bool {
    &&& !is_blank(t.name)
    &&& t.volume_percent <= MAX_TRACK_VOLUME_PERCENT
    &&& forall|j: int| 0 <= j < t.clips.len() ==> #[trigger] clip_ok(t.clips[j], media)
}

/// Every rule of a valid project, one by one.
pub open spec fn meets_rules(p: ProjectView) -> bool {
    &&& p.schema_version == PROJECT_SCHEMA_VERSION
    &&& !is_blank(p.name)
    &&& MIN_TEMPO_BPM <= p.tempo_bpm <= MAX_TEMPO_BPM
    &&& forall|i: int| 0 <= i < p.tracks.len() ==> #[trigger] track_ok(p.tracks[i], p.media)
    &&& !has_duplicates(track_ids(p.tracks))
    &&& !has_duplicates(media_ids(p.media))
}

proof fn lemma_clips_messages_empty(cs: Seq<ClipView>, media: Seq<MediaView>)
    ensures
        clips_messages(cs, media).len() == 0 <==> forall|j: int| 0 <= j < cs.len() ==> #[trigger] clip_ok(cs[j], media),
    decreases cs.len(),
{
    if cs.len() > 0 {
        lemma_clips_messages_empty(cs.drop_last(), media);
        assert forall|j: int| 0 <= j < cs.len() - 1 implies #[trigger] cs.drop_last()[j] == cs[j] by {}
        if clips_messages(cs, media).len() == 0 {
            assert forall|j: int| 0 <= j < cs.len() implies #[trigger] clip_ok(cs[j], media) by {
                if j < cs.len() - 1 {
                    assert(clip_ok(cs.drop_last()[j], media));
                }
            }
        }
        if forall|j: int| 0 <= j < cs.len() ==> #[trigger] clip_ok(cs[j], media) {
            assert(clip_ok(cs[cs.len() - 1], media));
            assert forall|j: int| 0 <= j < cs.drop_last().len() implies #[trigger] clip_ok(cs.drop_last()[j], media) by {
                assert(clip_ok(cs[j], media));
            }
        }
    }
}

proof fn lemma_tracks_messages_empty(ts: Seq<TrackView>, media: Seq<MediaView>)
    ensures
        tracks_messages(ts, media).len() == 0 <==> forall|i: int| 0 <= i < ts.len() ==> #[trigger] track_ok(ts[i], media),
    decreases ts.len(),
{
    if ts.len() > 0 {
        lemma_tracks_messages_empty(ts.drop_last(), media);
        let t = ts.last();
        lemma_clips_messages_empty(t.clips, media);
        assert(track_messages(t, media).len() == 0 <==> track_ok(t, media));
        if tracks_messages(ts, media).len() == 0 {
            assert forall|i: int| 0 <= i < ts.len() implies #[trigger] track_ok(ts[i], media) by {
                if i < ts.len() - 1 {
                    assert(ts.drop_last()[i] == ts[i]);
                    assert(track_ok(ts.drop_last()[i], media));
                }
            }
        }
        if forall|i: int| 0 <= i < ts.len() ==> #[trigger] track_ok(ts[i], media) {
            assert(track_ok(ts[ts.len() - 1], media));
            assert forall|i: int| 0 <= i < ts.drop_last().len() implies #[trigger] track_ok(ts.drop_last()[i], media) by {
                assert(ts.drop_last()[i] == ts[i]);
                assert(track_ok(ts[i], media));
            }
        }
    }
}

/// A project is valid exactly when it meets every rule: the current schema, a name,
/// a tempo from 20 to 300 BPM, tracks with names, volumes of at most 200 percent and
/// clips of some length on known media, and no identifier used twice among tracks or
/// among media references.
pub proof fn law_valid_exactly_when_rules_met(p: ProjectView)
    ensures
        is_valid(p) <==> meets_rules(p),
{
    lemma_tracks_messages_empty(p.tracks, p.media);
}

// ---------------------------------------------------------------------------
// Copies and comparisons
// ---------------------------------------------------------------------------

impl Clone for Clip {
    fn clone(&self) -> (r: Self)
        ensures
            r@ == self@,
    {
        Clip {
            id: self.id.clone(),
            media_id: self.media_id.clone(),
            start_sample: self.start_sample,
            duration_samples: self.duration_samples,
        }
    }
}

/// Copy a list of clips element by element.
pub fn clone_clips(clips: &Vec<Clip>) -> (r: Vec<Clip>)
    ensures
        clips_view(r@) == clips_view(clips@),
{
    let mut out: Vec<Clip> = Vec::new();
    let mut i: usize = 0;
    while i < clips.len()
        invariant
            i <= clips@.len(),
            out@.len() == i,
            forall|k: int| 0 <= k < i ==> #[trigger] out@[k]@ == clips@[k]@,
        decreases clips@.len() - i,
    {
        out.push(clips[i].clone());
        i = i + 1;
    }
    assert(clips_view(out@) =~= clips_view(clips@));
    out
}

impl Clone for Track {
    fn clone(&self) -> (r: Self)
        ensures
            r@ == self@,
    {
        Track {
            id: self.id.clone(),
            name: self.name.clone(),
            volume_percent: self.volume_percent,
            muted: self.muted,
            solo: self.solo,
            clips: clone_clips(&self.clips),
        }
    }
}

/// Copy a list of tracks element by element.
pub fn clone_tracks(tracks: &Vec<Track>) -> (r: Vec<Track>)
    ensures
        tracks_view(r@) == tracks_view(tracks@),
{
    let mut out: Vec<Track> = Vec::new();
    let mut i: usize = 0;
    while i < tracks.len()
        invariant
            i <= tracks@.len(),
            out@.len() == i,
            forall|k: int| 0 <= k < i ==> #[trigger] out@[k]@ == tracks@[k]@,
        decreases tracks@.len() - i,
    {
        out.push(tracks[i].clone());
        i = i + 1;
    }
    assert(tracks_view(out@) =~= tracks_view(tracks@));
    out
}

impl Clone for MediaReference {
    fn clone(&self) -> (r: Self)
        ensures
            r@ == self@,
    {
        MediaReference {
            id: self.id.clone(),
            content_hash: copy_opt_string(&self.content_hash),
            original_path: copy_opt_string(&self.original_path),
        }
    }
}

/// Copy a list of media references element by element.
pub fn clone_media(media: &Vec<MediaReference>) -> (r: Vec<MediaReference>)
    ensures
        media_view(r@) == media_view(media@),
{
    let mut out: Vec<MediaReference> = Vec::new();
    let mut i: usize = 0;
    while i < media.len()
        invariant
            i <= media@.len(),
            out@.len() == i,
            forall|k: int| 0 <= k < i ==> #[trigger] out@[k]@ == media@[k]@,
        decreases media@.len() - i,
    {
        out.push(media[i].clone());
        i = i + 1;
    }
    assert(media_view(out@) =~= media_view(media@));
    out
}

impl Clone for Project {
    fn clone(&self) -> (r: Self)
        ensures
            r@ == self@,
    {
        Project {
            schema_version: self.schema_version,
            id: self.id.clone(),
            name: self.name.clone(),
            tempo_bpm: self.tempo_bpm,
            tracks: clone_tracks(&self.tracks),
            media: clone_media(&self.media),
        }
    }
}

impl Clip {
    /// Compare every field of two clips.
    pub fn same(&self, other: &Clip) -> (b: bool)
        ensures
            b == (self@ == other@),
    {
        self.id.same(&other.id) && self.media_id.same(&other.media_id) && self.start_sample
            == other.start_sample && self.duration_samples == other.duration_samples
    }
}

impl Track {
    /// Compare every field of two tracks, clips included.
    pub fn same(&self, other: &Track) -> (b: bool)
        ensures
            b == (self@ == other@),
    {
        if !(self.id.same(&other.id) && self.name == other.name && self.volume_percent
            == other.volume_percent && self.muted == other.muted && self.solo == other.solo
            && self.clips.len() == other.clips.len()) {
            proof {
                if self@ == other@ {
                    assert(clips_view(self.clips@).len() == clips_view(other.clips@).len());
                }
            }
            return false;
        }
        let mut i: usize = 0;
        while i < self.clips.len()
            invariant
                i <= self.clips@.len(),
                self.clips@.len() == other.clips@.len(),
                forall|k: int| 0 <= k < i ==> self.clips@[k]@ == #[trigger] other.clips@[k]@,
            decreases self.clips@.len() - i,
        {
            if !self.clips[i].same(&other.clips[i]) {
                proof {
                    if self@ == other@ {
                        assert(clips_view(self.clips@)[i as int] == clips_view(
                            other.clips@,
                        )[i as int]);
                    }
                }
                return false;
            }
            i = i + 1;
        }
        assert(clips_view(self.clips@) =~= clips_view(other.clips@));
        true
    }
}

// ---------------------------------------------------------------------------
// Construction and validation
// ---------------------------------------------------------------------------

impl ValidationError {
    /// A validation error carrying the given message.
    pub fn new(message: String) -> (e: Self)
        ensures
            e@ == message@,
    {
        ValidationError { message }
    }

    /// Human-readable validation message.
    pub fn message(&self) -> (s: &str)
        ensures
            s@ == self@,
    {
        self.message.as_str()
    }
}

impl Clone for ValidationError {
    fn clone(&self) -> (r: Self)
        ensures
            r@ == self@,
    {
        ValidationError { message: self.message.clone() }
    }
}

fn push_error(errors: &mut Vec<ValidationError>, message: &Vec<char>)
    ensures
        messages_of(final(errors)@) == messages_of(old(errors)@).push(message@),
{
    let e = ValidationError::new(string_from_chars(message));
    errors.push(e);
    assert(messages_of(errors@) =~= messages_of(old(errors)@).push(message@));
}

/// True when the media list holds a reference with this identifier.
pub fn media_list_has_id(media: &Vec<MediaReference>, id: &StableId) -> (b: bool)
    ensures
        b == media_has_id(media_view(media@), id@),
{
    let mut i: usize = 0;
    while i < media.len()
        invariant
            i <= media@.len(),
            forall|k: int| 0 <= k < i ==> media@[k].id@ != id@,
        decreases media@.len() - i,
    {
        if media[i].id.same(id) {
            assert(media_view(media@)[i as int].id == id@);
            return true;
        }
        i = i + 1;
    }
    proof {
        if media_has_id(media_view(media@), id@) {
            let k = choose|k: int|
                0 <= k < media_view(media@).len() && #[trigger] media_view(media@)[k].id == id@;
            assert(media@[k].id@ == id@);
        }
    }
    false
}

/// True when two positions of the list hold the same identifier.
pub fn ids_have_duplicates(ids: &Vec<&StableId>) -> (b: bool)
    ensures
        b == has_duplicates(ids@.map_values(|id: &StableId| id@)),
{
    let ghost s = ids@.map_values(|id: &StableId| id@);
    let mut j: usize = 0;
    while j < ids.len()
        invariant
            j <= ids@.len(),
            s == ids@.map_values(|id: &StableId| id@),
            forall|a: int, b: int| 0 <= a < b < j ==> s[a] != s[b],
        decreases ids@.len() - j,
    {
        let mut i: usize = 0;
        while i < j
            invariant
                i <= j < ids@.len(),
                s == ids@.map_values(|id: &StableId| id@),
                forall|a: int, b: int| 0 <= a < b < j ==> s[a] != s[b],
                forall|a: int| 0 <= a < i ==> s[a] != s[j as int],
            decreases j - i,
        {
            if ids[i].same(ids[j]) {
                assert(s[i as int] == s[j as int]);
                return true;
            }
            i = i + 1;
        }
        j = j + 1;
    }
    false
}

fn push_clip_messages(
    errors: &mut Vec<ValidationError>,
    clip: &Clip,
    media: &Vec<MediaReference>,
)
    ensures
        messages_of(final(errors)@) == messages_of(old(errors)@) + clip_messages(
            clip@,
            media_view(media@),
        ),
{
    let ghost before = messages_of(errors@);
    if clip.duration_samples == 0 {
        let mut m: Vec<char> = Vec::new();
        push_str(&mut m, "clip ");
        push_id(&mut m, &clip.id);
        push_str(&mut m, " duration_samples must be greater than zero");
        push_error(errors, &m);
    }
    let ghost mid = messages_of(errors@);
    if !media_list_has_id(media, &clip.media_id) {
        let mut m: Vec<char> = Vec::new();
        push_str(&mut m, "clip ");
        push_id(&mut m, &clip.id);
        push_str(&mut m, " references unknown media ");
        push_id(&mut m, &clip.media_id);
        push_error(errors, &m);
    }
    assert(messages_of(errors@) =~= before + clip_messages(clip@, media_view(media@)));
}

fn push_track_messages(
    errors: &mut Vec<ValidationError>,
    track: &Track,
    media: &Vec<MediaReference>,
)
    ensures
        messages_of(final(errors)@) == messages_of(old(errors)@) + track_messages(
            track@,
            media_view(media@),
        ),
{
    let ghost before = messages_of(errors@);
    let ghost mv = media_view(media@);
    if str_is_blank(track.name.as_str()) {
        let mut m: Vec<char> = Vec::new();
        push_str(&mut m, "track ");
        push_id(&mut m, &track.id);
        push_str(&mut m, " name must not be empty");
        push_error(errors, &m);
    }
    if track.volume_percent > MAX_TRACK_VOLUME_PERCENT {
        let mut m: Vec<char> = Vec::new();
        push_str(&mut m, "track ");
        push_id(&mut m, &track.id);
        push_str(&mut m, " volume_percent must be between 0 and 200");
        push_error(errors, &m);
    }
    let ghost head = messages_of(errors@);
    let mut i: usize = 0;
    while i < track.clips.len()
        invariant
            i <= track.clips@.len(),
            mv == media_view(media@),
            messages_of(errors@) == head + clips_messages(
                clips_view(track.clips@).subrange(0, i as int),
                mv,
            ),
        decreases track.clips@.len() - i,
    {
        push_clip_messages(errors, &track.clips[i], media);
        proof {
            let cv = clips_view(track.clips@);
            assert(cv.subrange(0, i + 1).drop_last() =~= cv.subrange(0, i as int));
            assert(cv.subrange(0, i + 1).last() == track.clips@[i as int]@);
        }
        i = i + 1;
    }
    assert(clips_view(track.clips@).subrange(0, i as int) =~= clips_view(track.clips@));
    assert(messages_of(errors@) =~= before + track_messages(track@, mv));
}

impl Project {
    /// Create a new empty project with a generated stable ID.
    pub fn new(name: &str) -> (p: Self)
        ensures
            p@.schema_version == PROJECT_SCHEMA_VERSION,
            p@.name == name@,
            p@.tempo_bpm == DEFAULT_TEMPO_BPM,
            exists|seed: u128| p@.id == id_text(seed),
            p@.tracks.len() == 0,
            p@.media.len() == 0,
            is_valid(p@) <==> !is_blank(name@),
    {
        Project {
            schema_version: PROJECT_SCHEMA_VERSION,
            id: StableId::new(),
            name: name.to_owned(),
            tempo_bpm: DEFAULT_TEMPO_BPM,
            tracks: Vec::new(),
            media: Vec::new(),
        }
    }

    /// Return all validation errors for this project.
    pub fn validate(&self) -> (errors: Vec<ValidationError>)
        ensures
            messages_of(errors@) == validation_messages(self@),
    {
        let mut errors: Vec<ValidationError> = Vec::new();
        let ghost mv = media_view(self.media@);
        let ghost tv = tracks_view(self.tracks@);
        if self.schema_version != PROJECT_SCHEMA_VERSION {
            let mut m: Vec<char> = Vec::new();
            push_str(&mut m, "unsupported schema_version ");
            push_decimal(&mut m, self.schema_version as u128);
            push_str(&mut m, "; expected 1");
            push_error(&mut errors, &m);
        }
        if str_is_blank(self.name.as_str()) {
            let mut m: Vec<char> = Vec::new();
            push_str(&mut m, "project name must not be empty");
            push_error(&mut errors, &m);
        }
        if self.tempo_bpm < MIN_TEMPO_BPM || self.tempo_bpm > MAX_TEMPO_BPM {
            let mut m: Vec<char> = Vec::new();
            push_str(&mut m, "tempo_bpm must be between 20 and 300");
            push_error(&mut errors, &m);
        }
        let ghost head = messages_of(errors@);
        let mut seen_tracks: Vec<&StableId> = Vec::new();
        let mut i: usize = 0;
        while i < self.tracks.len()
            invariant
                i <= self.tracks@.len(),
                mv == media_view(self.media@),
                tv == tracks_view(self.tracks@),
                messages_of(errors@) == head + tracks_messages(tv.subrange(0, i as int), mv),
                seen_tracks@.len() == i,
                forall|k: int| 0 <= k < i ==> #[trigger] seen_tracks@[k]@ == tv[k].id,
            decreases self.tracks@.len() - i,
        {
            push_track_messages(&mut errors, &self.tracks[i], &self.media);
            seen_tracks.push(&self.tracks[i].id);
            proof {
                assert(tv.subrange(0, i + 1).drop_last() =~= tv.subrange(0, i as int));
                assert(tv.subrange(0, i + 1).last() == self.tracks@[i as int]@);
            }
            i = i + 1;
        }
        assert(tv.subrange(0, i as int) =~= tv);
        assert(seen_tracks@.map_values(|id: &StableId| id@) =~= track_ids(tv));
        let ghost after_tracks = messages_of(errors@);
        if ids_have_duplicates(&seen_tracks) {
            let mut m: Vec<char> = Vec::new();
            push_str(&mut m, "track IDs must be unique");
            push_error(&mut errors, &m);
        }
        let mut seen_media: Vec<&StableId> = Vec::new();
        let mut j: usize = 0;
        while j < self.media.len()
            invariant
                j <= self.media@.len(),
                mv == media_view(self.media@),
                seen_media@.len() == j,
                forall|k: int| 0 <= k < j ==> #[trigger] seen_media@[k]@ == mv[k].id,
            decreases self.media@.len() - j,
        {
            seen_media.push(&self.media[j].id);
            j = j + 1;
        }
        assert(seen_media@.map_values(|id: &StableId| id@) =~= media_ids(mv));
        if ids_have_duplicates(&seen_media) {
            let mut m: Vec<char> = Vec::new();
            push_str(&mut m, "media IDs must be unique");
            push_error(&mut errors, &m);
        }
        assert(messages_of(errors@) =~= validation_messages(self@));
        errors
    }
}

impl Track {
    /// Create a new empty track with a generated stable ID and unity volume.
    pub fn new(name: &str) -> (t: Self)
        ensures
            t@.name == name@,
            exists|seed: u128| t@.id == id_text(seed),
            t@.volume_percent == DEFAULT_TRACK_VOLUME_PERCENT,
            !t@.muted,
            !t@.solo,
            t@.clips.len() == 0,
    {
        Track {
            id: StableId::new(),
            name: name.to_owned(),
            volume_percent: DEFAULT_TRACK_VOLUME_PERCENT,
            muted: false,
            solo: false,
            clips: Vec::new(),
        }
    }
}

} // verus!
