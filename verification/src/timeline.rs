//! Sample-accurate timeline arithmetic used by arrangement editing.

use vstd::prelude::*;

use crate::commands::{find_clip, find_media, has_clip, lemma_first_clip_unique};
use crate::ids::StableId;
use crate::media::{find_object_in, has_hash, objects_view, waveforms_view, MediaObject, WaveformSummary, WaveformView};
use crate::model::{media_has_id, media_view, tracks_view, Clip, ClipView, Project, Track, TrackView};
use crate::text::{chars_of, str_eq, string_from_chars};
use crate::vcs::{trim, trim_spec};

verus! {

/// Offline render sample rate that timeline positions are measured in.
pub const TIMELINE_SAMPLE_RATE: u64 = 48_000;

/// The grid point nearest to `sample`, ties rounding up, for a grid of `grid` samples.
pub open spec fn nearest_grid_point(sample: int, grid: int) -> int
    recommends grid > 0,
{
    let lower = sample - sample % grid;
    if sample % grid >= grid - sample % grid { lower + grid } else { lower }
}

/// Where `sample` snaps to on an optional grid: the nearest grid point, held at
/// `u64::MAX`; without a grid (or with a zero one) the sample itself.
pub open spec fn snapped_position(sample: int, grid_samples: Option<u64>) -> int {
    match grid_samples {
        Some(g) if g > 0 => if nearest_grid_point(sample, g as int) > u64::MAX {
            u64::MAX as int
        } else {
            nearest_grid_point(sample, g as int)
        },
        _ => sample,
    }
}

/// Snap a sample position to the nearest line of an optional grid.
pub fn snap_sample(sample: u64, grid_samples: Option<u64>) -> (snapped: u64)
    ensures
        snapped == snapped_position(sample as int, grid_samples),
{
    let grid = match grid_samples {
        Some(g) if g > 0 => g,
        _ => return sample,
    };
    let remainder = sample % grid;
    proof {
        vstd::arithmetic::div_mod::lemma_mod_decreases(sample as nat, grid as nat);
    }
    let lower = sample - remainder;
    if remainder >= grid - remainder {
        lower.saturating_add(grid)
    } else {
        lower
    }
}

/// Snapping lands on a grid line, at most half a grid step away from the position.
pub proof fn law_snap_lands_on_grid(sample: u64, grid: u64)
    requires
        grid > 0,
    ensures
        nearest_grid_point(sample as int, grid as int) % (grid as int) == 0,
        2 * (nearest_grid_point(sample as int, grid as int) - sample) <= grid,
        2 * (sample - nearest_grid_point(sample as int, grid as int)) < grid,
{
    let g = grid as int;
    let x = sample as int;
    let r = x % g;
    vstd::arithmetic::div_mod::lemma_fundamental_div_mod(x, g);
    let q = x / g;
    assert(x - r == q * g);
    vstd::arithmetic::div_mod::lemma_mod_multiples_basic(q, g);
    vstd::arithmetic::div_mod::lemma_mod_multiples_basic(q + 1, g);
    assert((q + 1) * g == q * g + g) by (nonlinear_arith);
}

/// Snapping a position that is already on the grid leaves it where it is.
pub proof fn law_snap_keeps_grid_points(k: u64, grid: u64)
    requires
        grid > 0,
        k * grid <= u64::MAX,
    ensures
        nearest_grid_point(k * grid, grid as int) == k * grid,
{
    vstd::arithmetic::div_mod::lemma_mod_multiples_basic(k as int, grid as int);
}

/// Shortest timeline shown, in samples.
pub const MIN_TIMELINE_SAMPLES: u64 = 240_000;

/// Default snap grid spacing in milliseconds.
pub const DEFAULT_SNAP_GRID_MS: u32 = 250;

/// Samples in one beat at `tempo` beats per minute and `rate` samples per second,
/// rounded to the nearest sample (halves up); a tempo of zero counts as one.
pub open spec fn beat_samples(tempo: int, rate: int) -> int {
    let b = if tempo < 1 { 1 } else { tempo };
    (120 * rate + b) / (2 * b)
}

/// Samples in one beat at the timeline sample rate.
pub fn samples_per_beat(tempo_bpm: u16) -> (s: u64)
    ensures
        s == beat_samples(tempo_bpm as int, TIMELINE_SAMPLE_RATE as int),
{
    let b: u64 = if tempo_bpm < 1 { 1 } else { tempo_bpm as u64 };
    (120 * TIMELINE_SAMPLE_RATE + b) / (2 * b)
}

/// Snap grid spacing in samples for a spacing in milliseconds, rounded down.
pub fn snap_grid_samples_from_ms(milliseconds: u32) -> (s: u64)
    ensures
        s == (milliseconds as int) * (TIMELINE_SAMPLE_RATE as int) / 1000,
{
    (milliseconds as u64) * TIMELINE_SAMPLE_RATE / 1_000
}

/// A sample position moved by a signed delta, held between zero and `u64::MAX`.
pub open spec fn shifted_position(sample: int, delta: int) -> int {
    if sample + delta < 0 {
        0
    } else if sample + delta > u64::MAX {
        u64::MAX as int
    } else {
        sample + delta
    }
}

/// Move a sample position by a signed delta, stopping at zero and at `u64::MAX`.
pub fn apply_sample_delta(sample: u64, delta: i64) -> (s: u64)
    ensures
        s == shifted_position(sample as int, delta as int),
{
    if delta >= 0 {
        sample.saturating_add(delta as u64)
    } else {
        let magnitude: u64 = if delta == i64::MIN {
            9_223_372_036_854_775_808
        } else {
            (-delta) as u64
        };
        sample.saturating_sub(magnitude)
    }
}

/// Where a clip ends on the timeline, stopping at `u64::MAX`.
pub open spec fn clip_end(c: ClipView) -> int {
    if c.start_sample + c.duration_samples > u64::MAX {
        u64::MAX as int
    } else {
        c.start_sample + c.duration_samples
    }
}

/// The end of a recording in progress that starts at `start` and has `length` samples.
pub open spec fn live_end(live: Option<(u64, u64)>) -> int {
    match live {
        Some((start, length)) => if start + length > u64::MAX {
            u64::MAX as int
        } else {
            start + length
        },
        None => MIN_TIMELINE_SAMPLES as int,
    }
}

/// `span` is the largest of the minimum span, the live recording's end and every
/// clip's end.
pub open spec fn is_timeline_span(ts: Seq<TrackView>, live: Option<(u64, u64)>, span: int) -> bool {
    &&& span >= MIN_TIMELINE_SAMPLES
    &&& span >= live_end(live)
    &&& forall|t: int, c: int|
        0 <= t < ts.len() && 0 <= c < ts[t].clips.len() ==> span >= clip_end(#[trigger] ts[t].clips[c])
    &&& (span == MIN_TIMELINE_SAMPLES || span == live_end(live) || exists|t: int, c: int|
        0 <= t < ts.len() && 0 <= c < ts[t].clips.len() && span == clip_end(#[trigger] ts[t].clips[c]))
}

/// Samples the arrangement view spans: enough for every clip and for a recording in
/// progress (its start and length), and never less than the minimum.
pub fn timeline_sample_span(project: &Project, live_recording: Option<(u64, u64)>) -> (span: u64)
    ensures
        is_timeline_span(tracks_view(project.tracks@), live_recording, span as int),
{
    let ghost ts = tracks_view(project.tracks@);
    let mut span: u64 = match live_recording {
        Some((start, length)) => start.saturating_add(length),
        None => MIN_TIMELINE_SAMPLES,
    };
    if span < MIN_TIMELINE_SAMPLES {
        span = MIN_TIMELINE_SAMPLES;
    }
    let mut t: usize = 0;
    while t < project.tracks.len()
        invariant
            t <= project.tracks@.len(),
            ts == tracks_view(project.tracks@),
            span >= MIN_TIMELINE_SAMPLES,
            span >= live_end(live_recording),
            forall|u: int, c: int|
                0 <= u < t && 0 <= c < ts[u].clips.len() ==> span >= clip_end(#[trigger] ts[u].clips[c]),
            span == MIN_TIMELINE_SAMPLES || span == live_end(live_recording) || exists|u: int, c: int|
                0 <= u < t && 0 <= c < ts[u].clips.len() && span == clip_end(#[trigger] ts[u].clips[c]),
        decreases project.tracks@.len() - t,
    {
        let clips = &project.tracks[t].clips;
        let mut c: usize = 0;
        while c < clips.len()
            invariant
                t < project.tracks@.len(),
                c <= clips@.len(),
                clips@ == project.tracks@[t as int].clips@,
                ts == tracks_view(project.tracks@),
                span >= MIN_TIMELINE_SAMPLES,
                span >= live_end(live_recording),
                forall|u: int, k: int|
                    0 <= u < t && 0 <= k < ts[u].clips.len() ==> span >= clip_end(#[trigger] ts[u].clips[k]),
                forall|k: int| 0 <= k < c ==> span >= clip_end(#[trigger] ts[t as int].clips[k]),
                span == MIN_TIMELINE_SAMPLES || span == live_end(live_recording) || (exists|u: int, k: int|
                    0 <= u < t && 0 <= k < ts[u].clips.len() && span == clip_end(#[trigger] ts[u].clips[k]))
                    || (exists|k: int| 0 <= k < c && span == clip_end(#[trigger] ts[t as int].clips[k])),
            decreases clips@.len() - c,
        {
            let end = clips[c].start_sample.saturating_add(clips[c].duration_samples);
            assert(ts[t as int].clips[c as int] == clips@[c as int]@);
            if end > span {
                span = end;
            }
            c = c + 1;
        }
        proof {
            assert forall|u: int, k: int|
                0 <= u < t + 1 && 0 <= k < ts[u].clips.len() implies span >= clip_end(
                #[trigger] ts[u].clips[k],
            ) by {
                if u == t {
                }
            }
        }
        t = t + 1;
    }
    span
}

/// The clips of every track, tracks in order.
pub open spec fn all_clips(ts: Seq<TrackView>) -> Seq<ClipView>
    decreases ts.len(),
{
    if ts.len() == 0 {
        seq![]
    } else {
        all_clips(ts.drop_last()) + ts.last().clips
    }
}

proof fn lemma_all_clips_empty(ts: Seq<TrackView>)
    requires
        forall|u: int| 0 <= u < ts.len() ==> (#[trigger] ts[u]).clips.len() == 0,
    ensures
        all_clips(ts).len() == 0,
    decreases ts.len(),
{
    if ts.len() > 0 {
        lemma_all_clips_empty(ts.drop_last());
    }
}

proof fn lemma_all_clips_first(ts: Seq<TrackView>, t: int)
    requires
        0 <= t < ts.len(),
        ts[t].clips.len() > 0,
        forall|u: int| 0 <= u < t ==> (#[trigger] ts[u]).clips.len() == 0,
    ensures
        all_clips(ts).len() > 0,
        all_clips(ts)[0] == ts[t].clips[0],
    decreases ts.len(),
{
    if t == ts.len() - 1 {
        lemma_all_clips_empty(ts.drop_last());
        assert(all_clips(ts) =~= all_clips(ts.drop_last()) + ts.last().clips);
    } else {
        lemma_all_clips_first(ts.drop_last(), t);
    }
}

/// The first clip on the timeline, tracks in order.
pub fn first_project_clip(project: &Project) -> (r: Option<&Clip>)
    ensures
        match r {
            Some(c) => all_clips(tracks_view(project.tracks@)).len() > 0 && c@ == all_clips(
                tracks_view(project.tracks@),
            )[0],
            None => all_clips(tracks_view(project.tracks@)).len() == 0,
        },
{
    let ghost ts = tracks_view(project.tracks@);
    let mut t: usize = 0;
    while t < project.tracks.len()
        invariant
            t <= project.tracks@.len(),
            ts == tracks_view(project.tracks@),
            forall|u: int| 0 <= u < t ==> (#[trigger] ts[u]).clips.len() == 0,
        decreases project.tracks@.len() - t,
    {
        if project.tracks[t].clips.len() > 0 {
            proof {
                lemma_all_clips_first(ts, t as int);
            }
            return Some(&project.tracks[t].clips[0]);
        }
        t = t + 1;
    }
    proof {
        lemma_all_clips_empty(ts);
    }
    None
}

/// The first clip with the selected identifier, if any is selected and found.
pub fn selected_clip<'a>(project: &'a Project, clip_id: Option<&StableId>) -> (r: Option<&'a Clip>)
    ensures
        match clip_id {
            None => r is None,
            Some(id) => match r {
                Some(c) => has_clip(tracks_view(project.tracks@), id@) && {
                    let (t, k) = crate::commands::first_clip(tracks_view(project.tracks@), id@);
                    c@ == tracks_view(project.tracks@)[t].clips[k]
                },
                None => !has_clip(tracks_view(project.tracks@), id@),
            },
        },
{
    match clip_id {
        None => None,
        Some(id) => match find_clip(&project.tracks, id) {
            Some((t, c)) => {
                proof {
                    lemma_first_clip_unique(tracks_view(project.tracks@), id@, t as int, c as int);
                }
                Some(&project.tracks[t].clips[c])
            },
            None => None,
        },
    }
}

/// The text after the last `/`, or all of it when there is none.
pub open spec fn last_path_segment(path: Seq<char>) -> Seq<char>
    decreases path.len(),
{
    if path.len() == 0 {
        path
    } else if path.last() == '/' {
        seq![]
    } else {
        last_path_segment(path.drop_last()).push(path.last())
    }
}

fn last_segment(path: &str) -> (r: String)
    ensures
        r@ == last_path_segment(path@),
{
    let chars = chars_of(path);
    let mut k = chars.len();
    while k > 0 && chars[k - 1] != '/'
        invariant
            k <= chars@.len(),
            chars@ == path@,
            forall|j: int| k <= j < chars@.len() ==> chars@[j] != '/',
        decreases k,
    {
        k = k - 1;
    }
    let mut out: Vec<char> = Vec::new();
    let mut i = k;
    while i < chars.len()
        invariant
            k <= i <= chars@.len(),
            out@ == chars@.subrange(k as int, i as int),
        decreases chars@.len() - i,
    {
        out.push(chars[i]);
        i = i + 1;
        assert(out@ =~= chars@.subrange(k as int, i as int));
    }
    proof {
        lemma_last_segment(chars@, k as int);
    }
    string_from_chars(&out)
}

proof fn lemma_last_segment(s: Seq<char>, k: int)
    requires
        0 <= k <= s.len(),
        k == 0 || s[k - 1] == '/',
        forall|j: int| k <= j < s.len() ==> s[j] != '/',
    ensures
        last_path_segment(s) == s.subrange(k, s.len() as int),
    decreases s.len(),
{
    if s.len() == 0 {
        assert(s.subrange(k, 0) =~= s);
    } else if k == s.len() {
        assert(s.subrange(k, k) =~= Seq::<char>::empty());
    } else {
        lemma_last_segment(s.drop_last(), k);
        assert(s.drop_last().subrange(k, s.len() - 1).push(s.last()) =~= s.subrange(k, s.len() as int));
    }
}

/// The label of a clip's media: the file name of its imported original, or why there
/// is none.
pub open spec fn clip_media_label_spec(
    p: crate::model::ProjectView,
    objects: Seq<crate::media::MediaObjectView>,
    clip: ClipView,
) -> Seq<char> {
    if !media_has_id(p.media, clip.media_id) {
        "missing media"@
    } else {
        let m = p.media[crate::commands::first_media(p.media, clip.media_id)];
        match m.content_hash {
            None => "unlinked media"@,
            Some(h) => if has_hash(objects, h) {
                last_path_segment(objects[crate::media::first_hash(objects, h)].original_path)
            } else {
                "audio clip"@
            },
        }
    }
}

/// The label shown on a clip: the file name its media was imported from.
pub fn clip_media_label(project: &Project, media_objects: &Vec<MediaObject>, clip: &Clip) -> (label: String)
    ensures
        label@ == clip_media_label_spec(project@, objects_view(media_objects@), clip@),
{
    let k = match find_media(&project.media, &clip.media_id) {
        Some(k) => k,
        None => return "missing media".to_owned(),
    };
    proof {
        crate::commands::lemma_first_media_unique(media_view(project.media@), clip.media_id@, k as int);
    }
    let hash = match &project.media[k].content_hash {
        Some(h) => h,
        None => return "unlinked media".to_owned(),
    };
    match find_object_in(media_objects, hash.as_str()) {
        Some(j) => {
            proof {
                crate::media::lemma_first_hash_unique(objects_view(media_objects@), hash@, j as int);
            }
            last_segment(media_objects[j].original_path.as_str())
        },
        None => "audio clip".to_owned(),
    }
}


/// `k` is the first waveform with this hash.
pub open spec fn is_first_waveform(ws: Seq<WaveformView>, hash: Seq<char>, k: int) -> bool {
    &&& 0 <= k < ws.len()
    &&& ws[k].hash == hash
    &&& forall|j: int| 0 <= j < k ==> #[trigger] ws[j].hash != hash
}

/// The cached waveform of a clip's media: the first waveform with the content hash of the
/// clip's media reference, if it has one.
pub fn clip_waveform<'a>(project: &Project, waveforms: &'a Vec<WaveformSummary>, clip: &Clip) -> (r: Option<
    &'a WaveformSummary,
>)
    ensures
        match r {
            Some(w) => media_has_id(project@.media, clip@.media_id) && {
                let m = project@.media[crate::commands::first_media(project@.media, clip@.media_id)];
                m.content_hash matches Some(h) && exists|k: int|
                    is_first_waveform(waveforms_view(waveforms@), h, k) && w@ == waveforms_view(waveforms@)[k]
            },
            None => !media_has_id(project@.media, clip@.media_id) || {
                let m = project@.media[crate::commands::first_media(project@.media, clip@.media_id)];
                m.content_hash is None || forall|k: int|
                    0 <= k < waveforms@.len() ==> #[trigger] waveforms@[k]@.hash != m.content_hash->Some_0
            },
        },
{
    let k = match find_media(&project.media, &clip.media_id) {
        Some(k) => k,
        None => return None,
    };
    proof {
        crate::commands::lemma_first_media_unique(media_view(project.media@), clip.media_id@, k as int);
    }
    let hash = match &project.media[k].content_hash {
        Some(h) => h,
        None => return None,
    };
    let ghost ws = waveforms_view(waveforms@);
    assert(project@.media[k as int].content_hash == Some(hash@));
    let mut i: usize = 0;
    while i < waveforms.len()
        invariant
            i <= waveforms@.len(),
            ws == waveforms_view(waveforms@),
            media_has_id(project@.media, clip@.media_id),
            k as int == crate::commands::first_media(project@.media, clip@.media_id),
            project@.media[k as int].content_hash == Some(hash@),
            forall|j: int| 0 <= j < i ==> #[trigger] ws[j].hash != hash@,
        decreases waveforms@.len() - i,
    {
        if crate::text::str_eq(waveforms[i].hash.as_str(), hash.as_str()) {
            assert(is_first_waveform(ws, hash@, i as int));
            assert(ws[i as int] == waveforms@[i as int]@);
            return Some(&waveforms[i]);
        }
        i = i + 1;
    }
    assert forall|j: int| 0 <= j < waveforms@.len() implies #[trigger] waveforms@[j]@.hash != hash@ by {
        assert(ws[j] == waveforms@[j]@);
    }
    None
}

/// Beats in a bar of the arrangement's metronome.
pub const BEATS_PER_BAR: u64 = 4;

/// Bars of metronome clicks that cover `frames` frames at `tempo` beats per minute: the
/// frames over the bar length, rounded up, at least one.
pub open spec fn metronome_bars_spec(frames: int, tempo: int) -> int {
    let bar = beat_samples(tempo, TIMELINE_SAMPLE_RATE as int) * 4;
    let bar_frames = if bar < 1 { 1 } else if bar > usize::MAX { usize::MAX as int } else { bar };
    let q = if frames % bar_frames == 0 { frames / bar_frames } else { frames / bar_frames + 1 };
    if q < 1 { 1 } else { q }
}

/// The number of metronome bars to mix into `frames` frames of playback, or why there is
/// no such number.
pub fn metronome_bars_for(frames: usize, tempo_bpm: u16) -> (r: Result<u32, String>)
    ensures
        match r {
            Ok(n) => n == metronome_bars_spec(frames as int, tempo_bpm as int),
            Err(m) => metronome_bars_spec(frames as int, tempo_bpm as int) > u32::MAX && m@
                == "Metronome render is too long"@,
        },
{
    let beat = samples_per_beat(tempo_bpm);
    proof {
        let b: int = if tempo_bpm < 1 { 1 } else { tempo_bpm as int };
        assert(beat <= 5_760_000) by (nonlinear_arith)
            requires
                b >= 1,
                beat == (5_760_000 + b) / (2 * b),
        ;
    }
    let bar: u64 = beat * BEATS_PER_BAR;
    let bar1: u64 = if bar < 1 { 1 } else { bar };
    let bar_frames: usize = if bar1 as u128 > usize::MAX as u128 { usize::MAX } else { bar1 as usize };
    let q = if frames % bar_frames == 0 { frames / bar_frames } else {
        proof {
            assert(frames / bar_frames < frames) by (nonlinear_arith)
                requires
                    frames % bar_frames != 0,
                    bar_frames > 0,
            ;
        }
        frames / bar_frames + 1
    };
    let bars = if q < 1 { 1 } else { q };
    if bars as u128 > u32::MAX as u128 {
        return Err("Metronome render is too long".to_owned());
    }
    Ok(bars as u32)
}


// ---------------------------------------------------------------------------
// Snap grids and clip dragging
// ---------------------------------------------------------------------------

/// What the arrangement snaps to.
#[derive(Debug, Clone, Copy, PartialEq, Eq, Structural)]
pub enum SnapMode {
    /// A fixed spacing in milliseconds.
    Time,
    /// A subdivision of the project's beat.
    Beat,
}

/// The lines of the arrangement's grid: the spacing that positions snap to, and the
/// beat and bar spacing that are drawn more strongly.
#[derive(Debug, Clone, Copy, PartialEq, Eq, Structural)]
pub struct TimelineGrid {
    /// Spacing that clip and playhead positions snap to.
    pub snap: Option<u64>,
    /// Beat spacing, in beat mode.
    pub beat: Option<u64>,
    /// Bar spacing, in beat mode.
    pub bar: Option<u64>,
}

/// The grid for the arrangement's snap settings: none with snapping off; the
/// millisecond spacing in time mode; in beat mode the beat divided by the subdivision
/// (taken as one at least), with beats and bars of `BEATS_PER_BAR` beats.
pub open spec fn grid_spec(snap_enabled: bool, mode: SnapMode, snap_grid_ms: u32, tempo_bpm: u16, beat_division: u16) -> TimelineGrid {
    if !snap_enabled {
        TimelineGrid { snap: None, beat: None, bar: None }
    } else {
        match mode {
            SnapMode::Time => TimelineGrid {
                snap: Some((snap_grid_ms as int * TIMELINE_SAMPLE_RATE as int / 1000) as u64),
                beat: None,
                bar: None,
            },
            SnapMode::Beat => {
                let beat = beat_samples(tempo_bpm as int, TIMELINE_SAMPLE_RATE as int);
                let division: int = if beat_division < 1 { 1 } else { beat_division as int };
                TimelineGrid {
                    snap: Some((beat / division) as u64),
                    beat: Some(beat as u64),
                    bar: Some((beat * BEATS_PER_BAR as int) as u64),
                }
            },
        }
    }
}

/// The arrangement's grid for the given snap settings and project tempo.
pub fn timeline_grid(snap_enabled: bool, mode: SnapMode, snap_grid_ms: u32, tempo_bpm: u16, beat_division: u16) -> (g: TimelineGrid)
    ensures
        g == grid_spec(snap_enabled, mode, snap_grid_ms, tempo_bpm, beat_division),
{
    if !snap_enabled {
        return TimelineGrid { snap: None, beat: None, bar: None };
    }
    match mode {
        SnapMode::Time => TimelineGrid { snap: Some(snap_grid_samples_from_ms(snap_grid_ms)), beat: None, bar: None },
        SnapMode::Beat => {
            let beat = samples_per_beat(tempo_bpm);
            proof {
                let b: int = if tempo_bpm < 1 { 1 } else { tempo_bpm as int };
                assert(beat <= 5_760_000) by (nonlinear_arith)
                    requires
                        b >= 1,
                        beat == (5_760_000 + b) / (2 * b),
                ;
            }
            let division: u64 = if beat_division < 1 { 1 } else { beat_division as u64 };
            TimelineGrid { snap: Some(beat / division), beat: Some(beat), bar: Some(beat * BEATS_PER_BAR) }
        },
    }
}

/// A clip being dragged: where it started and where it is now.
#[derive(Debug, PartialEq, Eq)]
pub struct ClipDrag {
    /// The dragged clip.
    pub clip_id: StableId,
    /// Track the clip was on when the drag began.
    pub original_track_id: StableId,
    /// Track under the pointer now.
    pub current_track_id: StableId,
    /// Start the clip had when the drag began.
    pub original_start_sample: u64,
    /// The clip's length, which dragging keeps.
    pub duration_samples: u64,
    /// Start the clip would have if dropped now.
    pub current_start_sample: u64,
}

pub struct ClipDragView {
    pub clip_id: Seq<char>,
    pub original_track_id: Seq<char>,
    pub current_track_id: Seq<char>,
    pub original_start_sample: u64,
    pub duration_samples: u64,
    pub current_start_sample: u64,
}

impl View for ClipDrag {
    type V = ClipDragView;

    open spec fn view(&self) -> ClipDragView {
        ClipDragView {
            clip_id: self.clip_id@,
            original_track_id: self.original_track_id@,
            current_track_id: self.current_track_id@,
            original_start_sample: self.original_start_sample,
            duration_samples: self.duration_samples,
            current_start_sample: self.current_start_sample,
        }
    }
}

/// A placement edit that a finished drag asks for.
#[derive(Debug, PartialEq, Eq)]
pub struct ClipMoveRequest {
    /// The moved clip.
    pub clip_id: StableId,
    /// Track to place it on.
    pub track_id: StableId,
    /// New start sample.
    pub start_sample: u64,
    /// Length, unchanged by the drag.
    pub duration_samples: u64,
}

pub struct ClipMoveRequestView {
    pub clip_id: Seq<char>,
    pub track_id: Seq<char>,
    pub start_sample: u64,
    pub duration_samples: u64,
}

impl View for ClipMoveRequest {
    type V = ClipMoveRequestView;

    open spec fn view(&self) -> ClipMoveRequestView {
        ClipMoveRequestView {
            clip_id: self.clip_id@,
            track_id: self.track_id@,
            start_sample: self.start_sample,
            duration_samples: self.duration_samples,
        }
    }
}

/// What the pointer did to a clip in the arrangement.
#[derive(Debug, PartialEq, Eq)]
pub enum DragEvent {
    /// The pointer pressed on a clip.
    Begin { clip_id: StableId, track_id: StableId, start_sample: u64, duration_samples: u64 },
    /// The pointer moved over a track lane, `delta_samples` from where the drag began.
    Update { track_id: StableId, delta_samples: i64, snap_grid_samples: Option<u64> },
    /// The pointer was released.
    End,
}

pub enum DragEventView {
    Begin { clip_id: Seq<char>, track_id: Seq<char>, start_sample: u64, duration_samples: u64 },
    Update { track_id: Seq<char>, delta_samples: i64, snap_grid_samples: Option<u64> },
    End,
}

impl View for DragEvent {
    type V = DragEventView;

    open spec fn view(&self) -> DragEventView {
        match self {
            DragEvent::Begin { clip_id, track_id, start_sample, duration_samples } => DragEventView::Begin {
                clip_id: clip_id@,
                track_id: track_id@,
                start_sample: *start_sample,
                duration_samples: *duration_samples,
            },
            DragEvent::Update { track_id, delta_samples, snap_grid_samples } => DragEventView::Update {
                track_id: track_id@,
                delta_samples: *delta_samples,
                snap_grid_samples: *snap_grid_samples,
            },
            DragEvent::End => DragEventView::End,
        }
    }
}

pub open spec fn drag_view(d: Option<ClipDrag>) -> Option<ClipDragView> {
    match d {
        Some(x) => Some(x@),
        None => None,
    }
}

pub open spec fn request_view(r: Option<ClipMoveRequest>) -> Option<ClipMoveRequestView> {
    match r {
        Some(x) => Some(x@),
        None => None,
    }
}

/// One step of clip dragging. A press starts a drag at the clip's own track and
/// start. A move, while a drag is on, puts the clip on the lane's track at its
/// original start moved by the delta and snapped to the grid; with no drag it does
/// nothing. A release ends the drag and asks to place the clip at its current track
/// and start, keeping its length, exactly when the track or the start changed.
pub open spec fn drag_step_spec(drag: Option<ClipDragView>, event: DragEventView) -> (Option<ClipDragView>, Option<ClipMoveRequestView>) {
    match event {
        DragEventView::Begin { clip_id, track_id, start_sample, duration_samples } => (
            Some(ClipDragView {
                clip_id,
                original_track_id: track_id,
                current_track_id: track_id,
                original_start_sample: start_sample,
                duration_samples,
                current_start_sample: start_sample,
            }),
            None,
        ),
        DragEventView::Update { track_id, delta_samples, snap_grid_samples } => match drag {
            Some(d) => (
                Some(ClipDragView {
                    current_track_id: track_id,
                    current_start_sample: snapped_position(
                        shifted_position(d.original_start_sample as int, delta_samples as int),
                        snap_grid_samples,
                    ) as u64,
                    ..d
                }),
                None,
            ),
            None => (None, None),
        },
        DragEventView::End => match drag {
            Some(d) => (
                None,
                if d.current_start_sample != d.original_start_sample || d.current_track_id != d.original_track_id {
                    Some(ClipMoveRequestView {
                        clip_id: d.clip_id,
                        track_id: d.current_track_id,
                        start_sample: d.current_start_sample,
                        duration_samples: d.duration_samples,
                    })
                } else {
                    None
                },
            ),
            None => (None, None),
        },
    }
}

/// A drag commits exactly the moves it made. Starting a drag on a clip, moving it over
/// another lane by any delta and releasing it asks to place the clip on that lane's
/// track, at its original start moved by the delta and snapped, keeping its length;
/// releasing it on the track it came from, back at its original start, asks for
/// nothing; and a release with no drag under way does nothing.
pub proof fn law_drag_commits_its_move(
    clip_id: Seq<char>,
    track_id: Seq<char>,
    start_sample: u64,
    duration_samples: u64,
    target_track: Seq<char>,
    delta_samples: i64,
    grid: Option<u64>,
)
    ensures
        ({
            let begin = DragEventView::Begin { clip_id, track_id, start_sample, duration_samples };
            let update = DragEventView::Update { track_id: target_track, delta_samples, snap_grid_samples: grid };
            let dragging = drag_step_spec(None, begin).0;
            let moved = drag_step_spec(dragging, update).0;
            let released = drag_step_spec(moved, DragEventView::End);
            let new_start = snapped_position(shifted_position(start_sample as int, delta_samples as int), grid);
            &&& (target_track != track_id || new_start != start_sample) ==> released == (
                None::<ClipDragView>,
                Some(ClipMoveRequestView {
                    clip_id,
                    track_id: target_track,
                    start_sample: new_start as u64,
                    duration_samples,
                }),
            )
            &&& (target_track == track_id && new_start == start_sample) ==> released == (
                None::<ClipDragView>,
                None::<ClipMoveRequestView>,
            )
            &&& drag_step_spec(dragging, DragEventView::End) == (None::<ClipDragView>, None::<ClipMoveRequestView>)
            &&& drag_step_spec(None, DragEventView::End) == (None::<ClipDragView>, None::<ClipMoveRequestView>)
            &&& drag_step_spec(None, update) == (None::<ClipDragView>, None::<ClipMoveRequestView>)
        }),
{
    let new_start = snapped_position(shifted_position(start_sample as int, delta_samples as int), grid);
    assert(0 <= shifted_position(start_sample as int, delta_samples as int) <= u64::MAX);
    match grid {
        Some(g) => {
            if g > 0 {
                let x = shifted_position(start_sample as int, delta_samples as int);
                vstd::arithmetic::div_mod::lemma_mod_decreases(x as nat, g as nat);
                vstd::arithmetic::div_mod::lemma_mod_bound(x, g as int);
            }
        },
        None => {},
    }
    assert(0 <= new_start <= u64::MAX);
}

/// Advance clip dragging by one pointer event: the new drag state, and the placement
/// edit to commit when a release moved the clip.
pub fn clip_drag_step(drag: Option<ClipDrag>, event: DragEvent) -> (r: (Option<ClipDrag>, Option<ClipMoveRequest>))
    ensures
        (drag_view(r.0), request_view(r.1)) == drag_step_spec(drag_view(drag), event@),
{
    match event {
        DragEvent::Begin { clip_id, track_id, start_sample, duration_samples } => {
            let current_track_id = track_id.clone();
            (
                Some(ClipDrag {
                    clip_id,
                    original_track_id: track_id,
                    current_track_id,
                    original_start_sample: start_sample,
                    duration_samples,
                    current_start_sample: start_sample,
                }),
                None,
            )
        },
        DragEvent::Update { track_id, delta_samples, snap_grid_samples } => match drag {
            Some(d) => {
                let moved = apply_sample_delta(d.original_start_sample, delta_samples);
                let start = snap_sample(moved, snap_grid_samples);
                (
                    Some(ClipDrag {
                        clip_id: d.clip_id,
                        original_track_id: d.original_track_id,
                        current_track_id: track_id,
                        original_start_sample: d.original_start_sample,
                        duration_samples: d.duration_samples,
                        current_start_sample: start,
                    }),
                    None,
                )
            },
            None => (None, None),
        },
        DragEvent::End => match drag {
            Some(d) => {
                let changed = d.current_start_sample != d.original_start_sample
                    || !d.current_track_id.same(&d.original_track_id);
                if changed {
                    (
                        None,
                        Some(ClipMoveRequest {
                            clip_id: d.clip_id,
                            track_id: d.current_track_id,
                            start_sample: d.current_start_sample,
                            duration_samples: d.duration_samples,
                        }),
                    )
                } else {
                    (None, None)
                }
            },
            None => (None, None),
        },
    }
}


/// What a user did in a track's header this frame.
pub struct TrackHeaderInput {
    /// The text in the name field.
    pub name_edit: String,
    /// True when the name field was just left with Enter or a click elsewhere.
    pub name_committed: bool,
    /// True when the record-arm button was clicked.
    pub arm_clicked: bool,
    /// True when the remove button was clicked.
    pub remove_clicked: bool,
    /// The volume slider's value.
    pub volume_percent: u16,
    /// True when the volume slider moved.
    pub volume_changed: bool,
    /// True when the mute button was clicked.
    pub mute_clicked: bool,
    /// True when the solo button was clicked.
    pub solo_clicked: bool,
}

/// The edit a track header asks for.
#[derive(Debug, PartialEq, Eq)]
pub enum TrackHeaderAction {
    /// Rename the track to the edited name.
    Rename { track_id: StableId, name: String },
    /// Arm the track for recording.
    Arm { track_id: StableId },
    /// Remove the track.
    Remove { track_id: StableId },
    /// Set the track's mixer controls.
    SetControls { track_id: StableId, volume_percent: u16, muted: bool, solo: bool },
}

pub enum TrackHeaderActionView {
    Rename { track_id: Seq<char>, name: Seq<char> },
    Arm { track_id: Seq<char> },
    Remove { track_id: Seq<char> },
    SetControls { track_id: Seq<char>, volume_percent: u16, muted: bool, solo: bool },
}

impl View for TrackHeaderAction {
    type V = TrackHeaderActionView;

    open spec fn view(&self) -> TrackHeaderActionView {
        match self {
            TrackHeaderAction::Rename { track_id, name } => TrackHeaderActionView::Rename { track_id: track_id@, name: name@ },
            TrackHeaderAction::Arm { track_id } => TrackHeaderActionView::Arm { track_id: track_id@ },
            TrackHeaderAction::Remove { track_id } => TrackHeaderActionView::Remove { track_id: track_id@ },
            TrackHeaderAction::SetControls { track_id, volume_percent, muted, solo } => TrackHeaderActionView::SetControls {
                track_id: track_id@,
                volume_percent: *volume_percent,
                muted: *muted,
                solo: *solo,
            },
        }
    }
}

/// The edit a track header asks for, first match wins: a committed name whose trimmed
/// text differs from the track's name renames it (to the text as typed); a click on
/// record arms it; a click on remove removes it; a moved slider or a click on mute or
/// solo sets its controls, with mute and solo toggled by their clicks; otherwise
/// nothing.
pub open spec fn header_action_spec(t: TrackView, name_edit: Seq<char>, i: TrackHeaderInput) -> Option<TrackHeaderActionView> {
    let muted = if i.mute_clicked { !t.muted } else { t.muted };
    let solo = if i.solo_clicked { !t.solo } else { t.solo };
    if i.name_committed && trim_spec(name_edit) != t.name {
        Some(TrackHeaderActionView::Rename { track_id: t.id, name: name_edit })
    } else if i.arm_clicked {
        Some(TrackHeaderActionView::Arm { track_id: t.id })
    } else if i.remove_clicked {
        Some(TrackHeaderActionView::Remove { track_id: t.id })
    } else if i.volume_changed || muted != t.muted || solo != t.solo {
        Some(TrackHeaderActionView::SetControls { track_id: t.id, volume_percent: i.volume_percent, muted, solo })
    } else {
        None
    }
}

pub open spec fn header_view(a: Option<TrackHeaderAction>) -> Option<TrackHeaderActionView> {
    match a {
        Some(x) => Some(x@),
        None => None,
    }
}

/// The edit that a track header's input asks for.
pub fn track_header_action(track: &Track, input: &TrackHeaderInput) -> (r: Option<TrackHeaderAction>)
    ensures
        header_view(r) == header_action_spec(track@, input.name_edit@, *input),
{
    let muted = if input.mute_clicked { !track.muted } else { track.muted };
    let solo = if input.solo_clicked { !track.solo } else { track.solo };
    if input.name_committed {
        let trimmed = trim(input.name_edit.as_str());
        if !str_eq(trimmed.as_str(), track.name.as_str()) {
            return Some(TrackHeaderAction::Rename { track_id: track.id.clone(), name: input.name_edit.clone() });
        }
    }
    if input.arm_clicked {
        Some(TrackHeaderAction::Arm { track_id: track.id.clone() })
    } else if input.remove_clicked {
        Some(TrackHeaderAction::Remove { track_id: track.id.clone() })
    } else if input.volume_changed || muted != track.muted || solo != track.solo {
        Some(TrackHeaderAction::SetControls {
            track_id: track.id.clone(),
            volume_percent: input.volume_percent,
            muted,
            solo,
        })
    } else {
        None
    }
}

} // verus!
