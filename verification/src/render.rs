//! Planning a project render: how long the render is, and where each audible clip's
//! media goes in it, from a timeline start sample on.

use vstd::prelude::*;

use crate::commands::{find_media, first_media, lemma_first_media_unique};
use crate::media::{find_object_in, first_hash, has_hash, lemma_first_hash_unique, objects_view, MediaObject, MediaObjectView};
use crate::model::{media_has_id, media_view, tracks_view, Clip, ClipView, MediaView, Project, Track, TrackView};
use crate::text::{concat3, concat4};
use crate::timeline::clip_end;

verus! {

/// Where a clip's media goes in a render.
#[derive(Debug, PartialEq, Eq, Clone, Copy)]
pub struct Placement {
    /// First media frame that sounds.
    pub source_start: usize,
    /// Render frame where it sounds.
    pub destination_start: usize,
    /// Frames of the clip that sound.
    pub frames: usize,
    /// Position in the clip of the first frame that sounds.
    pub clip_offset: u64,
}

/// One audible clip of a render.
#[derive(Debug, PartialEq, Eq)]
pub struct ClipRender {
    /// Track the clip is on.
    pub track_index: usize,
    /// The clip's media object in the media list.
    pub object_index: usize,
    /// The track's volume.
    pub volume_percent: u16,
    /// Where the media goes, or why the positions do not fit in memory.
    pub placement: Result<Placement, String>,
}

pub struct ClipRenderView {
    pub track_index: usize,
    pub object_index: usize,
    pub volume_percent: u16,
    pub placement: Result<Placement, Seq<char>>,
}

impl View for ClipRender {
    type V = ClipRenderView;

    open spec fn view(&self) -> ClipRenderView {
        ClipRenderView {
            track_index: self.track_index,
            object_index: self.object_index,
            volume_percent: self.volume_percent,
            placement: match self.placement {
                Ok(p) => Ok(p),
                Err(m) => Err(m@),
            },
        }
    }
}

/// A project render: its length in frames and its audible clips, in track and clip
/// order, up to the first clip whose media cannot be found (`failure` says why).
#[derive(Debug, PartialEq, Eq)]
pub struct RenderPlan {
    pub total_frames: usize,
    pub clips: Vec<ClipRender>,
    pub failure: Option<String>,
}

/// A clip sounds in a render from `start` on when it ends after it.
pub open spec fn sounds_after(c: ClipView, start: u64) -> bool {
    clip_end(c) > start
}

/// A track is heard unless it is muted, or another track is soloed and it is not.
pub open spec fn audible(t: TrackView, solo_active: bool) -> bool {
    !t.muted && (!solo_active || t.solo)
}

pub open spec fn any_solo(ts: Seq<TrackView>) -> bool {
    exists|t: int| 0 <= t < ts.len() && (#[trigger] ts[t]).solo
}

pub open spec fn max_u64(a: int, b: int) -> int {
    if a < b { b } else { a }
}

/// Where the media of a clip goes when rendering from `start` on.
pub open spec fn placement_spec(c: ClipView, start: u64) -> Result<Placement, Seq<char>> {
    let from = max_u64(start as int, c.start_sample as int);
    let source_start = if start > c.start_sample { start - c.start_sample } else { 0 };
    let destination_start = if c.start_sample >= start { c.start_sample - start } else { 0 };
    let frames = if clip_end(c) >= from { clip_end(c) - from } else { 0 };
    if source_start > usize::MAX {
        Err("clip source start is too large"@)
    } else if destination_start > usize::MAX {
        Err("clip start is too large"@)
    } else if frames > usize::MAX {
        Err("clip duration is too large"@)
    } else {
        Ok(
            Placement {
                source_start: source_start as usize,
                destination_start: destination_start as usize,
                frames: frames as usize,
                clip_offset: (from - c.start_sample) as u64,
            },
        )
    }
}

/// The render step of one clip of track `t`: its media object and placement, or why its
/// media cannot be found.
pub open spec fn clip_step(
    c: ClipView,
    t: int,
    volume: u16,
    media: Seq<MediaView>,
    objects: Seq<MediaObjectView>,
    start: u64,
) -> Result<ClipRenderView, Seq<char>> {
    if !media_has_id(media, c.media_id) {
        Err("clip "@ + c.id + " references unknown media "@ + c.media_id)
    } else {
        let m = media[first_media(media, c.media_id)];
        match m.content_hash {
            None => Err("media "@ + m.id + " has no content hash"@),
            Some(h) => if !has_hash(objects, h) {
                Err("media hash "@ + h + " is not imported"@)
            } else {
                Ok(
                    ClipRenderView {
                        track_index: t as usize,
                        object_index: first_hash(objects, h) as usize,
                        volume_percent: volume,
                        placement: placement_spec(c, start),
                    },
                )
            },
        }
    }
}

/// The steps of the clips of track `t` that sound after `start`.
pub open spec fn track_steps(
    cs: Seq<ClipView>,
    t: int,
    volume: u16,
    media: Seq<MediaView>,
    objects: Seq<MediaObjectView>,
    start: u64,
) -> Seq<Result<ClipRenderView, Seq<char>>>
    decreases cs.len(),
{
    if cs.len() == 0 {
        seq![]
    } else {
        track_steps(cs.drop_last(), t, volume, media, objects, start) + if sounds_after(cs.last(), start) {
            seq![clip_step(cs.last(), t, volume, media, objects, start)]
        } else {
            seq![]
        }
    }
}

/// The steps of every audible track's clips, tracks in order.
pub open spec fn all_steps(
    ts: Seq<TrackView>,
    solo_active: bool,
    media: Seq<MediaView>,
    objects: Seq<MediaObjectView>,
    start: u64,
) -> Seq<Result<ClipRenderView, Seq<char>>>
    decreases ts.len(),
{
    if ts.len() == 0 {
        seq![]
    } else {
        let t = ts.len() - 1;
        all_steps(ts.drop_last(), solo_active, media, objects, start) + if audible(ts[t], solo_active) {
            track_steps(ts[t].clips, t, ts[t].volume_percent, media, objects, start)
        } else {
            seq![]
        }
    }
}

/// `total` is the render length: the minimum, or the furthest end after `start` of any
/// clip (muted or not), whichever is larger.
pub open spec fn is_render_length(ts: Seq<TrackView>, minimum: int, start: u64, total: int) -> bool {
    &&& total >= minimum
    &&& forall|t: int, c: int|
        0 <= t < ts.len() && 0 <= c < ts[t].clips.len() && sounds_after(#[trigger] ts[t].clips[c], start)
            ==> total >= clip_end(ts[t].clips[c]) - start
    &&& (total == minimum || exists|t: int, c: int|
        0 <= t < ts.len() && 0 <= c < ts[t].clips.len() && sounds_after(#[trigger] ts[t].clips[c], start)
            && total == clip_end(ts[t].clips[c]) - start)
}

/// Some clip ends further after `start` than a render buffer can hold.
pub open spec fn too_long(ts: Seq<TrackView>, start: u64) -> bool {
    exists|t: int, c: int|
        0 <= t < ts.len() && 0 <= c < ts[t].clips.len() && sounds_after(#[trigger] ts[t].clips[c], start)
            && clip_end(ts[t].clips[c]) - start > usize::MAX
}

pub open spec fn clips_view(v: Seq<ClipRender>) -> Seq<ClipRenderView> {
    v.map_values(|c: ClipRender| c@)
}

/// `clips` are the steps up to the first failed one, and `failure` is that one's reason.
pub open spec fn plan_matches(
    steps: Seq<Result<ClipRenderView, Seq<char>>>,
    clips: Seq<ClipRenderView>,
    failure: Option<Seq<char>>,
) -> bool {
    &&& clips.len() <= steps.len()
    &&& forall|i: int| 0 <= i < clips.len() ==> steps[i] == Ok::<ClipRenderView, Seq<char>>(#[trigger] clips[i])
    &&& match failure {
        None => clips.len() == steps.len(),
        Some(m) => clips.len() < steps.len() && steps[clips.len() as int] == Err::<ClipRenderView, Seq<char>>(m),
    }
}

fn u64_to_usize(x: u64) -> (r: Option<usize>)
    ensures
        r == (if x <= usize::MAX { Some(x as usize) } else { None::<usize> }),
{
    if x as u128 <= usize::MAX as u128 { Some(x as usize) } else { None }
}

/// Where a clip's media goes when rendering from `start_sample` on.
pub fn clip_placement(clip: &Clip, start_sample: u64) -> (r: Result<Placement, String>)
    ensures
        match r {
            Ok(p) => placement_spec(clip@, start_sample) == Ok::<Placement, Seq<char>>(p),
            Err(m) => placement_spec(clip@, start_sample) == Err::<Placement, Seq<char>>(m@),
        },
{
    let end = clip.start_sample.saturating_add(clip.duration_samples);
    let from = if start_sample > clip.start_sample { start_sample } else { clip.start_sample };
    let source_start = if start_sample > clip.start_sample { start_sample - clip.start_sample } else { 0 };
    let source_start = match u64_to_usize(source_start) {
        Some(v) => v,
        None => return Err("clip source start is too large".to_owned()),
    };
    let destination_start = if clip.start_sample >= start_sample { clip.start_sample - start_sample } else { 0 };
    let destination_start = match u64_to_usize(destination_start) {
        Some(v) => v,
        None => return Err("clip start is too large".to_owned()),
    };
    let frames = if end >= from { end - from } else { 0 };
    let frames = match u64_to_usize(frames) {
        Some(v) => v,
        None => return Err("clip duration is too large".to_owned()),
    };
    Ok(Placement { source_start, destination_start, frames, clip_offset: from - clip.start_sample })
}

fn render_step(
    clip: &Clip,
    t: usize,
    volume: u16,
    media: &Vec<crate::model::MediaReference>,
    objects: &Vec<MediaObject>,
    start_sample: u64,
) -> (r: Result<ClipRender, String>)
    ensures
        match r {
            Ok(c) => clip_step(clip@, t as int, volume, media_view(media@), objects_view(objects@), start_sample)
                == Ok::<ClipRenderView, Seq<char>>(c@),
            Err(m) => clip_step(clip@, t as int, volume, media_view(media@), objects_view(objects@), start_sample)
                == Err::<ClipRenderView, Seq<char>>(m@),
        },
{
    let k = match find_media(media, &clip.media_id) {
        Some(k) => k,
        None => {
            return Err(concat4("clip ", clip.id.as_str(), " references unknown media ", clip.media_id.as_str()));
        },
    };
    proof {
        lemma_first_media_unique(media_view(media@), clip.media_id@, k as int);
    }
    let hash = match &media[k].content_hash {
        Some(h) => h,
        None => {
            return Err(concat3("media ", media[k].id.as_str(), " has no content hash"));
        },
    };
    let j = match find_object_in(objects, hash.as_str()) {
        Some(j) => j,
        None => {
            return Err(concat3("media hash ", hash.as_str(), " is not imported"));
        },
    };
    proof {
        lemma_first_hash_unique(objects_view(objects@), hash@, j as int);
    }
    let placement = clip_placement(clip, start_sample);
    let r = ClipRender { track_index: t, object_index: j, volume_percent: volume, placement };
    Ok(r)
}

/// The render length from `start_sample` on for a minimum of `minimum_frames`, or why the
/// render does not fit in memory.
pub fn render_length(project: &Project, minimum_frames: usize, start_sample: u64) -> (r: Result<usize, String>)
    ensures
        match r {
            Ok(total) => !too_long(tracks_view(project.tracks@), start_sample) && is_render_length(
                tracks_view(project.tracks@),
                minimum_frames as int,
                start_sample,
                total as int,
            ),
            Err(m) => too_long(tracks_view(project.tracks@), start_sample) && m@
                == "clip timeline position is too large"@,
        },
{
    let ghost ts = tracks_view(project.tracks@);
    let mut total = minimum_frames;
    let mut t: usize = 0;
    while t < project.tracks.len()
        invariant
            t <= project.tracks@.len(),
            ts == tracks_view(project.tracks@),
            total >= minimum_frames,
            forall|u: int, c: int|
                0 <= u < t && 0 <= c < ts[u].clips.len() && sounds_after(#[trigger] ts[u].clips[c], start_sample)
                    ==> clip_end(ts[u].clips[c]) - start_sample <= usize::MAX && total >= clip_end(ts[u].clips[c]) - start_sample,
            total == minimum_frames || exists|u: int, c: int|
                0 <= u < t && 0 <= c < ts[u].clips.len() && sounds_after(#[trigger] ts[u].clips[c], start_sample)
                    && total == clip_end(ts[u].clips[c]) - start_sample,
        decreases project.tracks@.len() - t,
    {
        let clips = &project.tracks[t].clips;
        let mut c: usize = 0;
        while c < clips.len()
            invariant
                t < project.tracks@.len(),
                c <= clips@.len(),
                clips@ == project.tracks@[t as int].clips@,
                ts == tracks_view(project.tracks@),
                total >= minimum_frames,
                forall|u: int, k: int|
                    0 <= u < t && 0 <= k < ts[u].clips.len() && sounds_after(#[trigger] ts[u].clips[k], start_sample)
                        ==> clip_end(ts[u].clips[k]) - start_sample <= usize::MAX && total >= clip_end(ts[u].clips[k]) - start_sample,
                forall|k: int|
                    0 <= k < c && sounds_after(#[trigger] ts[t as int].clips[k], start_sample)
                        ==> clip_end(ts[t as int].clips[k]) - start_sample <= usize::MAX && total >= clip_end(ts[t as int].clips[k]) - start_sample,
                total == minimum_frames || (exists|u: int, k: int|
                    0 <= u < t && 0 <= k < ts[u].clips.len() && sounds_after(#[trigger] ts[u].clips[k], start_sample)
                        && total == clip_end(ts[u].clips[k]) - start_sample) || (exists|k: int|
                    0 <= k < c && sounds_after(#[trigger] ts[t as int].clips[k], start_sample)
                        && total == clip_end(ts[t as int].clips[k]) - start_sample),
            decreases clips@.len() - c,
        {
            let end = clips[c].start_sample.saturating_add(clips[c].duration_samples);
            assert(ts[t as int].clips[c as int] == clips@[c as int]@);
            if end > start_sample {
                let relative = match u64_to_usize(end - start_sample) {
                    Some(v) => v,
                    None => {
                        assert(sounds_after(ts[t as int].clips[c as int], start_sample));
                        return Err("clip timeline position is too large".to_owned());
                    },
                };
                if relative > total {
                    total = relative;
                }
            }
            c = c + 1;
        }
        proof {
            assert forall|u: int, k: int|
                0 <= u < t + 1 && 0 <= k < ts[u].clips.len() && sounds_after(#[trigger] ts[u].clips[k], start_sample)
                    implies clip_end(ts[u].clips[k]) - start_sample <= usize::MAX && total >= clip_end(ts[u].clips[k]) - start_sample by {
                if u == t {
                }
            }
        }
        t = t + 1;
    }
    proof {
        if too_long(ts, start_sample) {
            let (u, k) = choose|u: int, k: int|
                0 <= u < ts.len() && 0 <= k < ts[u].clips.len() && sounds_after(#[trigger] ts[u].clips[k], start_sample)
                    && clip_end(ts[u].clips[k]) - start_sample > usize::MAX;
            assert(clip_end(ts[u].clips[k]) - start_sample <= usize::MAX);
        }
    }
    Ok(total)
}

pub open spec fn steps_view(v: Seq<Result<ClipRender, String>>) -> Seq<Result<ClipRenderView, Seq<char>>> {
    v.map_values(
        |r: Result<ClipRender, String>|
            match r {
                Ok(c) => Ok(c@),
                Err(m) => Err(m@),
            },
    )
}

fn copy_render(c: &ClipRender) -> (r: ClipRender)
    ensures
        r@ == c@,
{
    ClipRender {
        track_index: c.track_index,
        object_index: c.object_index,
        volume_percent: c.volume_percent,
        placement: match &c.placement {
            Ok(p) => Ok(*p),
            Err(m) => Err(m.clone()),
        },
    }
}

fn solo_active(tracks: &Vec<Track>) -> (b: bool)
    ensures
        b == any_solo(tracks_view(tracks@)),
{
    let ghost ts = tracks_view(tracks@);
    let mut i: usize = 0;
    while i < tracks.len()
        invariant
            i <= tracks@.len(),
            ts == tracks_view(tracks@),
            forall|j: int| 0 <= j < i ==> !(#[trigger] ts[j]).solo,
        decreases tracks@.len() - i,
    {
        if tracks[i].solo {
            assert(ts[i as int].solo);
            return true;
        }
        i = i + 1;
    }
    false
}

fn collect_steps(
    project: &Project,
    objects: &Vec<MediaObject>,
    solo: bool,
    start_sample: u64,
) -> (steps: Vec<Result<ClipRender, String>>)
    ensures
        steps_view(steps@) == all_steps(
            tracks_view(project.tracks@),
            solo,
            media_view(project.media@),
            objects_view(objects@),
            start_sample,
        ),
{
    let ghost ts = tracks_view(project.tracks@);
    let ghost mv = media_view(project.media@);
    let ghost ov = objects_view(objects@);
    let mut steps: Vec<Result<ClipRender, String>> = Vec::new();
    let mut t: usize = 0;
    assert(steps_view(steps@) =~= all_steps(ts.subrange(0, 0), solo, mv, ov, start_sample));
    while t < project.tracks.len()
        invariant
            t <= project.tracks@.len(),
            ts == tracks_view(project.tracks@),
            mv == media_view(project.media@),
            ov == objects_view(objects@),
            steps_view(steps@) == all_steps(ts.subrange(0, t as int), solo, mv, ov, start_sample),
        decreases project.tracks@.len() - t,
    {
        let ghost before = steps_view(steps@);
        let track = &project.tracks[t];
        let heard = !track.muted && (!solo || track.solo);
        assert(heard == audible(ts[t as int], solo));
        if heard {
            let mut c: usize = 0;
            let ghost cs = ts[t as int].clips;
            assert(steps_view(steps@) =~= before + track_steps(cs.subrange(0, 0), t as int, track.volume_percent, mv, ov, start_sample));
            while c < track.clips.len()
                invariant
                    t < project.tracks@.len(),
                    track == &project.tracks@[t as int],
                    c <= track.clips@.len(),
                    cs == ts[t as int].clips,
                    ts == tracks_view(project.tracks@),
                    mv == media_view(project.media@),
                    ov == objects_view(objects@),
                    steps_view(steps@) == before + track_steps(
                        cs.subrange(0, c as int),
                        t as int,
                        track.volume_percent,
                        mv,
                        ov,
                        start_sample,
                    ),
                decreases track.clips@.len() - c,
            {
                let clip = &track.clips[c];
                assert(cs[c as int] == clip@);
                let ghost prev = steps_view(steps@);
                let end = clip.start_sample.saturating_add(clip.duration_samples);
                if end > start_sample {
                    let step = render_step(clip, t, track.volume_percent, &project.media, objects, start_sample);
                    steps.push(step);
                    assert(steps_view(steps@) =~= prev.push(
                        clip_step(clip@, t as int, track.volume_percent, mv, ov, start_sample),
                    ));
                } else {
                }
                proof {
                    let sub = cs.subrange(0, c + 1);
                    assert(sub.drop_last() =~= cs.subrange(0, c as int));
                    assert(sub.last() == clip@);
                    assert(steps_view(steps@) =~= before + track_steps(sub, t as int, track.volume_percent, mv, ov, start_sample));
                }
                c = c + 1;
            }
            assert(cs.subrange(0, c as int) =~= cs);
        }
        proof {
            let sub = ts.subrange(0, t + 1);
            assert(sub.drop_last() =~= ts.subrange(0, t as int));
            assert(sub[t as int] == ts[t as int]);
            assert(steps_view(steps@) =~= all_steps(sub, solo, mv, ov, start_sample));
        }
        t = t + 1;
    }
    assert(ts.subrange(0, t as int) =~= ts);
    steps
}

pub open spec fn plan_view_matches(p: RenderPlan, steps: Seq<Result<ClipRenderView, Seq<char>>>) -> bool {
    plan_matches(
        steps,
        clips_view(p.clips@),
        match p.failure {
            Some(m) => Some(m@),
            None => None,
        },
    )
}

/// Plan rendering a project from `start_sample` on, at least `minimum_frames` long: the
/// render length, then each clip of an audible track that sounds after the start, in
/// order, with its media object and placement, stopping at the first clip whose media
/// is unknown, has no content hash, or is not imported.
pub fn plan_project_render(
    project: &Project,
    media_objects: &Vec<MediaObject>,
    minimum_frames: usize,
    start_sample: u64,
) -> (r: Result<RenderPlan, String>)
    ensures
        match r {
            Ok(p) => {
                &&& !too_long(tracks_view(project.tracks@), start_sample)
                &&& is_render_length(tracks_view(project.tracks@), minimum_frames as int, start_sample, p.total_frames as int)
                &&& plan_view_matches(
                    p,
                    all_steps(
                        tracks_view(project.tracks@),
                        any_solo(tracks_view(project.tracks@)),
                        media_view(project.media@),
                        objects_view(media_objects@),
                        start_sample,
                    ),
                )
            },
            Err(m) => too_long(tracks_view(project.tracks@), start_sample) && m@ == "clip timeline position is too large"@,
        },
{
    let total_frames = match render_length(project, minimum_frames, start_sample) {
        Ok(n) => n,
        Err(m) => return Err(m),
    };
    let solo = solo_active(&project.tracks);
    let steps = collect_steps(project, media_objects, solo, start_sample);
    let ghost sv = steps_view(steps@);
    let mut clips: Vec<ClipRender> = Vec::new();
    let mut failure: Option<String> = None;
    let mut i: usize = 0;
    while i < steps.len()
        invariant_except_break
            failure is None,
        invariant
            i <= steps@.len(),
            sv == steps_view(steps@),
            clips@.len() == i,
            forall|j: int| 0 <= j < i ==> sv[j] == Ok::<ClipRenderView, Seq<char>>(#[trigger] clips@[j]@),
        ensures
            match failure {
                None => i == steps@.len(),
                Some(m) => i < steps@.len() && sv[i as int] == Err::<ClipRenderView, Seq<char>>(m@),
            },
        decreases steps@.len() - i,
    {
        match &steps[i] {
            Ok(c) => {
                clips.push(copy_render(c));
            },
            Err(m) => {
                failure = Some(m.clone());
                break;
            },
        }
        i = i + 1;
    }
    let plan = RenderPlan { total_frames, clips, failure };
    assert(clips_view(plan.clips@).len() == i);
    assert forall|j: int| 0 <= j < clips_view(plan.clips@).len() implies sv[j] == Ok::<ClipRenderView, Seq<char>>(
        #[trigger] clips_view(plan.clips@)[j],
    ) by {
        assert(clips_view(plan.clips@)[j] == plan.clips@[j]@);
    }
    Ok(plan)
}

// ---------------------------------------------------------------------------
// Laws
// ---------------------------------------------------------------------------

/// Rendering from a start sample trims a clip that began before it and shifts a clip
/// that begins after it earlier: the clip's media from position `max(start, clip start)`
/// on sounds at that position minus the start, until the clip's end.
pub proof fn law_render_trims_and_shifts(c: ClipView, start: u64)
    requires
        sounds_after(c, start),
        placement_spec(c, start) is Ok,
    ensures
        ({
            let p = placement_spec(c, start)->Ok_0;
            let from = max_u64(start as int, c.start_sample as int);
            &&& p.destination_start + start == from
            &&& p.source_start + c.start_sample == from
            &&& p.frames == clip_end(c) - from
            &&& p.clip_offset == p.source_start
        }),
{
    let from = max_u64(start as int, c.start_sample as int);
    let source_start = if start > c.start_sample { start - c.start_sample } else { 0 };
    let destination_start = if c.start_sample >= start { c.start_sample - start } else { 0 };
    let frames = if clip_end(c) >= from { clip_end(c) - from } else { 0 };
    assert(0 <= source_start <= usize::MAX);
    assert(0 <= destination_start <= usize::MAX);
    assert(0 <= frames <= usize::MAX);
    assert(clip_end(c) >= from);
    let p = placement_spec(c, start)->Ok_0;
    assert(p.source_start == source_start);
    assert(p.destination_start == destination_start);
    assert(p.frames == frames);
}

proof fn lemma_track_steps_on_track(
    cs: Seq<ClipView>,
    t: int,
    volume: u16,
    media: Seq<MediaView>,
    objects: Seq<MediaObjectView>,
    start: u64,
)
    requires
        0 <= t <= usize::MAX,
    ensures
        forall|i: int|
            0 <= i < track_steps(cs, t, volume, media, objects, start).len() && (#[trigger] track_steps(
                cs,
                t,
                volume,
                media,
                objects,
                start,
            )[i]) is Ok ==> track_steps(cs, t, volume, media, objects, start)[i]->Ok_0.track_index == t
                && track_steps(cs, t, volume, media, objects, start)[i]->Ok_0.volume_percent == volume,
    decreases cs.len(),
{
    if cs.len() > 0 {
        lemma_track_steps_on_track(cs.drop_last(), t, volume, media, objects, start);
        let a = track_steps(cs.drop_last(), t, volume, media, objects, start);
        let s = track_steps(cs, t, volume, media, objects, start);
        assert forall|i: int| 0 <= i < s.len() && (#[trigger] s[i]) is Ok implies s[i]->Ok_0.track_index == t
            && s[i]->Ok_0.volume_percent == volume by {
            if i < a.len() {
                assert(s[i] == a[i]);
            }
        }
    }
}

/// A render only hears clips of tracks that are not muted and, while any track is
/// soloed, only clips of soloed tracks.
pub proof fn law_render_hears_only_audible_tracks(
    ts: Seq<TrackView>,
    media: Seq<MediaView>,
    objects: Seq<MediaObjectView>,
    start: u64,
)
    requires
        ts.len() <= usize::MAX,
    ensures
        ({
            let solo = any_solo(ts);
            let steps = all_steps(ts, solo, media, objects, start);
            forall|i: int|
                0 <= i < steps.len() && (#[trigger] steps[i]) is Ok ==> {
                    let k = steps[i]->Ok_0.track_index as int;
                    0 <= k < ts.len() && audible(ts[k], solo)
                }
        }),
{
    lemma_all_steps_audible(ts, any_solo(ts), media, objects, start);
}

/// Every clip of a render is mixed at the volume of the track it is on.
pub proof fn law_render_uses_track_volume(
    ts: Seq<TrackView>,
    media: Seq<MediaView>,
    objects: Seq<MediaObjectView>,
    start: u64,
)
    requires
        ts.len() <= usize::MAX,
    ensures
        ({
            let steps = all_steps(ts, any_solo(ts), media, objects, start);
            forall|i: int|
                0 <= i < steps.len() && (#[trigger] steps[i]) is Ok ==> {
                    let k = steps[i]->Ok_0.track_index as int;
                    0 <= k < ts.len() && steps[i]->Ok_0.volume_percent == ts[k].volume_percent
                }
        }),
{
    lemma_all_steps_audible(ts, any_solo(ts), media, objects, start);
}

proof fn lemma_all_steps_audible(
    ts: Seq<TrackView>,
    solo: bool,
    media: Seq<MediaView>,
    objects: Seq<MediaObjectView>,
    start: u64,
)
    requires
        ts.len() <= usize::MAX,
    ensures
        forall|i: int|
            0 <= i < all_steps(ts, solo, media, objects, start).len() && (#[trigger] all_steps(
                ts,
                solo,
                media,
                objects,
                start,
            )[i]) is Ok ==> {
                let k = all_steps(ts, solo, media, objects, start)[i]->Ok_0.track_index as int;
                0 <= k < ts.len() && audible(ts[k], solo) && all_steps(ts, solo, media, objects, start)[i]->Ok_0.volume_percent
                    == ts[k].volume_percent
            },
    decreases ts.len(),
{
    if ts.len() > 0 {
        let d = ts.drop_last();
        let t = ts.len() - 1;
        lemma_all_steps_audible(d, solo, media, objects, start);
        lemma_track_steps_on_track(ts[t].clips, t, ts[t].volume_percent, media, objects, start);
        let a = all_steps(d, solo, media, objects, start);
        let s = all_steps(ts, solo, media, objects, start);
        let extra = if audible(ts[t], solo) {
            track_steps(ts[t].clips, t, ts[t].volume_percent, media, objects, start)
        } else {
            seq![]
        };
        assert(s == a + extra);
        assert forall|i: int| 0 <= i < s.len() && (#[trigger] s[i]) is Ok implies {
            let k = s[i]->Ok_0.track_index as int;
            0 <= k < ts.len() && audible(ts[k], solo) && s[i]->Ok_0.volume_percent == ts[k].volume_percent
        } by {
            if i < a.len() {
                assert(s[i] == a[i]);
                let k = a[i]->Ok_0.track_index as int;
                assert(ts[k] == d[k]);
            } else {
                assert(s[i] == extra[i - a.len()]);
            }
        }
    }
}

} // verus!
