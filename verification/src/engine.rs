//! The sample-layout side of the audio engine: interleaved buffers, frame slicing,
//! channel conversion, clip mixing and fades, render settings, metronome timing, and
//! the bookkeeping of real-time transports. Sample values are opaque here: whatever
//! arithmetic they need is handed in by the caller.

use vstd::prelude::*;


use crate::wav::{decode_pcm16_wav, decode_spec, encode_pcm16_wav, encode_spec, fault_text, write_fault_text};

verus! {

/// Default offline render sample rate.
pub const DEFAULT_SAMPLE_RATE: u32 = 48_000;

/// Default offline render channel count.
pub const DEFAULT_CHANNELS: u16 = 2;

/// Interleaved audio buffer: frame `f`, channel `c` is `samples[f * channels + c]`.
#[derive(Debug, PartialEq)]
pub struct AudioBuffer<S> {
    /// Sample rate in Hz.
    pub sample_rate: u32,
    /// Channel count.
    pub channels: u16,
    /// Interleaved samples.
    pub samples: Vec<S>,
}

#[verifier::ext_equal]
pub struct AudioView<S> {
    pub sample_rate: u32,
    pub channels: u16,
    pub samples: Seq<S>,
}

impl<S> View for AudioBuffer<S> {
    type V = AudioView<S>;

    open spec fn view(&self) -> AudioView<S> {
        AudioView { sample_rate: self.sample_rate, channels: self.channels, samples: self.samples@ }
    }
}

/// Position of channel `c` of frame `f` in an interleaved buffer of `channels` channels.
pub open spec fn sample_index(f: int, channels: int, c: int) -> int {
    f * channels + c
}

/// Whole frames in `len` interleaved samples.
pub open spec fn frame_count(len: int, channels: int) -> int {
    len / channels
}

impl<S> AudioBuffer<S> {
    /// Number of sample frames in this buffer.
    pub fn frames(&self) -> (n: usize)
        requires
            self.channels > 0,
        ensures
            n == frame_count(self.samples@.len() as int, self.channels as int),
    {
        self.samples.len() / (self.channels as usize)
    }
}

fn copy_range<S: Copy>(samples: &Vec<S>, start: usize, end: usize) -> (r: Vec<S>)
    requires
        start <= end <= samples@.len(),
    ensures
        r@ == samples@.subrange(start as int, end as int),
{
    let mut out: Vec<S> = Vec::new();
    let mut i = start;
    while i < end
        invariant
            start <= i <= end <= samples@.len(),
            out@ == samples@.subrange(start as int, i as int),
        decreases end - i,
    {
        out.push(samples[i]);
        i = i + 1;
        assert(out@ =~= samples@.subrange(start as int, i as int));
    }
    out
}

/// A product or sum stopping at `usize::MAX`.
pub open spec fn sat(x: int) -> int {
    if x > usize::MAX { usize::MAX as int } else { x }
}

pub open spec fn min_int(a: int, b: int) -> int {
    if a < b { a } else { b }
}

/// First sample of a slice starting at `start_frame`.
pub open spec fn slice_start(len: int, channels: int, start_frame: int) -> int {
    min_int(sat(start_frame * channels), len)
}

/// One past the last sample of a slice of `frame_count` frames from `start_frame`.
pub open spec fn slice_end(len: int, channels: int, start_frame: int, frame_count: int) -> int {
    min_int(sat(slice_start(len, channels, start_frame) + sat(frame_count * channels)), len)
}

fn saturating_mul_usize(a: usize, b: usize) -> (r: usize)
    ensures
        r == sat(a * b),
{
    match a.checked_mul(b) {
        Some(v) => v,
        None => usize::MAX,
    }
}

/// The frames `start_frame .. start_frame + frame_count` of a buffer, cut short at its end.
pub fn slice_frames<S: Copy>(buffer: &AudioBuffer<S>, start_frame: usize, frame_count: usize) -> (r:
    AudioBuffer<S>)
    ensures
        r.sample_rate == buffer.sample_rate,
        r.channels == buffer.channels,
        r.samples@ == buffer.samples@.subrange(
            slice_start(buffer.samples@.len() as int, buffer.channels as int, start_frame as int),
            slice_end(
                buffer.samples@.len() as int,
                buffer.channels as int,
                start_frame as int,
                frame_count as int,
            ),
        ),
{
    let channels = buffer.channels as usize;
    let len = buffer.samples.len();
    let a = saturating_mul_usize(start_frame, channels);
    let start_sample = if a < len { a } else { len };
    let b = saturating_mul_usize(frame_count, channels);
    let e = start_sample.saturating_add(b);
    let end_sample = if e < len { e } else { len };
    AudioBuffer {
        sample_rate: buffer.sample_rate,
        channels: buffer.channels,
        samples: copy_range(&buffer.samples, start_sample, end_sample),
    }
}

/// The buffer with `channels` channels: frame by frame, output channel `c` takes source
/// channel `c`, or the last source channel when there are fewer.
pub open spec fn converted<S>(src: AudioView<S>, channels: u16, out: Seq<S>) -> bool {
    let sc = src.channels as int;
    let dc = channels as int;
    let frames = frame_count(src.samples.len() as int, sc);
    &&& out.len() == frames * dc
    &&& forall|f: int, c: int|
        0 <= f < frames && 0 <= c < dc ==> #[trigger] out[sample_index(f, dc, c)] == src.samples[sample_index(
            f,
            sc,
            min_int(c, sc - 1),
        )]
}

/// Convert a buffer to another channel count.
pub fn convert_channels<S: Copy>(buffer: &AudioBuffer<S>, channels: u16) -> (r: AudioBuffer<S>)
    requires
        buffer.channels == channels || buffer.channels > 0,
    ensures
        r.sample_rate == buffer.sample_rate,
        r.channels == channels,
        buffer.channels == channels ==> r.samples@ == buffer.samples@,
        buffer.channels != channels ==> converted(buffer@, channels, r.samples@),
{
    if buffer.channels == channels {
        return AudioBuffer {
            sample_rate: buffer.sample_rate,
            channels,
            samples: copy_range(&buffer.samples, 0, buffer.samples.len()),
        };
    }
    let sc = buffer.channels as usize;
    let dc = channels as usize;
    let frames = buffer.frames();
    let ghost src = buffer.samples@;
    let n = buffer.samples.len();
    let mut out: Vec<S> = Vec::new();
    let mut f: usize = 0;
    while f < frames
        invariant
            f <= frames,
            sc == buffer.channels as usize,
            sc > 0,
            dc == channels as usize,
            src == buffer.samples@,
            n == src.len(),
            frames == frame_count(src.len() as int, sc as int),
            out@.len() == f * dc,
            forall|g: int, c: int|
                0 <= g < f && 0 <= c < dc ==> #[trigger] out@[sample_index(g, dc as int, c)] == src[sample_index(
                    g,
                    sc as int,
                    min_int(c, sc - 1),
                )],
        decreases frames - f,
    {
        proof {
            assert((f + 1) * sc <= src.len()) by (nonlinear_arith)
                requires
                    f < frames,
                    frames == src.len() as int / (sc as int),
                    sc > 0,
            ;
            assert(f * sc + sc == (f + 1) * sc) by (nonlinear_arith);
        }
        let mut c: usize = 0;
        while c < dc
            invariant
                f < frames,
                c <= dc,
                sc == buffer.channels as usize,
                sc > 0,
                dc == channels as usize,
                src == buffer.samples@,
                n == src.len(),
                f * sc + sc <= src.len(),
                out@.len() == f * dc + c,
                forall|g: int, k: int|
                    0 <= g < f && 0 <= k < dc ==> #[trigger] out@[sample_index(g, dc as int, k)]
                        == src[sample_index(g, sc as int, min_int(k, sc - 1))],
                forall|k: int|
                    0 <= k < c ==> #[trigger] out@[sample_index(f as int, dc as int, k)] == src[sample_index(
                        f as int,
                        sc as int,
                        min_int(k, sc - 1),
                    )],
            decreases dc - c,
        {
            let source_channel = if c < sc - 1 { c } else { sc - 1 };
            let x = buffer.samples[f * sc + source_channel];
            let ghost before = out@;
            out.push(x);
            proof {
                assert(out@[sample_index(f as int, dc as int, c as int)] == x);
                assert forall|g: int, k: int|
                    0 <= g < f && 0 <= k < dc implies #[trigger] out@[sample_index(g, dc as int, k)]
                        == src[sample_index(g, sc as int, min_int(k, sc - 1))] by {
                    assert(sample_index(g, dc as int, k) < f * dc) by (nonlinear_arith)
                        requires
                            0 <= g < f,
                            0 <= k < dc,
                    ;
                    assert(out@[sample_index(g, dc as int, k)] == before[sample_index(g, dc as int, k)]);
                }
                assert forall|k: int|
                    0 <= k < c + 1 implies #[trigger] out@[sample_index(f as int, dc as int, k)]
                        == src[sample_index(f as int, sc as int, min_int(k, sc - 1))] by {
                    if k < c {
                        assert(out@[sample_index(f as int, dc as int, k)] == before[sample_index(
                            f as int,
                            dc as int,
                            k,
                        )]);
                    }
                }
            }
            c = c + 1;
        }
        proof {
            assert(f * dc + dc == (f + 1) * dc) by (nonlinear_arith);
            assert forall|g: int, k: int|
                0 <= g < f + 1 && 0 <= k < dc implies #[trigger] out@[sample_index(g, dc as int, k)]
                    == src[sample_index(g, sc as int, min_int(k, sc - 1))] by {
                if g == f {
                }
            }
        }
        f = f + 1;
    }
    AudioBuffer { sample_rate: buffer.sample_rate, channels, samples: out }
}

/// One past the last destination frame that a clip of `clip_frames` frames placed at
/// `start_frame` reaches in a destination of `dest_frames` frames.
pub open spec fn mix_end(start_frame: int, clip_frames: int, dest_frames: int) -> int {
    if start_frame >= dest_frames {
        start_frame
    } else {
        min_int(start_frame + clip_frames, dest_frames)
    }
}

/// Mix a clip into a destination buffer from `start_frame` on. Nothing happens when the
/// clip is muted or its format differs; otherwise every destination sample that the clip
/// overlaps becomes `mix(destination sample, clip sample, volume_percent)`, and all
/// other samples stay as they were.
pub fn mix_clip<S: Copy, F: Fn(S, S, u16) -> S>(
    destination: &mut AudioBuffer<S>,
    clip: &AudioBuffer<S>,
    start_frame: usize,
    volume_percent: u16,
    muted: bool,
    mix: F,
)
    requires
        muted || old(destination).channels != clip.channels || old(destination).sample_rate
            != clip.sample_rate || old(destination).channels > 0,
        forall|a: S, b: S, v: u16| mix.requires((a, b, v)),
    ensures
        final(destination).sample_rate == old(destination).sample_rate,
        final(destination).channels == old(destination).channels,
        final(destination).samples@.len() == old(destination).samples@.len(),
        (muted || old(destination).channels != clip.channels || old(destination).sample_rate
            != clip.sample_rate) ==> final(destination).samples@ == old(destination).samples@,
        !(muted || old(destination).channels != clip.channels || old(destination).sample_rate
            != clip.sample_rate) ==> {
            let ch = old(destination).channels as int;
            let end = mix_end(
                start_frame as int,
                frame_count(clip.samples@.len() as int, ch),
                frame_count(old(destination).samples@.len() as int, ch),
            );
            &&& forall|f: int, c: int|
                start_frame <= f < end && 0 <= c < ch ==> mix.ensures(
                    (
                        old(destination).samples@[sample_index(f, ch, c)],
                        clip.samples@[sample_index(f - start_frame, ch, c)],
                        volume_percent,
                    ),
                    #[trigger] final(destination).samples@[sample_index(f, ch, c)],
                )
            &&& forall|i: int|
                0 <= i < old(destination).samples@.len() && !(sample_index(start_frame as int, ch, 0)
                    <= i < sample_index(end, ch, 0)) ==> #[trigger] final(destination).samples@[i]
                    == old(destination).samples@[i]
        },
{
    if muted || destination.channels != clip.channels || destination.sample_rate != clip.sample_rate {
        return;
    }
    let ch = destination.channels as usize;
    let clip_frames = clip.frames();
    let dest_frames = destination.frames();
    let ghost old_samples = destination.samples@;
    let ghost end = mix_end(start_frame as int, clip_frames as int, dest_frames as int);
    let n = destination.samples.len();
    let cn = clip.samples.len();
    proof {
        assert(dest_frames * ch <= n) by (nonlinear_arith)
            requires
                dest_frames == n as int / (ch as int),
                ch > 0,
        ;
        assert(clip_frames * ch <= cn) by (nonlinear_arith)
            requires
                clip_frames == cn as int / (ch as int),
                ch > 0,
        ;
    }
    let mut k: usize = 0;
    while k < clip_frames
        invariant_except_break
            start_frame + k <= end,
        invariant
            k <= clip_frames,
            ch == destination.channels as usize,
            ch > 0,
            destination.sample_rate == old(destination).sample_rate,
            destination.channels == old(destination).channels,
            old_samples == old(destination).samples@,
            n == destination.samples@.len(),
            n == old_samples.len(),
            cn == clip.samples@.len(),
            dest_frames == frame_count(n as int, ch as int),
            clip_frames == frame_count(cn as int, ch as int),
            dest_frames * ch <= n,
            clip_frames * ch <= cn,
            end == mix_end(start_frame as int, clip_frames as int, dest_frames as int),
            forall|a: S, b: S, v: u16| mix.requires((a, b, v)),
            forall|f: int, c: int|
                start_frame <= f < start_frame + k && f < end && 0 <= c < ch ==> mix.ensures(
                    (
                        old_samples[sample_index(f, ch as int, c)],
                        clip.samples@[sample_index(f - start_frame, ch as int, c)],
                        volume_percent,
                    ),
                    #[trigger] destination.samples@[sample_index(f, ch as int, c)],
                ),
            forall|i: int|
                0 <= i < n && !(sample_index(start_frame as int, ch as int, 0) <= i < sample_index(
                    start_frame + k,
                    ch as int,
                    0,
                )) ==> #[trigger] destination.samples@[i] == old_samples[i],
        ensures
            start_frame + k == end,
        decreases clip_frames - k,
    {
        if start_frame >= dest_frames || k >= dest_frames - start_frame {
            break;
        }
        let f = start_frame + k;
        proof {
            assert((f + 1) * ch <= n) by (nonlinear_arith)
                requires
                    f < dest_frames,
                    dest_frames * ch <= n,
                    ch > 0,
            ;
            assert((k + 1) * ch <= cn) by (nonlinear_arith)
                requires
                    k < clip_frames,
                    clip_frames * ch <= cn,
                    ch > 0,
            ;
            assert(f * ch + ch == (f + 1) * ch) by (nonlinear_arith);
            assert(k * ch + ch == (k + 1) * ch) by (nonlinear_arith);
            assert(start_frame * ch <= f * ch) by (nonlinear_arith)
                requires
                    start_frame <= f,
                    ch > 0,
            ;
        }
        let mut c: usize = 0;
        while c < ch
            invariant
                c <= ch,
                ch == destination.channels as usize,
                ch > 0,
                destination.sample_rate == old(destination).sample_rate,
                destination.channels == old(destination).channels,
                old_samples == old(destination).samples@,
                f == start_frame + k,
                f < end,
                start_frame * ch <= f * ch,
                f * ch + ch <= n,
                k * ch + ch <= cn,
                n == destination.samples@.len(),
                n == old_samples.len(),
                cn == clip.samples@.len(),
                forall|a: S, b: S, v: u16| mix.requires((a, b, v)),
                forall|g: int, j: int|
                    start_frame <= g < f && 0 <= j < ch ==> mix.ensures(
                        (
                            old_samples[sample_index(g, ch as int, j)],
                            clip.samples@[sample_index(g - start_frame, ch as int, j)],
                            volume_percent,
                        ),
                        #[trigger] destination.samples@[sample_index(g, ch as int, j)],
                    ),
                forall|j: int|
                    0 <= j < c ==> mix.ensures(
                        (
                            old_samples[sample_index(f as int, ch as int, j)],
                            clip.samples@[sample_index(k as int, ch as int, j)],
                            volume_percent,
                        ),
                        #[trigger] destination.samples@[sample_index(f as int, ch as int, j)],
                    ),
                forall|i: int|
                    0 <= i < n && !(sample_index(start_frame as int, ch as int, 0) <= i < sample_index(
                        f as int,
                        ch as int,
                        c as int,
                    )) ==> #[trigger] destination.samples@[i] == old_samples[i],
            decreases ch - c,
        {
            let di = f * ch + c;
            let ci = k * ch + c;
            let ghost before = destination.samples@;
            let value = mix(destination.samples[di], clip.samples[ci], volume_percent);
            destination.samples.set(di, value);
            proof {
                assert(before[di as int] == old_samples[di as int]);
                assert forall|g: int, j: int|
                    start_frame <= g < f && 0 <= j < ch implies mix.ensures(
                    (
                        old_samples[sample_index(g, ch as int, j)],
                        clip.samples@[sample_index(g - start_frame, ch as int, j)],
                        volume_percent,
                    ),
                    #[trigger] destination.samples@[sample_index(g, ch as int, j)],
                ) by {
                    assert(sample_index(g, ch as int, j) < f * ch) by (nonlinear_arith)
                        requires
                            g < f,
                            0 <= j < ch,
                    ;
                    assert(destination.samples@[sample_index(g, ch as int, j)] == before[sample_index(
                        g,
                        ch as int,
                        j,
                    )]);
                }
                assert forall|j: int|
                    0 <= j < c + 1 implies mix.ensures(
                    (
                        old_samples[sample_index(f as int, ch as int, j)],
                        clip.samples@[sample_index(k as int, ch as int, j)],
                        volume_percent,
                    ),
                    #[trigger] destination.samples@[sample_index(f as int, ch as int, j)],
                ) by {
                    if j < c {
                        assert(destination.samples@[sample_index(f as int, ch as int, j)]
                            == before[sample_index(f as int, ch as int, j)]);
                    }
                }
            }
            c = c + 1;
        }
        proof {
            assert(sample_index(f as int, ch as int, ch as int) == sample_index(f + 1, ch as int, 0))
                by (nonlinear_arith);
            assert forall|g: int, j: int|
                start_frame <= g < start_frame + k + 1 && g < end && 0 <= j < ch implies mix.ensures(
                (
                    old_samples[sample_index(g, ch as int, j)],
                    clip.samples@[sample_index(g - start_frame, ch as int, j)],
                    volume_percent,
                ),
                #[trigger] destination.samples@[sample_index(g, ch as int, j)],
            ) by {
                if g == f {
                    assert(g - start_frame == k);
                }
            }
        }
        k = k + 1;
    }
}

/// The fade ratios that apply at one clip position, each a fraction `(numerator,
/// denominator)` below one: the fade-in while the position is inside it, and the
/// fade-out while the samples left to the clip's end are fewer than its length.
#[derive(Debug, PartialEq, Eq, Clone, Copy)]
pub struct FadeGain {
    pub fade_in: Option<(u64, u64)>,
    pub fade_out: Option<(u64, u64)>,
}

pub open spec fn fade_gain_spec(position: u64, clip_duration: u64, fade_in: u64, fade_out: u64) -> FadeGain {
    FadeGain {
        fade_in: if fade_in > 0 && position < fade_in {
            Some((position, fade_in))
        } else {
            None
        },
        fade_out: if fade_out > 0 && position < clip_duration && ((clip_duration - position) as u64)
            < fade_out {
            Some(((clip_duration - position) as u64, fade_out))
        } else {
            None
        },
    }
}

/// The fade ratios at a clip position.
pub fn fade_gain(position: u64, clip_duration: u64, fade_in: u64, fade_out: u64) -> (g: FadeGain)
    ensures
        g == fade_gain_spec(position, clip_duration, fade_in, fade_out),
{
    let fi = if fade_in > 0 && position < fade_in {
        Some((position, fade_in))
    } else {
        None
    };
    let fo = if fade_out > 0 && position < clip_duration && clip_duration - position < fade_out {
        Some((clip_duration - position, fade_out))
    } else {
        None
    };
    FadeGain { fade_in: fi, fade_out: fo }
}

/// Where frame `frame` of a buffer sits in its clip, stopping at `u64::MAX`.
pub open spec fn clip_position(clip_offset: u64, frame: int) -> u64 {
    if clip_offset + frame > u64::MAX { u64::MAX } else { (clip_offset + frame) as u64 }
}

/// Apply a clip's fade ramps to a buffer that holds the clip from `clip_offset_frames`
/// on. Each sample of a frame where a fade applies becomes `scale(sample, gain)`; other
/// samples stay as they were.
pub fn apply_clip_fades<S: Copy, F: Fn(S, FadeGain) -> S>(
    buffer: &mut AudioBuffer<S>,
    clip_offset_frames: u64,
    clip_duration_frames: u64,
    fade_in_frames: u64,
    fade_out_frames: u64,
    scale: F,
)
    requires
        forall|a: S, g: FadeGain| scale.requires((a, g)),
    ensures
        final(buffer).sample_rate == old(buffer).sample_rate,
        final(buffer).channels == old(buffer).channels,
        final(buffer).samples@.len() == old(buffer).samples@.len(),
        (old(buffer).samples@.len() == 0 || old(buffer).channels == 0) ==> final(buffer).samples@
            == old(buffer).samples@,
        old(buffer).channels > 0 ==> {
            let ch = old(buffer).channels as int;
            let frames = frame_count(old(buffer).samples@.len() as int, ch);
            &&& forall|f: int, c: int|
                0 <= f < frames && 0 <= c < ch ==> {
                    let g = fade_gain_spec(
                        clip_position(clip_offset_frames, f),
                        clip_duration_frames,
                        fade_in_frames,
                        fade_out_frames,
                    );
                    if g.fade_in is None && g.fade_out is None {
                        #[trigger] final(buffer).samples@[sample_index(f, ch, c)]
                            == old(buffer).samples@[sample_index(f, ch, c)]
                    } else {
                        scale.ensures(
                            (old(buffer).samples@[sample_index(f, ch, c)], g),
                            final(buffer).samples@[sample_index(f, ch, c)],
                        )
                    }
                }
            &&& forall|i: int|
                sample_index(frames, ch, 0) <= i < old(buffer).samples@.len() ==> #[trigger] final(buffer).samples@[i] == old(buffer).samples@[i]
        },
{
    if buffer.samples.len() == 0 || buffer.channels == 0 {
        return;
    }
    let ch = buffer.channels as usize;
    let frames = buffer.frames();
    let n = buffer.samples.len();
    let ghost old_samples = buffer.samples@;
    proof {
        assert(frames * ch <= n) by (nonlinear_arith)
            requires
                frames == n as int / (ch as int),
                ch > 0,
        ;
    }
    let mut f: usize = 0;
    while f < frames
        invariant
            f <= frames,
            ch == buffer.channels as usize,
            ch > 0,
            buffer.sample_rate == old(buffer).sample_rate,
            buffer.channels == old(buffer).channels,
            old_samples == old(buffer).samples@,
            n == buffer.samples@.len(),
            n == old_samples.len(),
            frames == frame_count(n as int, ch as int),
            frames * ch <= n,
            forall|a: S, g: FadeGain| scale.requires((a, g)),
            forall|g: int, c: int|
                0 <= g < f && 0 <= c < ch ==> {
                    let gain = fade_gain_spec(
                        clip_position(clip_offset_frames, g),
                        clip_duration_frames,
                        fade_in_frames,
                        fade_out_frames,
                    );
                    if gain.fade_in is None && gain.fade_out is None {
                        #[trigger] buffer.samples@[sample_index(g, ch as int, c)]
                            == old_samples[sample_index(g, ch as int, c)]
                    } else {
                        scale.ensures(
                            (old_samples[sample_index(g, ch as int, c)], gain),
                            buffer.samples@[sample_index(g, ch as int, c)],
                        )
                    }
                },
            forall|i: int| sample_index(f as int, ch as int, 0) <= i < n ==> #[trigger] buffer.samples@[i]
                == old_samples[i],
        decreases frames - f,
    {
        let position = clip_offset_frames.saturating_add(f as u64);
        let gain = fade_gain(position, clip_duration_frames, fade_in_frames, fade_out_frames);
        proof {
            assert((f + 1) * ch <= n) by (nonlinear_arith)
                requires
                    f < frames,
                    frames * ch <= n,
                    ch > 0,
            ;
            assert(f * ch + ch == (f + 1) * ch) by (nonlinear_arith);
        }
        if gain.fade_in.is_some() || gain.fade_out.is_some() {
            let mut c: usize = 0;
            while c < ch
                invariant
                    c <= ch,
                    ch == buffer.channels as usize,
                    ch > 0,
                    buffer.sample_rate == old(buffer).sample_rate,
                    buffer.channels == old(buffer).channels,
                    old_samples == old(buffer).samples@,
                    f < frames,
                    f * ch + ch <= n,
                    n == buffer.samples@.len(),
                    n == old_samples.len(),
                    gain == fade_gain_spec(
                        clip_position(clip_offset_frames, f as int),
                        clip_duration_frames,
                        fade_in_frames,
                        fade_out_frames,
                    ),
                    !(gain.fade_in is None && gain.fade_out is None),
                    forall|a: S, g: FadeGain| scale.requires((a, g)),
                    forall|g: int, j: int|
                        0 <= g < f && 0 <= j < ch ==> {
                            let gg = fade_gain_spec(
                                clip_position(clip_offset_frames, g),
                                clip_duration_frames,
                                fade_in_frames,
                                fade_out_frames,
                            );
                            if gg.fade_in is None && gg.fade_out is None {
                                #[trigger] buffer.samples@[sample_index(g, ch as int, j)]
                                    == old_samples[sample_index(g, ch as int, j)]
                            } else {
                                scale.ensures(
                                    (old_samples[sample_index(g, ch as int, j)], gg),
                                    buffer.samples@[sample_index(g, ch as int, j)],
                                )
                            }
                        },
                    forall|j: int|
                        0 <= j < c ==> scale.ensures(
                            (old_samples[sample_index(f as int, ch as int, j)], gain),
                            #[trigger] buffer.samples@[sample_index(f as int, ch as int, j)],
                        ),
                    forall|i: int| sample_index(f as int, ch as int, c as int) <= i < n ==> #[trigger] buffer.samples@[i]
                        == old_samples[i],
                decreases ch - c,
            {
                let i = f * ch + c;
                let ghost before = buffer.samples@;
                let value = scale(buffer.samples[i], gain);
                buffer.samples.set(i, value);
                proof {
                    assert forall|g: int, j: int| 0 <= g < f && 0 <= j < ch implies
                        #[trigger] buffer.samples@[sample_index(g, ch as int, j)] == before[sample_index(g, ch as int, j)] by {
                        assert(sample_index(g, ch as int, j) < f * ch) by (nonlinear_arith)
                            requires
                                g < f,
                                0 <= j < ch,
                        ;
                    }
                    assert forall|j: int| 0 <= j < c implies
                        #[trigger] buffer.samples@[sample_index(f as int, ch as int, j)] == before[sample_index(f as int, ch as int, j)] by {
                    }
                }
                c = c + 1;
            }
        }
        proof {
            assert(sample_index(f as int, ch as int, ch as int) == sample_index(f + 1, ch as int, 0))
                by (nonlinear_arith);
            assert(clip_position(clip_offset_frames, f as int) == position);
        }
        f = f + 1;
    }
}

// ---------------------------------------------------------------------------
// Errors and reports
// ---------------------------------------------------------------------------

/// Error returned by offline rendering.
#[derive(Debug, PartialEq, Eq)]
pub enum RenderError {
    /// Filesystem failure, with its message.
    Io(String),
    /// Render settings are invalid.
    InvalidSettings(String),
    /// WAV file is unsupported or malformed.
    UnsupportedWav(String),
}

pub enum RenderErrorView {
    Io(Seq<char>),
    InvalidSettings(Seq<char>),
    UnsupportedWav(Seq<char>),
}

impl View for RenderError {
    type V = RenderErrorView;

    open spec fn view(&self) -> RenderErrorView {
        match self {
            RenderError::Io(m) => RenderErrorView::Io(m@),
            RenderError::InvalidSettings(m) => RenderErrorView::InvalidSettings(m@),
            RenderError::UnsupportedWav(m) => RenderErrorView::UnsupportedWav(m@),
        }
    }
}

pub open spec fn render_error_text(e: RenderErrorView) -> Seq<char> {
    match e {
        RenderErrorView::Io(m) => m,
        RenderErrorView::InvalidSettings(m) => m,
        RenderErrorView::UnsupportedWav(m) => m,
    }
}

impl RenderError {
    /// The error's text.
    pub fn message(&self) -> (s: String)
        ensures
            s@ == render_error_text(self@),
    {
        match self {
            RenderError::Io(m) => m.clone(),
            RenderError::InvalidSettings(m) => m.clone(),
            RenderError::UnsupportedWav(m) => m.clone(),
        }
    }
}

/// Error returned by real-time playback.
#[derive(Debug, PartialEq, Eq)]
pub enum PlaybackError {
    /// No default output device is available.
    NoOutputDevice,
    /// Backend failed to provide a default stream config.
    DefaultConfig(String),
    /// Backend failed to build the stream.
    BuildStream(String),
    /// Backend failed to start the stream.
    PlayStream(String),
    /// Render settings are invalid.
    Render(RenderError),
}

pub open spec fn playback_error_text(e: PlaybackError) -> Seq<char> {
    match e {
        PlaybackError::NoOutputDevice => "no default output device available"@,
        PlaybackError::DefaultConfig(m) => m@,
        PlaybackError::BuildStream(m) => m@,
        PlaybackError::PlayStream(m) => m@,
        PlaybackError::Render(r) => render_error_text(r@),
    }
}

impl PlaybackError {
    /// The error's text.
    pub fn message(&self) -> (s: String)
        ensures
            s@ == playback_error_text(*self),
    {
        match self {
            PlaybackError::NoOutputDevice => "no default output device available".to_owned(),
            PlaybackError::DefaultConfig(m) => m.clone(),
            PlaybackError::BuildStream(m) => m.clone(),
            PlaybackError::PlayStream(m) => m.clone(),
            PlaybackError::Render(r) => r.message(),
        }
    }
}

/// Error returned by real-time recording.
#[derive(Debug, PartialEq, Eq)]
pub enum RecordingError {
    /// No default input device is available.
    NoInputDevice,
    /// Backend failed to provide a default stream config.
    DefaultConfig(String),
    /// Backend failed to build the stream.
    BuildStream(String),
    /// Backend failed to start the stream.
    PlayStream(String),
    /// Render settings are invalid.
    Render(RenderError),
    /// Internal capture buffer could not be read.
    BufferUnavailable,
}

pub open spec fn recording_error_text(e: RecordingError) -> Seq<char> {
    match e {
        RecordingError::NoInputDevice => "no default input device available"@,
        RecordingError::DefaultConfig(m) => m@,
        RecordingError::BuildStream(m) => m@,
        RecordingError::PlayStream(m) => m@,
        RecordingError::Render(r) => render_error_text(r@),
        RecordingError::BufferUnavailable => "recording buffer is unavailable"@,
    }
}

impl RecordingError {
    /// The error's text.
    pub fn message(&self) -> (s: String)
        ensures
            s@ == recording_error_text(*self),
    {
        match self {
            RecordingError::NoInputDevice => "no default input device available".to_owned(),
            RecordingError::DefaultConfig(m) => m.clone(),
            RecordingError::BuildStream(m) => m.clone(),
            RecordingError::PlayStream(m) => m.clone(),
            RecordingError::Render(r) => r.message(),
            RecordingError::BufferUnavailable => "recording buffer is unavailable".to_owned(),
        }
    }
}

/// Summary returned by a real-time playback run.
#[derive(Debug, PartialEq, Eq)]
pub struct PlaybackReport {
    /// Output device name.
    pub device_name: String,
    /// Stream sample rate.
    pub sample_rate: u32,
    /// Stream channel count.
    pub channels: u16,
    /// Frames rendered by the callback.
    pub frames_played: usize,
    /// Stream error callback count.
    pub stream_errors: u32,
}

/// Summary returned with a captured input buffer.
#[derive(Debug, PartialEq, Eq)]
pub struct RecordingReport {
    /// Input device name.
    pub device_name: String,
    /// Stream sample rate.
    pub sample_rate: u32,
    /// Stream channel count.
    pub channels: u16,
    /// Frames captured into the buffer.
    pub frames_recorded: usize,
    /// Stream error callback count.
    pub stream_errors: u32,
}

/// A playback report from the transport's counters: whole frames of the samples
/// handed to the device so far.
pub fn playback_report(
    device_name: String,
    sample_rate: u32,
    channels: u16,
    samples_played: usize,
    stream_errors: u32,
) -> (r: PlaybackReport)
    requires
        channels > 0,
    ensures
        r.device_name@ == device_name@,
        r.sample_rate == sample_rate,
        r.channels == channels,
        r.frames_played == samples_played / (channels as usize),
        r.stream_errors == stream_errors,
{
    PlaybackReport {
        device_name,
        sample_rate,
        channels,
        frames_played: samples_played / (channels as usize),
        stream_errors,
    }
}

/// A recording report from the transport's counters: whole frames of the samples
/// captured so far.
pub fn recording_report(
    device_name: String,
    sample_rate: u32,
    channels: u16,
    samples_recorded: usize,
    stream_errors: u32,
) -> (r: RecordingReport)
    requires
        channels > 0,
    ensures
        r.device_name@ == device_name@,
        r.sample_rate == sample_rate,
        r.channels == channels,
        r.frames_recorded == samples_recorded / (channels as usize),
        r.stream_errors == stream_errors,
{
    RecordingReport {
        device_name,
        sample_rate,
        channels,
        frames_recorded: samples_recorded / (channels as usize),
        stream_errors,
    }
}

/// True once a transport with a sample limit has reached it; one without never is.
pub fn reached_limit(limit: Option<usize>, count: usize) -> (b: bool)
    ensures
        b == (limit matches Some(t) && count >= t),
{
    match limit {
        Some(t) => count >= t,
        None => false,
    }
}

/// Which source sample a playback callback plays at a running index: wrapped round
/// the buffer when looping, and none (silence) past its end.
pub fn playback_sample_index(index: usize, len: usize, looping: bool) -> (r: Option<usize>)
    ensures
        r == (if looping && len > 0 {
            Some((index % len) as usize)
        } else if index < len {
            Some(index)
        } else {
            None::<usize>
        }),
{
    let i = if looping && len > 0 { index % len } else { index };
    if i < len { Some(i) } else { None }
}

/// How many input samples a recording callback keeps: none once stopped or once the
/// limit is reached, otherwise as many as fit under the limit.
pub fn recording_take_count(
    stop_requested: bool,
    target: Option<usize>,
    written: usize,
    current_len: usize,
    input_len: usize,
) -> (n: usize)
    ensures
        n == (if stop_requested || (target matches Some(t) && written >= t) {
            0
        } else {
            match target {
                None => input_len as int,
                Some(t) => if current_len >= t {
                    0
                } else {
                    min_int(input_len as int, t - current_len)
                },
            }
        }),
{
    if stop_requested {
        return 0;
    }
    match target {
        None => input_len,
        Some(t) => {
            if written >= t || current_len >= t {
                0
            } else if input_len < t - current_len {
                input_len
            } else {
                t - current_len
            }
        },
    }
}

// ---------------------------------------------------------------------------
// Render settings and metronome timing
// ---------------------------------------------------------------------------

pub open spec fn invalid(m: Seq<char>) -> Result<(), RenderErrorView> {
    Err(RenderErrorView::InvalidSettings(m))
}

pub open spec fn unit_result_view(r: Result<(), RenderError>) -> Result<(), RenderErrorView> {
    match r {
        Ok(()) => Ok(()),
        Err(e) => Err(e@),
    }
}

/// The settings check shared by every render: the duration (`duration_positive` is
/// false for a duration at or below zero), then the sample rate, then the channels.
pub open spec fn render_settings_spec(duration_positive: bool, sample_rate: u32, channels: u16) -> Result<
    (),
    RenderErrorView,
> {
    if !duration_positive {
        invalid("duration must be greater than zero"@)
    } else if sample_rate == 0 {
        invalid("sample rate must be greater than zero"@)
    } else if channels == 0 {
        invalid("channel count must be greater than zero"@)
    } else {
        Ok(())
    }
}

/// Check render settings.
pub fn validate_render_settings(duration_positive: bool, sample_rate: u32, channels: u16) -> (r: Result<
    (),
    RenderError,
>)
    ensures
        unit_result_view(r) == render_settings_spec(duration_positive, sample_rate, channels),
{
    if !duration_positive {
        return Err(RenderError::InvalidSettings("duration must be greater than zero".to_owned()));
    }
    if sample_rate == 0 {
        return Err(RenderError::InvalidSettings("sample rate must be greater than zero".to_owned()));
    }
    if channels == 0 {
        return Err(RenderError::InvalidSettings("channel count must be greater than zero".to_owned()));
    }
    Ok(())
}

/// Samples in one beat at `tempo` beats per minute and `rate` samples per second,
/// rounded to the nearest sample (halves up) and stopping at `usize::MAX`; a tempo of
/// zero counts as one.
pub open spec fn beat_frames_spec(tempo: int, rate: int) -> int {
    sat(crate::timeline::beat_samples(tempo, rate))
}

/// Frames in one metronome beat.
pub fn samples_per_beat_at(tempo_bpm: u16, sample_rate: u32) -> (n: usize)
    ensures
        n == beat_frames_spec(tempo_bpm as int, sample_rate as int),
{
    let b: u64 = if tempo_bpm < 1 { 1 } else { tempo_bpm as u64 };
    let v = (120 * (sample_rate as u64) + b) / (2 * b);
    if v > usize::MAX as u64 { usize::MAX } else { v as usize }
}

/// A metronome's timing: one click per beat, the first beat of each bar accented.
#[derive(Debug, PartialEq, Eq, Clone, Copy)]
pub struct MetronomePlan {
    /// Frames between clicks.
    pub beat_frames: usize,
    /// Beats in the whole click track.
    pub beat_count: usize,
    /// Frames in the whole click track.
    pub frames: usize,
    /// Beats in one bar.
    pub beats_per_bar: u16,
}

impl MetronomePlan {
    /// The plan's counts agree with each other.
    pub open spec fn wf(&self) -> bool {
        &&& self.frames == self.beat_frames * self.beat_count
        &&& self.beats_per_bar > 0
    }

    /// Where beat `beat` clicks and whether it is accented.
    pub fn click(&self, beat: usize) -> (r: (usize, bool))
        requires
            self.wf(),
            beat < self.beat_count,
        ensures
            r.0 == beat * self.beat_frames,
            r.1 == (beat % (self.beats_per_bar as usize) == 0),
    {
        proof {
            assert(beat * self.beat_frames <= self.beat_frames * self.beat_count) by (nonlinear_arith)
                requires
                    beat < self.beat_count,
            ;
        }
        (beat * self.beat_frames, beat % (self.beats_per_bar as usize) == 0)
    }
}

pub open spec fn plan_result_view(r: Result<MetronomePlan, RenderError>) -> Result<MetronomePlan, RenderErrorView> {
    match r {
        Ok(p) => Ok(p),
        Err(e) => Err(e@),
    }
}

/// The metronome plan for `bars` bars of `beats_per_bar` beats, or why there is none.
pub open spec fn metronome_spec(
    tempo_bpm: u16,
    beats_per_bar: u16,
    bars: u32,
    sample_rate: u32,
    channels: u16,
) -> Result<MetronomePlan, RenderErrorView> {
    let beat_frames = beat_frames_spec(tempo_bpm as int, sample_rate as int);
    let beat_count = beats_per_bar * bars;
    if sample_rate == 0 {
        Err(RenderErrorView::InvalidSettings("sample rate must be greater than zero"@))
    } else if channels == 0 {
        Err(RenderErrorView::InvalidSettings("channel count must be greater than zero"@))
    } else if tempo_bpm == 0 {
        Err(RenderErrorView::InvalidSettings("tempo must be greater than zero"@))
    } else if beats_per_bar == 0 {
        Err(RenderErrorView::InvalidSettings("beats per bar must be greater than zero"@))
    } else if bars == 0 {
        Err(RenderErrorView::InvalidSettings("bar count must be greater than zero"@))
    } else if beat_count > usize::MAX || beat_frames * beat_count > usize::MAX {
        Err(RenderErrorView::InvalidSettings("metronome is too long"@))
    } else {
        Ok(
            MetronomePlan {
                beat_frames: beat_frames as usize,
                beat_count: beat_count as usize,
                frames: (beat_frames * beat_count) as usize,
                beats_per_bar,
            },
        )
    }
}

/// Plan a metronome click track.
pub fn plan_metronome(tempo_bpm: u16, beats_per_bar: u16, bars: u32, sample_rate: u32, channels: u16) -> (r:
    Result<MetronomePlan, RenderError>)
    ensures
        plan_result_view(r) == metronome_spec(tempo_bpm, beats_per_bar, bars, sample_rate, channels),
        r matches Ok(p) ==> p.wf(),
{
    match validate_render_settings(true, sample_rate, channels) {
        Err(e) => return Err(e),
        Ok(()) => {},
    }
    if tempo_bpm == 0 {
        return Err(RenderError::InvalidSettings("tempo must be greater than zero".to_owned()));
    }
    if beats_per_bar == 0 {
        return Err(RenderError::InvalidSettings("beats per bar must be greater than zero".to_owned()));
    }
    if bars == 0 {
        return Err(RenderError::InvalidSettings("bar count must be greater than zero".to_owned()));
    }
    let beat_frames = samples_per_beat_at(tempo_bpm, sample_rate);
    let bars_usize: usize = match usize_from_u32(bars) {
        Some(b) => b,
        None => {
            return Err(RenderError::InvalidSettings("bar count is too large".to_owned()));
        },
    };
    let beat_count = match (beats_per_bar as usize).checked_mul(bars_usize) {
        Some(n) => n,
        None => {
            return Err(RenderError::InvalidSettings("metronome is too long".to_owned()));
        },
    };
    let frames = match beat_frames.checked_mul(beat_count) {
        Some(n) => n,
        None => {
            return Err(RenderError::InvalidSettings("metronome is too long".to_owned()));
        },
    };
    Ok(MetronomePlan { beat_frames, beat_count, frames, beats_per_bar })
}

fn usize_from_u32(x: u32) -> (r: Option<usize>)
    ensures
        r == (if x <= usize::MAX { Some(x as usize) } else { None::<usize> }),
{
    if (x as u64) <= (usize::MAX as u64) { Some(x as usize) } else { None }
}

// ---------------------------------------------------------------------------
// WAV files
// ---------------------------------------------------------------------------

pub open spec fn buffer_result_view(r: Result<AudioBuffer<i16>, RenderError>) -> Result<
    AudioView<i16>,
    RenderErrorView,
> {
    match r {
        Ok(b) => Ok(b@),
        Err(e) => Err(e@),
    }
}

/// The buffer a WAV file decodes to, or why it does not.
pub open spec fn read_wav_spec(bytes: Seq<u8>) -> Result<AudioView<i16>, RenderErrorView> {
    match decode_spec(bytes, false) {
        Ok(w) => Ok(AudioView { sample_rate: w.sample_rate, channels: w.channels, samples: w.samples }),
        Err(f) => Err(RenderErrorView::UnsupportedWav(fault_text(f))),
    }
}

/// Decode a 16-bit PCM WAV file's bytes into a buffer of its samples.
pub fn decode_wav_buffer(bytes: &[u8]) -> (r: Result<AudioBuffer<i16>, RenderError>)
    ensures
        buffer_result_view(r) == read_wav_spec(bytes@),
{
    match decode_pcm16_wav(bytes, false) {
        Ok(w) => Ok(AudioBuffer { sample_rate: w.sample_rate, channels: w.channels, samples: w.samples }),
        Err(f) => Err(RenderError::UnsupportedWav(f.message().to_owned())),
    }
}

pub open spec fn bytes_result_view(r: Result<Vec<u8>, RenderError>) -> Result<Seq<u8>, RenderErrorView> {
    match r {
        Ok(b) => Ok(b@),
        Err(e) => Err(e@),
    }
}

/// The bytes of the WAV file for a buffer of 16-bit samples, or why there is none.
pub open spec fn write_wav_spec(buffer: AudioView<i16>) -> Result<Seq<u8>, RenderErrorView> {
    match encode_spec(buffer.sample_rate, buffer.channels, buffer.samples) {
        Ok(b) => Ok(b),
        Err(f) => Err(RenderErrorView::InvalidSettings(write_fault_text(f))),
    }
}

/// Encode a buffer of 16-bit samples as a WAV file.
pub fn encode_wav_buffer(buffer: &AudioBuffer<i16>) -> (r: Result<Vec<u8>, RenderError>)
    ensures
        bytes_result_view(r) == write_wav_spec(buffer@),
{
    match encode_pcm16_wav(buffer.sample_rate, buffer.channels, &buffer.samples) {
        Ok(b) => Ok(b),
        Err(f) => Err(RenderError::InvalidSettings(f.message().to_owned())),
    }
}

} // verus!
