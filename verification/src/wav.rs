//! 16-bit PCM WAV: reading the RIFF chunk layout from bytes and writing it back.

use vstd::prelude::*;

verus! {

/// Why a byte buffer is not a supported 16-bit PCM WAV file.
#[derive(Debug, PartialEq, Eq, Clone, Copy)]
pub enum WavFault {
    NotRiffWave,
    ChunkPastEnd,
    FmtTooShort,
    NotPcm16,
    MissingChannels,
    ZeroChannels,
    MissingSampleRate,
    MissingData,
    OddDataLength,
    MisalignedData,
}

/// The human-readable text of each fault.
pub open spec fn fault_text(f: WavFault) -> Seq<char> {
    match f {
        WavFault::NotRiffWave => "expected RIFF/WAVE file"@,
        WavFault::ChunkPastEnd => "WAV chunk extends past end of file"@,
        WavFault::FmtTooShort => "WAV fmt chunk is too short"@,
        WavFault::NotPcm16 => "only 16-bit PCM WAV files are supported"@,
        WavFault::MissingChannels => "WAV file is missing channel count"@,
        WavFault::ZeroChannels => "WAV channel count must be greater than zero"@,
        WavFault::MissingSampleRate => "WAV file is missing sample rate"@,
        WavFault::MissingData => "WAV file is missing data"@,
        WavFault::OddDataLength => "WAV data length must be even for PCM16"@,
        WavFault::MisalignedData => "WAV data length must align with channel count"@,
    }
}

impl WavFault {
    /// The human-readable reason.
    pub fn message(&self) -> (s: &'static str)
        ensures
            s@ == fault_text(*self),
    {
        match self {
            WavFault::NotRiffWave => "expected RIFF/WAVE file",
            WavFault::ChunkPastEnd => "WAV chunk extends past end of file",
            WavFault::FmtTooShort => "WAV fmt chunk is too short",
            WavFault::NotPcm16 => "only 16-bit PCM WAV files are supported",
            WavFault::MissingChannels => "WAV file is missing channel count",
            WavFault::ZeroChannels => "WAV channel count must be greater than zero",
            WavFault::MissingSampleRate => "WAV file is missing sample rate",
            WavFault::MissingData => "WAV file is missing data",
            WavFault::OddDataLength => "WAV data length must be even for PCM16",
            WavFault::MisalignedData => "WAV data length must align with channel count",
        }
    }
}

/// Decoded 16-bit PCM audio: interleaved samples with their format.
#[derive(Debug, PartialEq, Eq)]
pub struct Pcm16Wav {
    pub sample_rate: u32,
    pub channels: u16,
    pub samples: Vec<i16>,
}

#[verifier::ext_equal]
pub struct PcmView {
    pub sample_rate: u32,
    pub channels: u16,
    pub samples: Seq<i16>,
}

impl View for Pcm16Wav {
    type V = PcmView;

    open spec fn view(&self) -> PcmView {
        PcmView { sample_rate: self.sample_rate, channels: self.channels, samples: self.samples@ }
    }
}

impl Pcm16Wav {
    /// Number of sample frames.
    pub fn frames(&self) -> (n: usize)
        requires
            self.channels > 0,
        ensures
            n == self.samples@.len() / (self.channels as nat),
    {
        self.samples.len() / (self.channels as usize)
    }
}

// ---------------------------------------------------------------------------
// Byte layout
// ---------------------------------------------------------------------------

pub open spec fn u16_le(b: Seq<u8>, i: int) -> int {
    b[i] as int + 256 * (b[i + 1] as int)
}

pub open spec fn u32_le(b: Seq<u8>, i: int) -> int {
    b[i] as int + 256 * (b[i + 1] as int) + 65536 * (b[i + 2] as int) + 16777216 * (b[i + 3] as int)
}

/// Two little-endian bytes read as a signed 16-bit sample.
pub open spec fn i16_le(lo: u8, hi: u8) -> i16 {
    let u = lo as int + 256 * (hi as int);
    if u >= 32768 { (u - 65536) as i16 } else { u as i16 }
}

pub open spec fn tag_riff() -> Seq<u8> { seq![0x52u8, 0x49, 0x46, 0x46] }
pub open spec fn tag_wave() -> Seq<u8> { seq![0x57u8, 0x41, 0x56, 0x45] }
pub open spec fn tag_fmt() -> Seq<u8> { seq![0x66u8, 0x6d, 0x74, 0x20] }
pub open spec fn tag_data() -> Seq<u8> { seq![0x64u8, 0x61, 0x74, 0x61] }

/// What the chunk walk has found so far. Later chunks replace earlier ones.
#[verifier::ext_equal]
pub struct ChunkScan {
    pub audio_format: Option<int>,
    pub channels: Option<int>,
    pub sample_rate: Option<int>,
    pub bits_per_sample: Option<int>,
    /// Start and end of the data chunk's body.
    pub data: Option<(int, int)>,
}

pub open spec fn empty_scan() -> ChunkScan {
    ChunkScan { audio_format: None, channels: None, sample_rate: None, bits_per_sample: None, data: None }
}

/// Walk the chunks from `cursor`: an 8-byte header (id, little-endian size), the body,
/// and a pad byte after odd-sized bodies.
#[verifier::opaque]
pub open spec fn scan_chunks(b: Seq<u8>, cursor: int, acc: ChunkScan) -> Result<ChunkScan, WavFault>
    decreases b.len() + 1 - cursor,
{
    if cursor < 0 || cursor + 8 > b.len() {
        Ok(acc)
    } else {
        let size = u32_le(b, cursor + 4);
        let body = cursor + 8;
        let next = body + size + size % 2;
        if body + size > b.len() {
            Err(WavFault::ChunkPastEnd)
        } else if b.subrange(cursor, cursor + 4) == tag_fmt() {
            if size < 16 {
                Err(WavFault::FmtTooShort)
            } else {
                scan_chunks(
                    b,
                    next,
                    ChunkScan {
                        audio_format: Some(u16_le(b, body)),
                        channels: Some(u16_le(b, body + 2)),
                        sample_rate: Some(u32_le(b, body + 4)),
                        bits_per_sample: Some(u16_le(b, body + 14)),
                        ..acc
                    },
                )
            }
        } else if b.subrange(cursor, cursor + 4) == tag_data() {
            scan_chunks(b, next, ChunkScan { data: Some((body, body + size)), ..acc })
        } else {
            scan_chunks(b, next, acc)
        }
    }
}

/// One step of the chunk walk.
pub open spec fn scan_step(b: Seq<u8>, cursor: int, acc: ChunkScan) -> Result<ChunkScan, WavFault> {
    let size = u32_le(b, cursor + 4);
    let body = cursor + 8;
    let next = body + size + size % 2;
    if body + size > b.len() {
        Err(WavFault::ChunkPastEnd)
    } else if b.subrange(cursor, cursor + 4) == tag_fmt() {
        if size < 16 {
            Err(WavFault::FmtTooShort)
        } else {
            scan_chunks(
                b,
                next,
                ChunkScan {
                    audio_format: Some(u16_le(b, body)),
                    channels: Some(u16_le(b, body + 2)),
                    sample_rate: Some(u32_le(b, body + 4)),
                    bits_per_sample: Some(u16_le(b, body + 14)),
                    ..acc
                },
            )
        }
    } else if b.subrange(cursor, cursor + 4) == tag_data() {
        scan_chunks(b, next, ChunkScan { data: Some((body, body + size)), ..acc })
    } else {
        scan_chunks(b, next, acc)
    }
}

proof fn lemma_scan_step(b: Seq<u8>, cursor: int, acc: ChunkScan)
    requires
        0 <= cursor,
        cursor + 8 <= b.len(),
    ensures
        scan_chunks(b, cursor, acc) == scan_step(b, cursor, acc),
{
    reveal(scan_chunks);
}

/// What a chunk walk finds stays in range: a channel count that fits 16 bits, and a
/// data chunk that lies within the bytes, from `lo` on.
pub open spec fn scan_in_range(b: Seq<u8>, lo: int, s: ChunkScan) -> bool {
    &&& (s.channels matches Some(c) ==> 0 <= c <= 65535)
    &&& (s.data matches Some((start, end)) ==> lo <= start <= end <= b.len())
}

/// A chunk walk that starts in range, at or after `lo`, ends in range.
pub proof fn lemma_scan_in_range(b: Seq<u8>, lo: int, cursor: int, acc: ChunkScan)
    requires
        0 <= lo <= cursor,
        scan_in_range(b, lo, acc),
    ensures
        scan_chunks(b, cursor, acc) matches Ok(s) ==> scan_in_range(b, lo, s),
    decreases b.len() + 1 - cursor,
{
    reveal(scan_chunks);
    if cursor + 8 <= b.len() {
        let size = u32_le(b, cursor + 4);
        let body = cursor + 8;
        let next = body + size + size % 2;
        if body + size <= b.len() {
            if b.subrange(cursor, cursor + 4) == tag_fmt() {
                if size >= 16 {
                    lemma_scan_in_range(
                        b,
                        lo,
                        next,
                        ChunkScan {
                            audio_format: Some(u16_le(b, body)),
                            channels: Some(u16_le(b, body + 2)),
                            sample_rate: Some(u32_le(b, body + 4)),
                            bits_per_sample: Some(u16_le(b, body + 14)),
                            ..acc
                        },
                    );
                }
            } else if b.subrange(cursor, cursor + 4) == tag_data() {
                lemma_scan_in_range(b, lo, next, ChunkScan { data: Some((body, body + size)), ..acc });
            } else {
                lemma_scan_in_range(b, lo, next, acc);
            }
        }
    }
}

/// A chunk whose id is neither `fmt ` nor `data` is skipped: when it is well formed, the
/// walk goes on after it (and its pad byte) with nothing learnt from it.
pub proof fn law_unknown_chunk_is_skipped(b: Seq<u8>, cursor: int, acc: ChunkScan)
    requires
        0 <= cursor,
        cursor + 8 <= b.len(),
        cursor + 8 + u32_le(b, cursor + 4) <= b.len(),
        b.subrange(cursor, cursor + 4) != tag_fmt(),
        b.subrange(cursor, cursor + 4) != tag_data(),
    ensures
        ({
            let size = u32_le(b, cursor + 4);
            scan_chunks(b, cursor, acc) == scan_chunks(b, cursor + 8 + size + size % 2, acc)
        }),
{
    reveal(scan_chunks);
}

/// Two walks found the same: the same format fields, and data chunks (if any) holding
/// the same bytes.
pub open spec fn same_findings(b: Seq<u8>, s: ChunkScan, b2: Seq<u8>, s2: ChunkScan) -> bool {
    &&& s.audio_format == s2.audio_format
    &&& s.channels == s2.channels
    &&& s.sample_rate == s2.sample_rate
    &&& s.bits_per_sample == s2.bits_per_sample
    &&& match s.data {
        None => s2.data is None,
        Some((a, e)) => match s2.data {
            None => false,
            Some((a2, e2)) => 0 <= a <= e <= b.len() && 0 <= a2 <= e2 <= b2.len() && b.subrange(a, e)
                == b2.subrange(a2, e2),
        },
    }
}

/// Two walks ended alike: the same fault, or findings that agree.
pub open spec fn same_outcome(
    b: Seq<u8>,
    r: Result<ChunkScan, WavFault>,
    b2: Seq<u8>,
    r2: Result<ChunkScan, WavFault>,
) -> bool {
    match r {
        Ok(s) => match r2 {
            Ok(s2) => same_findings(b, s, b2, s2),
            Err(_) => false,
        },
        Err(f) => r2 == Err::<ChunkScan, WavFault>(f),
    }
}

/// Chunks that stand `l` bytes further on are walked alike, from findings that agree.
proof fn lemma_scan_shift_alike(b: Seq<u8>, b2: Seq<u8>, l: int, q: int, acc: ChunkScan, acc2: ChunkScan)
    requires
        l >= 0,
        q >= 0,
        b2.len() == b.len() + l,
        forall|i: int| q <= i < b.len() ==> b2[i + l] == #[trigger] b[i],
        same_findings(b, acc, b2, acc2),
    ensures
        same_outcome(b, scan_chunks(b, q, acc), b2, scan_chunks(b2, q + l, acc2)),
    decreases b.len() + 1 - q,
{
    reveal(scan_chunks);
    if q + 8 <= b.len() {
        let size = u32_le(b, q + 4);
        assert(b2[q + 4 + l] == b[q + 4] && b2[q + 5 + l] == b[q + 5] && b2[q + 6 + l] == b[q + 6]
            && b2[q + 7 + l] == b[q + 7]);
        assert(u32_le(b2, q + l + 4) == size);
        let body = q + 8;
        let next = body + size + size % 2;
        assert(b2.subrange(q + l, q + l + 4) =~= b.subrange(q, q + 4)) by {
            assert forall|k: int| 0 <= k < 4 implies #[trigger] b2.subrange(q + l, q + l + 4)[k] == b.subrange(q, q + 4)[k] by {
                assert(b[q + k] == b2[q + k + l]);
            }
        }
        if body + size <= b.len() {
            if b.subrange(q, q + 4) == tag_fmt() {
                if size >= 16 {
                    assert(b2[body + l] == b[body] && b2[body + 1 + l] == b[body + 1]);
                    assert(b2[body + 2 + l] == b[body + 2] && b2[body + 3 + l] == b[body + 3]);
                    assert(b2[body + 4 + l] == b[body + 4] && b2[body + 5 + l] == b[body + 5]);
                    assert(b2[body + 6 + l] == b[body + 6] && b2[body + 7 + l] == b[body + 7]);
                    assert(b2[body + 14 + l] == b[body + 14] && b2[body + 15 + l] == b[body + 15]);
                    let n1 = ChunkScan {
                        audio_format: Some(u16_le(b, body)),
                        channels: Some(u16_le(b, body + 2)),
                        sample_rate: Some(u32_le(b, body + 4)),
                        bits_per_sample: Some(u16_le(b, body + 14)),
                        ..acc
                    };
                    let n2 = ChunkScan {
                        audio_format: Some(u16_le(b2, body + l)),
                        channels: Some(u16_le(b2, body + l + 2)),
                        sample_rate: Some(u32_le(b2, body + l + 4)),
                        bits_per_sample: Some(u16_le(b2, body + l + 14)),
                        ..acc2
                    };
                    lemma_scan_shift_alike(b, b2, l, next, n1, n2);
                }
            } else if b.subrange(q, q + 4) == tag_data() {
                let n1 = ChunkScan { data: Some((body, body + size)), ..acc };
                let n2 = ChunkScan { data: Some((body + l, body + l + size)), ..acc2 };
                assert(b.subrange(body, body + size) =~= b2.subrange(body + l, body + l + size)) by {
                    assert forall|k: int| 0 <= k < size implies #[trigger] b.subrange(body, body + size)[k]
                        == b2.subrange(body + l, body + l + size)[k] by {
                        assert(b2[body + k + l] == b[body + k]);
                    }
                }
                lemma_scan_shift_alike(b, b2, l, next, n1, n2);
            } else {
                lemma_scan_shift_alike(b, b2, l, next, acc, acc2);
            }
        }
    }
}

/// The chunk walk from `q` lands exactly on `p`, every chunk on the way well formed and
/// ending by `p`, and what it has learnt on arriving.
pub open spec fn walk_to(b: Seq<u8>, q: int, p: int, acc: ChunkScan) -> Option<ChunkScan>
    decreases p - q,
{
    if q == p {
        Some(acc)
    } else if q < 0 || q + 8 > p {
        None
    } else {
        let size = u32_le(b, q + 4);
        let body = q + 8;
        let next = body + size + size % 2;
        if next > p {
            None
        } else if b.subrange(q, q + 4) == tag_fmt() {
            if size < 16 {
                None
            } else {
                walk_to(
                    b,
                    next,
                    p,
                    ChunkScan {
                        audio_format: Some(u16_le(b, body)),
                        channels: Some(u16_le(b, body + 2)),
                        sample_rate: Some(u32_le(b, body + 4)),
                        bits_per_sample: Some(u16_le(b, body + 14)),
                        ..acc
                    },
                )
            }
        } else if b.subrange(q, q + 4) == tag_data() {
            walk_to(b, next, p, ChunkScan { data: Some((body, body + size)), ..acc })
        } else {
            walk_to(b, next, p, acc)
        }
    }
}

/// A walk that lands on `p` goes on from there with what it learnt on the way; it
/// only reads bytes before `p`, and any data chunk it found lies before `p`.
proof fn lemma_walk_to(b: Seq<u8>, b2: Seq<u8>, q: int, p: int, acc: ChunkScan)
    requires
        0 <= q,
        walk_to(b, q, p, acc) is Some,
        p <= b.len(),
        p <= b2.len(),
        forall|i: int| 0 <= i < p ==> b2[i] == #[trigger] b[i],
        acc.data matches Some((a, e)) ==> 0 <= a <= e <= p,
    ensures
        scan_chunks(b, q, acc) == scan_chunks(b, p, walk_to(b, q, p, acc)->0),
        scan_chunks(b2, q, acc) == scan_chunks(b2, p, walk_to(b, q, p, acc)->0),
        walk_to(b2, q, p, acc) == walk_to(b, q, p, acc),
        walk_to(b, q, p, acc)->0.data matches Some((a, e)) ==> 0 <= a <= e <= p,
    decreases p - q,
{
    reveal(scan_chunks);
    if q != p {
        let size = u32_le(b, q + 4);
        assert(b2[q + 4] == b[q + 4] && b2[q + 5] == b[q + 5] && b2[q + 6] == b[q + 6] && b2[q + 7] == b[q + 7]);
        assert(u32_le(b2, q + 4) == size);
        assert(b2.subrange(q, q + 4) =~= b.subrange(q, q + 4)) by {
            assert forall|k: int| 0 <= k < 4 implies #[trigger] b2.subrange(q, q + 4)[k] == b.subrange(q, q + 4)[k] by {
                assert(b2[q + k] == b[q + k]);
            }
        }
        let body = q + 8;
        let next = body + size + size % 2;
        if b.subrange(q, q + 4) == tag_fmt() {
            assert(b2[body] == b[body] && b2[body + 1] == b[body + 1]);
            assert(b2[body + 2] == b[body + 2] && b2[body + 3] == b[body + 3]);
            assert(b2[body + 4] == b[body + 4] && b2[body + 5] == b[body + 5]);
            assert(b2[body + 6] == b[body + 6] && b2[body + 7] == b[body + 7]);
            assert(b2[body + 14] == b[body + 14] && b2[body + 15] == b[body + 15]);
            let n = ChunkScan {
                audio_format: Some(u16_le(b, body)),
                channels: Some(u16_le(b, body + 2)),
                sample_rate: Some(u32_le(b, body + 4)),
                bits_per_sample: Some(u16_le(b, body + 14)),
                ..acc
            };
            lemma_walk_to(b, b2, next, p, n);
        } else if b.subrange(q, q + 4) == tag_data() {
            lemma_walk_to(b, b2, next, p, ChunkScan { data: Some((body, body + size)), ..acc });
        } else {
            lemma_walk_to(b, b2, next, p, acc);
        }
    }
}

/// Decoding reads the walk's findings only: files with the same header and walks that
/// end alike decode alike.
proof fn lemma_decode_alike(b: Seq<u8>, b2: Seq<u8>, strict: bool)
    requires
        b.len() >= 44,
        b2.len() >= 44,
        b2.subrange(0, 4) == b.subrange(0, 4),
        b2.subrange(8, 12) == b.subrange(8, 12),
        same_outcome(b, scan_chunks(b, 12, empty_scan()), b2, scan_chunks(b2, 12, empty_scan())),
    ensures
        decode_spec(b2, strict) == decode_spec(b, strict),
{
}

/// Decoding ignores chunks it does not know: putting a well-formed chunk whose id is
/// neither `fmt ` nor `data` (such as `LIST`) at any chunk boundary of a file, say
/// between its `fmt ` and `data` chunks, leaves what decoding gives unchanged, strict
/// or not.
pub proof fn law_inserted_unknown_chunk_leaves_decode_unchanged(
    b: Seq<u8>,
    p: int,
    id: Seq<u8>,
    body: Seq<u8>,
    strict: bool,
)
    requires
        b.len() >= 44,
        12 <= p <= b.len(),
        walk_to(b, 12, p, empty_scan()) is Some,
        id.len() == 4,
        id != tag_fmt(),
        id != tag_data(),
        body.len() < 0x1_0000_0000,
    ensures
        decode_spec(b.subrange(0, p) + chunk_bytes(id, body) + b.subrange(p, b.len() as int), strict)
            == decode_spec(b, strict),
{
    let c = chunk_bytes(id, body);
    let l = c.len() as int;
    let b2 = b.subrange(0, p) + c + b.subrange(p, b.len() as int);
    let size = body.len() as int;
    assert(l == 8 + size + size % 2);
    assert(b2.len() == b.len() + l);
    assert forall|i: int| 0 <= i < p implies b2[i] == #[trigger] b[i] by {}
    assert(b2.subrange(0, 4) =~= b.subrange(0, 4));
    assert(b2.subrange(8, 12) =~= b.subrange(8, 12));
    assert(b2.subrange(p, p + 4) =~= id);
    assert(b2.subrange(p + 4, p + 8) =~= le32(size));
    lemma_le32_reads_back(b2, p + 4, size);
    lemma_walk_to(b, b2, 12, p, empty_scan());
    let a = walk_to(b, 12, p, empty_scan())->0;
    law_unknown_chunk_is_skipped(b2, p, a);
    assert forall|i: int| p <= i < b.len() implies b2[i + l] == #[trigger] b[i] by {
        assert(b2[i + l] == b.subrange(p, b.len() as int)[i - p]);
    }
    match a.data {
        Some((x, e)) => {
            assert(b.subrange(x, e) =~= b2.subrange(x, e)) by {
                assert forall|k: int| 0 <= k < e - x implies #[trigger] b.subrange(x, e)[k] == b2.subrange(x, e)[k] by {
                    assert(b2[x + k] == b[x + k]);
                }
            }
        },
        None => {},
    }
    assert(same_findings(b, a, b2, a));
    lemma_scan_shift_alike(b, b2, l, p, a, a);
    lemma_decode_alike(b, b2, strict);
}

/// The bytes of a chunk: its id, its little-endian size, its body, and a pad byte after
/// an odd-sized body.
pub open spec fn chunk_bytes(id: Seq<u8>, body: Seq<u8>) -> Seq<u8> {
    id + le32(body.len() as int) + body + if body.len() % 2 == 1 { seq![0u8] } else { seq![] }
}

proof fn lemma_scan_stop(b: Seq<u8>, cursor: int, acc: ChunkScan)
    requires
        cursor + 8 > b.len(),
    ensures
        scan_chunks(b, cursor, acc) == Ok::<ChunkScan, WavFault>(acc),
{
    reveal(scan_chunks);
}

proof fn lemma_decode_scan_error(b: Seq<u8>, strict: bool, f: WavFault)
    requires
        b.len() >= 44,
        b.subrange(0, 4) == tag_riff(),
        b.subrange(8, 12) == tag_wave(),
        scan_chunks(b, 12, empty_scan()) == Err::<ChunkScan, WavFault>(f),
    ensures
        decode_spec(b, strict) == Err::<PcmView, WavFault>(f),
{
}

/// The samples of a PCM16 data body, two little-endian bytes each.
pub open spec fn pcm_samples(d: Seq<u8>) -> Seq<i16> {
    Seq::new(d.len() / 2, |i: int| i16_le(d[2 * i], d[2 * i + 1]))
}

/// Decode a WAV file. `strict` adds the checks that the channel count is positive and
/// that the samples fill whole frames.
pub open spec fn decode_spec(b: Seq<u8>, strict: bool) -> Result<PcmView, WavFault> {
    if b.len() < 44 || b.subrange(0, 4) != tag_riff() || b.subrange(8, 12) != tag_wave() {
        Err(WavFault::NotRiffWave)
    } else {
        match scan_chunks(b, 12, empty_scan()) {
            Err(f) => Err(f),
            Ok(s) => {
                if s.audio_format != Some(1int) || s.bits_per_sample != Some(16int) {
                    Err(WavFault::NotPcm16)
                } else if s.channels is None {
                    Err(WavFault::MissingChannels)
                } else if strict && s.channels == Some(0int) {
                    Err(WavFault::ZeroChannels)
                } else if s.sample_rate is None {
                    Err(WavFault::MissingSampleRate)
                } else if s.data is None {
                    Err(WavFault::MissingData)
                } else {
                    let (start, end) = s.data->0;
                    let d = b.subrange(start, end);
                    let channels = s.channels->0;
                    if d.len() % 2 != 0 {
                        Err(WavFault::OddDataLength)
                    } else if strict && ((d.len() / 2) as int) % channels != 0 {
                        Err(WavFault::MisalignedData)
                    } else {
                        Ok(PcmView {
                            sample_rate: s.sample_rate->0 as u32,
                            channels: channels as u16,
                            samples: pcm_samples(d),
                        })
                    }
                }
            },
        }
    }
}

pub open spec fn opt_int_u16(o: Option<u16>) -> Option<int> {
    match o { Some(v) => Some(v as int), None => None }
}

pub open spec fn opt_int_u32(o: Option<u32>) -> Option<int> {
    match o { Some(v) => Some(v as int), None => None }
}

pub open spec fn scan_state(
    audio_format: Option<u16>,
    channels: Option<u16>,
    sample_rate: Option<u32>,
    bits: Option<u16>,
    data: Option<(usize, usize)>,
) -> ChunkScan {
    ChunkScan {
        audio_format: opt_int_u16(audio_format),
        channels: opt_int_u16(channels),
        sample_rate: opt_int_u32(sample_rate),
        bits_per_sample: opt_int_u16(bits),
        data: match data { Some((s, e)) => Some((s as int, e as int)), None => None },
    }
}

fn read_u16_le(b: &[u8], i: usize) -> (v: u16)
    requires
        i + 2 <= b@.len(),
    ensures
        v as int == u16_le(b@, i as int),
{
    (b[i] as u16) + 256 * (b[i + 1] as u16)
}

fn read_u32_le(b: &[u8], i: usize) -> (v: u32)
    requires
        i + 4 <= b@.len(),
    ensures
        v as int == u32_le(b@, i as int),
{
    (b[i] as u32) + 256 * (b[i + 1] as u32) + 65536 * (b[i + 2] as u32) + 16777216 * (b[i
        + 3] as u32)
}

fn tag_at(b: &[u8], i: usize, t0: u8, t1: u8, t2: u8, t3: u8) -> (r: bool)
    requires
        i + 4 <= b@.len(),
    ensures
        r == (b@.subrange(i as int, i + 4) == seq![t0, t1, t2, t3]),
{
    let r = b[i] == t0 && b[i + 1] == t1 && b[i + 2] == t2 && b[i + 3] == t3;
    proof {
        let s = b@.subrange(i as int, i + 4);
        if r {
            assert(s =~= seq![t0, t1, t2, t3]);
        } else {
            if s == seq![t0, t1, t2, t3] {
                assert(s[0] == t0 && s[1] == t1 && s[2] == t2 && s[3] == t3);
            }
        }
    }
    r
}

/// Decode a 16-bit PCM WAV file from its bytes.
pub fn decode_pcm16_wav(bytes: &[u8], strict: bool) -> (r: Result<Pcm16Wav, WavFault>)
    ensures
        match r {
            Ok(w) => decode_spec(bytes@, strict) == Ok::<PcmView, WavFault>(w@),
            Err(f) => decode_spec(bytes@, strict) == Err::<PcmView, WavFault>(f),
        },
        (strict && r is Ok) ==> r->Ok_0.channels > 0,
{
    let b = bytes;
    if b.len() < 44 || !tag_at(b, 0, 0x52, 0x49, 0x46, 0x46) || !tag_at(b, 8, 0x57, 0x41, 0x56, 0x45) {
        return Err(WavFault::NotRiffWave);
    }
    let mut cursor: usize = 12;
    let mut audio_format: Option<u16> = None;
    let mut channels: Option<u16> = None;
    let mut sample_rate: Option<u32> = None;
    let mut bits: Option<u16> = None;
    let mut data: Option<(usize, usize)> = None;
    assert(scan_state(audio_format, channels, sample_rate, bits, data) == empty_scan());
    loop
        invariant
            12 <= cursor <= b@.len() + 1,
            b@ == bytes@,
            b@.len() >= 44,
            b@.subrange(0, 4) == tag_riff(),
            b@.subrange(8, 12) == tag_wave(),
            scan_chunks(b@, 12, empty_scan()) == scan_chunks(
                b@,
                cursor as int,
                scan_state(audio_format, channels, sample_rate, bits, data),
            ),
            match data { Some((s, e)) => s <= e <= b@.len(), None => true },
        ensures
            scan_chunks(b@, 12, empty_scan()) == Ok::<ChunkScan, WavFault>(
                scan_state(audio_format, channels, sample_rate, bits, data),
            ),
            match data { Some((s, e)) => s <= e <= b@.len(), None => true },
        decreases b@.len() + 1 - cursor,
    {
        let ghost acc = scan_state(audio_format, channels, sample_rate, bits, data);
        if cursor > b.len() || b.len() - cursor < 8 {
            proof {
                lemma_scan_stop(b@, cursor as int, acc);
            }
            break;
        }
        let size = read_u32_le(b, cursor + 4);
        let body = cursor + 8;
        if (size as u64) > ((b.len() - body) as u64) {
            proof {
                lemma_scan_step(b@, cursor as int, acc);
                lemma_decode_scan_error(b@, strict, WavFault::ChunkPastEnd);
            }
            return Err(WavFault::ChunkPastEnd);
        }
        let size_us = size as usize;
        let end = body + size_us;
        let next = if size_us % 2 == 1 && end < b.len() { end + 1 } else { end };
        let ghost spec_next = (body + size + size % 2) as int;
        let is_fmt = tag_at(b, cursor, 0x66, 0x6d, 0x74, 0x20);
        let is_data = tag_at(b, cursor, 0x64, 0x61, 0x74, 0x61);
        if is_fmt {
            if size < 16 {
                proof {
                    lemma_scan_step(b@, cursor as int, acc);
                    lemma_decode_scan_error(b@, strict, WavFault::FmtTooShort);
                }
                return Err(WavFault::FmtTooShort);
            }
            audio_format = Some(read_u16_le(b, body));
            channels = Some(read_u16_le(b, body + 2));
            sample_rate = Some(read_u32_le(b, body + 4));
            bits = Some(read_u16_le(b, body + 14));
        } else if is_data {
            data = Some((body, end));
        }
        proof {
            let acc2 = scan_state(audio_format, channels, sample_rate, bits, data);
            lemma_scan_step(b@, cursor as int, acc);
            assert(scan_chunks(b@, cursor as int, acc) == scan_chunks(b@, spec_next, acc2));
            if spec_next != next as int {
                lemma_scan_stop(b@, spec_next, acc2);
                lemma_scan_stop(b@, next as int, acc2);
            }
        }
        cursor = next;
    }
    if audio_format != Some(1u16) || bits != Some(16u16) {
        return Err(WavFault::NotPcm16);
    }
    let channels = match channels {
        Some(c) => c,
        None => {
            return Err(WavFault::MissingChannels);
        },
    };
    if strict && channels == 0 {
        return Err(WavFault::ZeroChannels);
    }
    let sample_rate = match sample_rate {
        Some(r) => r,
        None => {
            return Err(WavFault::MissingSampleRate);
        },
    };
    let (start, end) = match data {
        Some(d) => d,
        None => {
            return Err(WavFault::MissingData);
        },
    };
    if (end - start) % 2 != 0 {
        return Err(WavFault::OddDataLength);
    }
    let count = (end - start) / 2;
    if strict && count % (channels as usize) != 0 {
        return Err(WavFault::MisalignedData);
    }
    let ghost d = b@.subrange(start as int, end as int);
    let mut samples: Vec<i16> = Vec::new();
    let mut i: usize = 0;
    while i < count
        invariant
            start <= end <= b@.len(),
            count == (end - start) / 2,
            d == b@.subrange(start as int, end as int),
            i <= count,
            samples@.len() == i,
            forall|k: int| 0 <= k < i ==> #[trigger] samples@[k] == pcm_samples(d)[k],
        decreases count - i,
    {
        let lo = b[start + 2 * i];
        let hi = b[start + 2 * i + 1];
        let u: i32 = lo as i32 + 256 * (hi as i32);
        let s: i16 = if u >= 32768 { (u - 65536) as i16 } else { u as i16 };
        assert(d[2 * i as int] == lo && d[2 * i + 1] == hi);
        samples.push(s);
        i = i + 1;
    }
    assert(samples@ =~= pcm_samples(d));
    Ok(Pcm16Wav { sample_rate, channels, samples })
}

// ---------------------------------------------------------------------------
// Writing
// ---------------------------------------------------------------------------

/// Why a buffer cannot be written as a WAV file.
#[derive(Debug, PartialEq, Eq, Clone, Copy)]
pub enum WavWriteFault {
    ChannelMismatch,
    TooLarge,
    InvalidByteRate,
    InvalidBlockAlign,
}

/// The human-readable text of each write fault.
pub open spec fn write_fault_text(f: WavWriteFault) -> Seq<char> {
    match f {
        WavWriteFault::ChannelMismatch => "buffer sample count must be divisible by channel count"@,
        WavWriteFault::TooLarge => "render too large for WAV"@,
        WavWriteFault::InvalidByteRate => "invalid WAV byte rate"@,
        WavWriteFault::InvalidBlockAlign => "invalid WAV block align"@,
    }
}

impl WavWriteFault {
    /// The human-readable reason.
    pub fn message(&self) -> (s: &'static str)
        ensures
            s@ == write_fault_text(*self),
    {
        match self {
            WavWriteFault::ChannelMismatch => "buffer sample count must be divisible by channel count",
            WavWriteFault::TooLarge => "render too large for WAV",
            WavWriteFault::InvalidByteRate => "invalid WAV byte rate",
            WavWriteFault::InvalidBlockAlign => "invalid WAV block align",
        }
    }
}

pub open spec fn le16(x: int) -> Seq<u8> {
    seq![(x % 256) as u8, ((x / 256) % 256) as u8]
}

pub open spec fn le32(x: int) -> Seq<u8> {
    seq![(x % 256) as u8, ((x / 256) % 256) as u8, ((x / 65536) % 256) as u8, ((x / 16777216) % 256) as u8]
}

/// Two's-complement little-endian bytes of a sample.
pub open spec fn sample_bytes(s: i16) -> Seq<u8> {
    let u = if s < 0 { s as int + 65536 } else { s as int };
    seq![(u % 256) as u8, (u / 256) as u8]
}

pub open spec fn samples_bytes(s: Seq<i16>) -> Seq<u8>
    decreases s.len(),
{
    if s.len() == 0 {
        seq![]
    } else {
        samples_bytes(s.drop_last()) + sample_bytes(s.last())
    }
}

/// The canonical 44-byte header for `data_bytes` bytes of samples.
#[verifier::opaque]
pub open spec fn wav_header(sample_rate: u32, channels: u16, data_bytes: int) -> Seq<u8> {
    tag_riff() + le32(36 + data_bytes) + tag_wave() + tag_fmt() + le32(16) + le16(1) + le16(
        channels as int,
    ) + le32(sample_rate as int) + le32(sample_rate * channels * 2) + le16(channels * 2) + le16(16)
        + tag_data() + le32(data_bytes)
}

/// The canonical 44-byte header followed by the samples.
pub open spec fn wav_bytes(sample_rate: u32, channels: u16, samples: Seq<i16>) -> Seq<u8> {
    wav_header(sample_rate, channels, 2 * samples.len() as int) + samples_bytes(samples)
}

/// When a buffer can be written, which fault stops it otherwise.
pub open spec fn encode_spec(sample_rate: u32, channels: u16, samples: Seq<i16>) -> Result<
    Seq<u8>,
    WavWriteFault,
> {
    if channels == 0 || (samples.len() as int) % (channels as int) != 0 {
        Err(WavWriteFault::ChannelMismatch)
    } else if 2 * samples.len() > u32::MAX || 36 + 2 * samples.len() > u32::MAX {
        Err(WavWriteFault::TooLarge)
    } else if sample_rate * channels * 2 > u32::MAX {
        Err(WavWriteFault::InvalidByteRate)
    } else if channels * 2 > u16::MAX {
        Err(WavWriteFault::InvalidBlockAlign)
    } else {
        Ok(wav_bytes(sample_rate, channels, samples))
    }
}

fn push_le16(out: &mut Vec<u8>, x: u16)
    ensures
        final(out)@ == old(out)@ + le16(x as int),
{
    out.push((x % 256) as u8);
    out.push((x / 256) as u8);
    assert(out@ =~= old(out)@ + le16(x as int));
}

fn push_le32(out: &mut Vec<u8>, x: u32)
    ensures
        final(out)@ == old(out)@ + le32(x as int),
{
    out.push((x % 256) as u8);
    out.push(((x / 256) % 256) as u8);
    out.push(((x / 65536) % 256) as u8);
    out.push(((x / 16777216) % 256) as u8);
    assert(out@ =~= old(out)@ + le32(x as int));
}

fn push_tag(out: &mut Vec<u8>, t0: u8, t1: u8, t2: u8, t3: u8)
    ensures
        final(out)@ == old(out)@ + seq![t0, t1, t2, t3],
{
    out.push(t0);
    out.push(t1);
    out.push(t2);
    out.push(t3);
    assert(out@ =~= old(out)@ + seq![t0, t1, t2, t3]);
}

/// Encode interleaved 16-bit samples as a canonical PCM WAV file.
pub fn encode_pcm16_wav(sample_rate: u32, channels: u16, samples: &Vec<i16>) -> (r: Result<
    Vec<u8>,
    WavWriteFault,
>)
    ensures
        match r {
            Ok(bytes) => encode_spec(sample_rate, channels, samples@) == Ok::<Seq<u8>, WavWriteFault>(bytes@),
            Err(f) => encode_spec(sample_rate, channels, samples@) == Err::<Seq<u8>, WavWriteFault>(f),
        },
{
    if channels == 0 || samples.len() % (channels as usize) != 0 {
        return Err(WavWriteFault::ChannelMismatch);
    }
    if samples.len() > 2147483647 || 2 * samples.len() > 4294967295 - 36 {
        return Err(WavWriteFault::TooLarge);
    }
    let data_bytes = (2 * samples.len()) as u32;
    let riff_size = 36 + data_bytes;
    assert((sample_rate as u64) * (channels as u64) <= 4294967295u64 * 65535u64) by (nonlinear_arith)
        requires sample_rate <= 4294967295u32, channels <= 65535u16;
    let byte_rate_wide: u64 = (sample_rate as u64) * (channels as u64) * 2;
    if byte_rate_wide > 4294967295 {
        return Err(WavWriteFault::InvalidByteRate);
    }
    let byte_rate = byte_rate_wide as u32;
    if (channels as u32) * 2 > 65535 {
        return Err(WavWriteFault::InvalidBlockAlign);
    }
    let block_align = channels * 2;
    let mut out: Vec<u8> = Vec::new();
    push_tag(&mut out, 0x52, 0x49, 0x46, 0x46);
    push_le32(&mut out, riff_size);
    push_tag(&mut out, 0x57, 0x41, 0x56, 0x45);
    push_tag(&mut out, 0x66, 0x6d, 0x74, 0x20);
    push_le32(&mut out, 16);
    push_le16(&mut out, 1);
    push_le16(&mut out, channels);
    push_le32(&mut out, sample_rate);
    push_le32(&mut out, byte_rate);
    push_le16(&mut out, block_align);
    push_le16(&mut out, 16);
    push_tag(&mut out, 0x64, 0x61, 0x74, 0x61);
    push_le32(&mut out, data_bytes);
    let ghost header = out@;
    let mut i: usize = 0;
    while i < samples.len()
        invariant
            i <= samples@.len(),
            out@ == header + samples_bytes(samples@.subrange(0, i as int)),
        decreases samples@.len() - i,
    {
        let s = samples[i];
        let u: u16 = if s < 0 { (s as i32 + 65536) as u16 } else { s as u16 };
        out.push((u % 256) as u8);
        out.push((u / 256) as u8);
        proof {
            let sub = samples@.subrange(0, i + 1);
            assert(sub.drop_last() =~= samples@.subrange(0, i as int));
            assert(sub.last() == s);
            assert(out@ =~= header + samples_bytes(sub));
        }
        i = i + 1;
    }
    assert(samples@.subrange(0, i as int) =~= samples@);
    reveal(wav_header);
    assert(out@ =~= wav_bytes(sample_rate, channels, samples@));
    Ok(out)
}


// ---------------------------------------------------------------------------
// Reading back what was written
// ---------------------------------------------------------------------------

proof fn lemma_le32_reads_back(b: Seq<u8>, i: int, x: int)
    requires
        0 <= x < 0x1_0000_0000,
        0 <= i,
        i + 4 <= b.len(),
        b.subrange(i, i + 4) == le32(x),
    ensures
        u32_le(b, i) == x,
{
    assert(b[i] == b.subrange(i, i + 4)[0]);
    assert(b[i + 1] == b.subrange(i, i + 4)[1]);
    assert(b[i + 2] == b.subrange(i, i + 4)[2]);
    assert(b[i + 3] == b.subrange(i, i + 4)[3]);
    assert(x == x % 256 + 256 * ((x / 256) % 256) + 65536 * ((x / 65536) % 256) + 16777216 * ((x
        / 16777216) % 256)) by (nonlinear_arith)
        requires
            0 <= x < 0x1_0000_0000,
    ;
}

proof fn lemma_le16_reads_back(b: Seq<u8>, i: int, x: int)
    requires
        0 <= x < 0x1_0000,
        0 <= i,
        i + 2 <= b.len(),
        b.subrange(i, i + 2) == le16(x),
    ensures
        u16_le(b, i) == x,
{
    assert(b[i] == b.subrange(i, i + 2)[0]);
    assert(b[i + 1] == b.subrange(i, i + 2)[1]);
    assert(x == x % 256 + 256 * ((x / 256) % 256)) by (nonlinear_arith)
        requires
            0 <= x < 0x1_0000,
    ;
}

proof fn lemma_sample_reads_back(s: i16)
    ensures
        i16_le(sample_bytes(s)[0], sample_bytes(s)[1]) == s,
{
    let u = if s < 0 { s as int + 65536 } else { s as int };
    assert(u == u % 256 + 256 * (u / 256)) by (nonlinear_arith)
        requires
            0 <= u < 0x1_0000,
    ;
}

proof fn lemma_samples_bytes_shape(s: Seq<i16>)
    ensures
        samples_bytes(s).len() == 2 * s.len(),
        forall|i: int| 0 <= i < s.len() ==> #[trigger] samples_bytes(s)[2 * i] == sample_bytes(s[i])[0]
            && samples_bytes(s)[2 * i + 1] == sample_bytes(s[i])[1],
    decreases s.len(),
{
    if s.len() > 0 {
        lemma_samples_bytes_shape(s.drop_last());
        let p = samples_bytes(s.drop_last());
        assert forall|i: int| 0 <= i < s.len() implies #[trigger] samples_bytes(s)[2 * i]
            == sample_bytes(s[i])[0] && samples_bytes(s)[2 * i + 1] == sample_bytes(s[i])[1] by {
            if i < s.len() - 1 {
                assert(s.drop_last()[i] == s[i]);
                assert(samples_bytes(s)[2 * i] == p[2 * i]);
                assert(samples_bytes(s)[2 * i + 1] == p[2 * i + 1]);
            }
        }
    }
}

proof fn lemma_pcm_samples_of_bytes(s: Seq<i16>)
    ensures
        pcm_samples(samples_bytes(s)) == s,
{
    lemma_samples_bytes_shape(s);
    let d = samples_bytes(s);
    assert forall|i: int| 0 <= i < s.len() implies #[trigger] pcm_samples(d)[i] == s[i] by {
        assert(d[2 * i] == sample_bytes(s[i])[0]);
        lemma_sample_reads_back(s[i]);
    }
    assert(pcm_samples(d) =~= s);
}

#[verifier::spinoff_prover]
proof fn lemma_header_fields(sample_rate: u32, channels: u16, data_bytes: int)
    ensures
        ({
            let h = wav_header(sample_rate, channels, data_bytes);
            &&& h.len() == 44
            &&& h.subrange(0, 4) == tag_riff()
            &&& h.subrange(8, 12) == tag_wave()
            &&& h.subrange(12, 16) == tag_fmt()
            &&& h.subrange(16, 20) == le32(16)
            &&& h.subrange(20, 22) == le16(1)
            &&& h.subrange(22, 24) == le16(channels as int)
            &&& h.subrange(24, 28) == le32(sample_rate as int)
            &&& h.subrange(34, 36) == le16(16)
            &&& h.subrange(36, 40) == tag_data()
            &&& h.subrange(40, 44) == le32(data_bytes)
        }),
{
    let h = wav_header(sample_rate, channels, data_bytes);
    assert(h.len() == 44) by {
        reveal(wav_header);
    }
    assert(h.subrange(0, 4) =~= tag_riff()) by {
        reveal(wav_header);
    }
    assert(h.subrange(8, 12) =~= tag_wave()) by {
        reveal(wav_header);
    }
    assert(h.subrange(12, 16) =~= tag_fmt()) by {
        reveal(wav_header);
    }
    assert(h.subrange(16, 20) =~= le32(16)) by {
        reveal(wav_header);
    }
    assert(h.subrange(20, 22) =~= le16(1)) by {
        reveal(wav_header);
    }
    assert(h.subrange(22, 24) =~= le16(channels as int)) by {
        reveal(wav_header);
    }
    assert(h.subrange(24, 28) =~= le32(sample_rate as int)) by {
        reveal(wav_header);
    }
    assert(h.subrange(34, 36) =~= le16(16)) by {
        reveal(wav_header);
    }
    assert(h.subrange(36, 40) =~= tag_data()) by {
        reveal(wav_header);
    }
    assert(h.subrange(40, 44) =~= le32(data_bytes)) by {
        reveal(wav_header);
    }
}

proof fn lemma_prefix_subrange(h: Seq<u8>, t: Seq<u8>, i: int, j: int)
    requires
        0 <= i <= j <= h.len(),
    ensures
        (h + t).subrange(i, j) == h.subrange(i, j),
{
    assert((h + t).subrange(i, j) =~= h.subrange(i, j));
}

proof fn lemma_scan_canonical(b: Seq<u8>, sample_rate: u32, channels: u16, data_bytes: int)
    requires
        data_bytes >= 0,
        data_bytes % 2 == 0,
        b.len() == 44 + data_bytes,
        b.subrange(12, 16) == tag_fmt(),
        b.subrange(36, 40) == tag_data(),
        u32_le(b, 16) == 16,
        u16_le(b, 20) == 1,
        u16_le(b, 22) == channels as int,
        u32_le(b, 24) == sample_rate as int,
        u16_le(b, 34) == 16,
        u32_le(b, 40) == data_bytes,
    ensures
        scan_chunks(b, 12, empty_scan()) == Ok::<ChunkScan, WavFault>(
            ChunkScan {
                audio_format: Some(1int),
                channels: Some(channels as int),
                sample_rate: Some(sample_rate as int),
                bits_per_sample: Some(16int),
                data: Some((44int, 44 + data_bytes)),
            },
        ),
{
    assert(tag_fmt() != tag_data()) by {
        assert(tag_fmt()[0] != tag_data()[0]);
    }
    let after_fmt = ChunkScan {
        audio_format: Some(1int),
        channels: Some(channels as int),
        sample_rate: Some(sample_rate as int),
        bits_per_sample: Some(16int),
        data: None,
    };
    let after_data = ChunkScan { data: Some((44int, 44 + data_bytes)), ..after_fmt };
    lemma_scan_step(b, 12, empty_scan());
    assert(scan_chunks(b, 12, empty_scan()) == scan_chunks(b, 36, after_fmt));
    lemma_scan_step(b, 36, after_fmt);
    assert(scan_chunks(b, 36, after_fmt) == scan_chunks(b, 44 + data_bytes, after_data));
    lemma_scan_stop(b, 44 + data_bytes, after_data);
}

/// What is written reads back: every buffer that encodes decodes to the same
/// sample rate, channel count and samples, under the stricter checks as well.
pub proof fn law_wav_round_trip(sample_rate: u32, channels: u16, samples: Seq<i16>, strict: bool)
    requires
        encode_spec(sample_rate, channels, samples) is Ok,
    ensures
        decode_spec(wav_bytes(sample_rate, channels, samples), strict) == Ok::<PcmView, WavFault>(
            PcmView { sample_rate, channels, samples },
        ),
{
    let n = samples.len() as int;
    let data_bytes = 2 * n;
    let h = wav_header(sample_rate, channels, data_bytes);
    let t = samples_bytes(samples);
    let b = wav_bytes(sample_rate, channels, samples);
    lemma_samples_bytes_shape(samples);
    lemma_header_fields(sample_rate, channels, data_bytes);
    assert(b == h + t);
    assert(b.len() == 44 + data_bytes);
    lemma_prefix_subrange(h, t, 0, 4);
    lemma_prefix_subrange(h, t, 8, 12);
    lemma_prefix_subrange(h, t, 12, 16);
    lemma_prefix_subrange(h, t, 16, 20);
    lemma_prefix_subrange(h, t, 20, 22);
    lemma_prefix_subrange(h, t, 22, 24);
    lemma_prefix_subrange(h, t, 24, 28);
    lemma_prefix_subrange(h, t, 34, 36);
    lemma_prefix_subrange(h, t, 36, 40);
    lemma_prefix_subrange(h, t, 40, 44);
    assert(b.subrange(44, 44 + data_bytes) =~= t);
    lemma_le32_reads_back(b, 16, 16);
    lemma_le16_reads_back(b, 20, 1);
    lemma_le16_reads_back(b, 22, channels as int);
    lemma_le32_reads_back(b, 24, sample_rate as int);
    lemma_le16_reads_back(b, 34, 16);
    lemma_le32_reads_back(b, 40, data_bytes);
    lemma_scan_canonical(b, sample_rate, channels, data_bytes);
    lemma_pcm_samples_of_bytes(samples);
    assert(((data_bytes / 2) as int) % (channels as int) == 0) by {
        assert(data_bytes / 2 == n);
    }
}

} // verus!
