//! Content-addressed media: hashing, the media index, verification, relinking, and
//! waveform preview peaks.

use sha2::{Digest, Sha256};
use vstd::prelude::*;

use crate::cli::path_file_name_of;
use crate::history::{lex_le, text_le};
use crate::text::{chars_of, concat2, concat4, copy_opt_string, hex_fixed, opt_view, push_hex_fixed, str_eq, string_from_chars};
use crate::wav::{decode_pcm16_wav, decode_spec, empty_scan, lemma_scan_in_range, scan_chunks, fault_text, Pcm16Wav, PcmView};

verus! {

/// Default number of peak buckets in a waveform preview.
pub const DEFAULT_WAVEFORM_POINTS: usize = 512;

/// Content-addressed media object.
#[derive(Debug, PartialEq, Eq)]
pub struct MediaObject {
    /// SHA-256 content hash.
    pub hash: String,
    /// Original import path for user-facing relinking context.
    pub original_path: String,
    /// File extension, lowercased without the dot.
    pub extension: Option<String>,
    /// File byte size.
    pub byte_size: u64,
    /// Sample rate when known.
    pub sample_rate: Option<u32>,
    /// Channel count when known.
    pub channels: Option<u16>,
    /// Duration in samples when known.
    pub duration_samples: Option<u64>,
}

#[verifier::ext_equal]
pub struct MediaObjectView {
    pub hash: Seq<char>,
    pub original_path: Seq<char>,
    pub extension: Option<Seq<char>>,
    pub byte_size: u64,
    pub sample_rate: Option<u32>,
    pub channels: Option<u16>,
    pub duration_samples: Option<u64>,
}

impl View for MediaObject {
    type V = MediaObjectView;

    open spec fn view(&self) -> MediaObjectView {
        MediaObjectView {
            hash: self.hash@,
            original_path: self.original_path@,
            extension: opt_view(self.extension),
            byte_size: self.byte_size,
            sample_rate: self.sample_rate,
            channels: self.channels,
            duration_samples: self.duration_samples,
        }
    }
}

impl Clone for MediaObject {
    fn clone(&self) -> (r: Self)
        ensures
            r@ == self@,
    {
        MediaObject {
            hash: self.hash.clone(),
            original_path: self.original_path.clone(),
            extension: copy_opt_string(&self.extension),
            byte_size: self.byte_size,
            sample_rate: self.sample_rate,
            channels: self.channels,
            duration_samples: self.duration_samples,
        }
    }
}

/// Project media index.
#[derive(Debug, PartialEq, Eq)]
pub struct MediaIndex {
    /// Imported media objects.
    pub objects: Vec<MediaObject>,
}

pub open spec fn objects_view(o: Seq<MediaObject>) -> Seq<MediaObjectView> {
    o.map_values(|m: MediaObject| m@)
}

impl View for MediaIndex {
    type V = Seq<MediaObjectView>;

    open spec fn view(&self) -> Seq<MediaObjectView> {
        objects_view(self.objects@)
    }
}

impl MediaIndex {
    /// An empty index.
    pub fn new() -> (i: Self)
        ensures
            i@.len() == 0,
    {
        let i = MediaIndex { objects: Vec::new() };
        assert(i@ =~= Seq::<MediaObjectView>::empty());
        i
    }
}

/// Verification status for one media object.
#[derive(Debug, PartialEq, Eq)]
pub struct MediaVerification {
    /// Media object hash.
    pub hash: String,
    /// True when the object exists and its content matches the hash.
    pub ok: bool,
    /// Human-readable verification detail.
    pub message: String,
}

/// Error returned by media operations.
#[derive(Debug)]
pub enum MediaError {
    /// Filesystem failure, with its message.
    Io(String),
    /// JSON serialization or parsing failure, with its message.
    Json(String),
    /// Media object could not be found.
    Missing(String),
    /// Media object cannot be decoded for this operation.
    Unsupported(String),
}

pub enum MediaErrorView {
    Io(Seq<char>),
    Json(Seq<char>),
    Missing(Seq<char>),
    Unsupported(Seq<char>),
}

impl View for MediaError {
    type V = MediaErrorView;

    open spec fn view(&self) -> MediaErrorView {
        match self {
            MediaError::Io(m) => MediaErrorView::Io(m@),
            MediaError::Json(m) => MediaErrorView::Json(m@),
            MediaError::Missing(m) => MediaErrorView::Missing(m@),
            MediaError::Unsupported(m) => MediaErrorView::Unsupported(m@),
        }
    }
}

pub open spec fn media_error_text(e: MediaErrorView) -> Seq<char> {
    match e {
        MediaErrorView::Io(m) => m,
        MediaErrorView::Json(m) => m,
        MediaErrorView::Missing(m) => m,
        MediaErrorView::Unsupported(m) => m,
    }
}

impl MediaError {
    /// The error's text.
    pub fn message(&self) -> (s: String)
        ensures
            s@ == media_error_text(self@),
    {
        match self {
            MediaError::Io(m) => m.clone(),
            MediaError::Json(m) => m.clone(),
            MediaError::Missing(m) => m.clone(),
            MediaError::Unsupported(m) => m.clone(),
        }
    }
}

// ---------------------------------------------------------------------------
// Hashing
// ---------------------------------------------------------------------------

/// The SHA-256 digest of a byte string.
pub uninterp spec fn sha256_digest_of(data: Seq<u8>) -> Seq<u8>;

/// `sha2::Sha256::digest`: the 32-byte SHA-256 digest of `bytes`. The contract names the
/// digest as a function of the input and states its 32-byte length; nothing else about it.
#[verifier::external_body]
fn sha256_digest(bytes: &[u8]) -> (d: Vec<u8>)
    ensures
        d@ == sha256_digest_of(bytes@),
        d@.len() == 32,
{
    Sha256::digest(bytes).to_vec()
}

/// Two lowercase hex digits per byte.
pub open spec fn hex_of_bytes(b: Seq<u8>) -> Seq<char>
    decreases b.len(),
{
    if b.len() == 0 {
        seq![]
    } else {
        hex_of_bytes(b.drop_last()) + hex_fixed(b.last() as nat, 2)
    }
}

/// Lowercase hexadecimal text of a byte string.
pub fn hex_lower(bytes: &[u8]) -> (s: String)
    ensures
        s@ == hex_of_bytes(bytes@),
{
    let mut out: Vec<char> = Vec::new();
    let mut i: usize = 0;
    while i < bytes.len()
        invariant
            i <= bytes@.len(),
            out@ == hex_of_bytes(bytes@.subrange(0, i as int)),
        decreases bytes@.len() - i,
    {
        push_hex_fixed(&mut out, bytes[i] as u128, 2);
        proof {
            let sub = bytes@.subrange(0, i + 1);
            assert(sub.drop_last() =~= bytes@.subrange(0, i as int));
            assert(sub.last() == bytes@[i as int]);
        }
        i = i + 1;
    }
    assert(bytes@.subrange(0, i as int) =~= bytes@);
    string_from_chars(&out)
}

/// The content hash of a byte string: lowercase hex of its SHA-256 digest.
pub fn sha256_hex(bytes: &[u8]) -> (s: String)
    ensures
        s@ == hex_of_bytes(sha256_digest_of(bytes@)),
{
    let digest = sha256_digest(bytes);
    hex_lower(digest.as_slice())
}

// ---------------------------------------------------------------------------
// Extensions
// ---------------------------------------------------------------------------

/// Position of the last `.` in a text, or -1 when it has none.
pub open spec fn last_dot(s: Seq<char>) -> int
    decreases s.len(),
{
    if s.len() == 0 {
        -1
    } else if s.last() == '.' {
        s.len() - 1
    } else {
        last_dot(s.drop_last())
    }
}

/// The extension of a file name: the text after its last `.`; none when the name has
/// no `.`, or when its only `.` is its first character.
pub open spec fn extension_of_name(name: Seq<char>) -> Option<Seq<char>> {
    let k = last_dot(name);
    if k <= 0 {
        None
    } else {
        Some(name.subrange(k + 1, name.len() as int))
    }
}

/// The extension of a path: that of its file name, none when it has no file name.
pub open spec fn path_extension_spec(path: Seq<char>) -> Option<Seq<char>> {
    match path_file_name_of(path) {
        Some(name) => extension_of_name(name),
        None => None,
    }
}

/// `std::path::Path::extension` on a UTF-8 path. As its documentation gives it: none
/// when the path has no file name; none when the file name has no `.`, or begins with
/// `.` and has no other; otherwise the part of the file name after its final `.`.
#[verifier::external_body]
fn path_extension(path: &str) -> (e: Option<String>)
    ensures
        opt_view(e) == path_extension_spec(path@),
{
    match std::path::Path::new(path).extension() {
        Some(ext) => match ext.to_str() {
            Some(text) => Some(text.to_owned()),
            None => None,
        },
        None => None,
    }
}

pub open spec fn ascii_lower(c: char) -> char {
    if 'A' <= c && c <= 'Z' { ((c as u32) + 32) as char } else { c }
}

pub open spec fn lowercase(s: Seq<char>) -> Seq<char> {
    s.map_values(|c: char| ascii_lower(c))
}

/// ASCII lowercase of a string.
pub fn to_ascii_lowercase(s: &str) -> (r: String)
    ensures
        r@ == lowercase(s@),
{
    let chars = chars_of(s);
    let mut out: Vec<char> = Vec::new();
    let mut i: usize = 0;
    while i < chars.len()
        invariant
            i <= chars@.len(),
            chars@ == s@,
            out@.len() == i,
            forall|k: int| 0 <= k < i ==> #[trigger] out@[k] == ascii_lower(chars@[k]),
        decreases chars@.len() - i,
    {
        let c = chars[i];
        let l = if 'A' <= c && c <= 'Z' { ((c as u8) + 32) as char } else { c };
        out.push(l);
        i = i + 1;
    }
    assert(out@ =~= lowercase(s@));
    string_from_chars(&out)
}

/// The extension a media object is stored under: the path's extension, lowercased,
/// unless it is empty.
pub open spec fn normalized_extension_of(path: Seq<char>) -> Option<Seq<char>> {
    match path_extension_spec(path) {
        Some(e) => if e.len() == 0 { None } else { Some(lowercase(e)) },
        None => None,
    }
}

/// Lowercased, non-empty file extension of a path.
pub fn normalized_extension(path: &str) -> (e: Option<String>)
    ensures
        opt_view(e) == normalized_extension_of(path@),
{
    match path_extension(path) {
        Some(ext) => {
            if ext.as_str().is_empty() {
                None
            } else {
                Some(to_ascii_lowercase(ext.as_str()))
            }
        },
        None => None,
    }
}

// ---------------------------------------------------------------------------
// The index
// ---------------------------------------------------------------------------

/// `k` is the first position of an object with this hash.
pub open spec fn is_first_hash(os: Seq<MediaObjectView>, hash: Seq<char>, k: int) -> bool {
    &&& 0 <= k < os.len()
    &&& os[k].hash == hash
    &&& forall|j: int| 0 <= j < k ==> #[trigger] os[j].hash != hash
}

pub open spec fn has_hash(os: Seq<MediaObjectView>, hash: Seq<char>) -> bool {
    exists|k: int| 0 <= k < os.len() && #[trigger] os[k].hash == hash
}

pub open spec fn first_hash(os: Seq<MediaObjectView>, hash: Seq<char>) -> int {
    choose|k: int| is_first_hash(os, hash, k)
}

pub proof fn lemma_first_hash_unique(os: Seq<MediaObjectView>, hash: Seq<char>, k: int)
    requires
        is_first_hash(os, hash, k),
    ensures
        has_hash(os, hash),
        first_hash(os, hash) == k,
{
    assert(os[k].hash == hash);
    let k2 = first_hash(os, hash);
    assert(is_first_hash(os, hash, k2));
    if k2 < k {
        assert(os[k2].hash != hash);
    }
    if k < k2 {
        assert(os[k].hash != hash);
    }
}

/// Position of the first object with this hash in a list of objects, if any.
pub fn find_object_in(objects: &Vec<MediaObject>, hash: &str) -> (r: Option<usize>)
    ensures
        match r {
            Some(k) => is_first_hash(objects_view(objects@), hash@, k as int),
            None => !has_hash(objects_view(objects@), hash@),
        },
{
    let ghost os = objects_view(objects@);
    let mut i: usize = 0;
    while i < objects.len()
        invariant
            i <= objects@.len(),
            os == objects_view(objects@),
            forall|j: int| 0 <= j < i ==> #[trigger] os[j].hash != hash@,
        decreases objects@.len() - i,
    {
        if str_eq(objects[i].hash.as_str(), hash) {
            return Some(i);
        }
        i = i + 1;
    }
    None
}

/// Position of the first indexed object with this hash, if any.
pub fn find_media_object(index: &MediaIndex, hash: &str) -> (r: Option<usize>)
    ensures
        match r {
            Some(k) => is_first_hash(index@, hash@, k as int),
            None => !has_hash(index@, hash@),
        },
{
    find_object_in(&index.objects, hash)
}

/// Stable insertion of an object after every object whose hash sorts no later.
pub open spec fn insert_object(s: Seq<MediaObjectView>, x: MediaObjectView) -> Seq<MediaObjectView>
    decreases s.len(),
{
    if s.len() == 0 {
        seq![x]
    } else if lex_le(s.last().hash, x.hash) {
        s.push(x)
    } else {
        insert_object(s.drop_last(), x).push(s.last())
    }
}

/// Stable sort of objects by hash.
pub open spec fn sort_objects(s: Seq<MediaObjectView>) -> Seq<MediaObjectView>
    decreases s.len(),
{
    if s.len() == 0 {
        s
    } else {
        insert_object(sort_objects(s.drop_last()), s.last())
    }
}

/// The index after recording an object: an object with the same hash is replaced in
/// place; otherwise the object is added and the index sorted by hash.
pub open spec fn upsert_spec(os: Seq<MediaObjectView>, o: MediaObjectView) -> Seq<MediaObjectView> {
    if has_hash(os, o.hash) {
        os.update(first_hash(os, o.hash), o)
    } else {
        sort_objects(os.push(o))
    }
}

proof fn lemma_insert_object_at(s: Seq<MediaObjectView>, x: MediaObjectView, k: int)
    requires
        0 <= k <= s.len(),
        k == 0 || lex_le(s[k - 1].hash, x.hash),
        forall|j: int| k <= j < s.len() ==> !lex_le(#[trigger] s[j].hash, x.hash),
    ensures
        insert_object(s, x) == s.insert(k, x),
    decreases s.len(),
{
    if s.len() == 0 {
        assert(s.insert(k, x) =~= seq![x]);
    } else if k == s.len() {
        assert(s.insert(k, x) =~= s.push(x));
    } else {
        assert(!lex_le(s.last().hash, x.hash));
        lemma_insert_object_at(s.drop_last(), x, k);
        assert(s.drop_last().insert(k, x).push(s.last()) =~= s.insert(k, x));
    }
}

fn insert_object_sorted(out: &mut Vec<MediaObject>, object: MediaObject)
    ensures
        objects_view(final(out)@) == insert_object(objects_view(old(out)@), object@),
{
    let ghost s = objects_view(out@);
    let mut k = out.len();
    while k > 0 && !text_le(out[k - 1].hash.as_str(), object.hash.as_str())
        invariant
            k <= out@.len(),
            s == objects_view(out@),
            forall|j: int| k <= j < s.len() ==> !lex_le(#[trigger] s[j].hash, object@.hash),
        decreases k,
    {
        k = k - 1;
    }
    proof {
        lemma_insert_object_at(s, object@, k as int);
    }
    out.insert(k, object);
    assert(objects_view(out@) =~= s.insert(k as int, object@));
}

/// Record an object in the index: replace the object with the same hash, or add it
/// and keep the index sorted by hash.
pub fn upsert_media_object(index: &mut MediaIndex, object: MediaObject)
    ensures
        final(index)@ == upsert_spec(old(index)@, object@),
{
    match find_media_object(index, object.hash.as_str()) {
        Some(k) => {
            proof {
                lemma_first_hash_unique(index@, object@.hash, k as int);
            }
            index.objects.set(k, object);
            assert(index@ =~= upsert_spec(old(index)@, object@));
        },
        None => {
            let ghost all = old(index)@.push(object@);
            let mut sorted: Vec<MediaObject> = Vec::new();
            let mut i: usize = 0;
            while i < index.objects.len()
                invariant
                    i <= index.objects@.len(),
                    index@ == old(index)@,
                    all == old(index)@.push(object@),
                    objects_view(sorted@) == sort_objects(all.subrange(0, i as int)),
                decreases index.objects@.len() - i,
            {
                let o = index.objects[i].clone();
                insert_object_sorted(&mut sorted, o);
                assert(all.subrange(0, i + 1).drop_last() =~= all.subrange(0, i as int));
                i = i + 1;
            }
            let ghost n = i as int;
            insert_object_sorted(&mut sorted, object);
            assert(all.subrange(0, n + 1) =~= all);
            assert(all.subrange(0, n + 1).drop_last() =~= all.subrange(0, n));
            index.objects = sorted;
        },
    }
}

/// The indexed media objects, in index order.
pub fn list_media(index: &MediaIndex) -> (objects: Vec<MediaObject>)
    ensures
        objects_view(objects@) == index@,
{
    let mut out: Vec<MediaObject> = Vec::new();
    let mut i: usize = 0;
    while i < index.objects.len()
        invariant
            i <= index.objects@.len(),
            out@.len() == i,
            forall|j: int| 0 <= j < i ==> #[trigger] out@[j]@ == index@[j],
        decreases index.objects@.len() - i,
    {
        out.push(index.objects[i].clone());
        i = i + 1;
    }
    assert(objects_view(out@) =~= index@);
    out
}

// ---------------------------------------------------------------------------
// Import
// ---------------------------------------------------------------------------

/// A byte count as stored in the index, saturating at `u64::MAX`.
pub open spec fn size_u64(n: nat) -> u64 {
    if n <= u64::MAX { n as u64 } else { u64::MAX }
}

/// The index entry for a file with this path and content: its hash, lowercased
/// extension, size, and, for a 16-bit PCM WAV file, its format and length in frames.
pub open spec fn media_object_for(source_path: Seq<char>, bytes: Seq<u8>) -> MediaObjectView {
    let meta = decode_spec(bytes, true);
    MediaObjectView {
        hash: hex_of_bytes(sha256_digest_of(bytes)),
        original_path: source_path,
        extension: normalized_extension_of(source_path),
        byte_size: size_u64(bytes.len()),
        sample_rate: match meta { Ok(w) => Some(w.sample_rate), Err(_) => None },
        channels: match meta { Ok(w) => Some(w.channels), Err(_) => None },
        duration_samples: match meta {
            Ok(w) => Some(size_u64(w.samples.len() / (w.channels as nat))),
            Err(_) => None,
        },
    }
}

fn usize_to_u64(n: usize) -> (r: u64)
    ensures
        r == size_u64(n as nat),
{
    n as u64
}

/// Describe a file's content as an index entry.
pub fn describe_media(source_path: &str, bytes: &[u8]) -> (o: MediaObject)
    ensures
        o@ == media_object_for(source_path@, bytes@),
{
    let hash = sha256_hex(bytes);
    let extension = normalized_extension(source_path);
    let (sample_rate, channels, duration_samples) = match decode_pcm16_wav(bytes, true) {
        Ok(wav) => {
            let frames = wav.frames();
            (Some(wav.sample_rate), Some(wav.channels), Some(usize_to_u64(frames)))
        },
        Err(_) => (None, None, None),
    };
    MediaObject {
        hash,
        original_path: source_path.to_owned(),
        extension,
        byte_size: usize_to_u64(bytes.len()),
        sample_rate,
        channels,
        duration_samples,
    }
}

/// Import a file's content into the index and return its entry. Storing the bytes
/// under the entry's object path is left to the caller.
pub fn import_media(index: &mut MediaIndex, source_path: &str, bytes: &[u8]) -> (o: MediaObject)
    ensures
        o@ == media_object_for(source_path@, bytes@),
        final(index)@ == upsert_spec(old(index)@, o@),
{
    let object = describe_media(source_path, bytes);
    upsert_media_object(index, object.clone());
    object
}

// ---------------------------------------------------------------------------
// Verification and relinking
// ---------------------------------------------------------------------------

#[verifier::ext_equal]
pub struct MediaVerificationView {
    pub hash: Seq<char>,
    pub ok: bool,
    pub message: Seq<char>,
}

impl View for MediaVerification {
    type V = MediaVerificationView;

    open spec fn view(&self) -> MediaVerificationView {
        MediaVerificationView { hash: self.hash@, ok: self.ok, message: self.message@ }
    }
}

pub open spec fn verifications_view(v: Seq<MediaVerification>) -> Seq<MediaVerificationView> {
    v.map_values(|m: MediaVerification| m@)
}

pub open spec fn opt_bytes(o: Option<Vec<u8>>) -> Option<Seq<u8>> {
    match o {
        Some(b) => Some(b@),
        None => None,
    }
}

/// The verdict on one object, given the content of its stored file (`None` when the
/// file is missing).
pub open spec fn verification_spec(o: MediaObjectView, content: Option<Seq<u8>>) -> MediaVerificationView {
    match content {
        None => MediaVerificationView { hash: o.hash, ok: false, message: "missing object file"@ },
        Some(bytes) => {
            let actual = hex_of_bytes(sha256_digest_of(bytes));
            if actual == o.hash {
                MediaVerificationView { hash: o.hash, ok: true, message: "ok"@ }
            } else {
                MediaVerificationView {
                    hash: o.hash,
                    ok: false,
                    message: "hash mismatch: expected "@ + o.hash + ", got "@ + actual,
                }
            }
        },
    }
}

/// Check one object against the content of its stored file.
pub fn verify_object(object: &MediaObject, content: Option<&[u8]>) -> (v: MediaVerification)
    ensures
        v@ == verification_spec(
            object@,
            match content {
                Some(b) => Some(b@),
                None => None,
            },
        ),
{
    match content {
        None => MediaVerification {
            hash: object.hash.clone(),
            ok: false,
            message: "missing object file".to_owned(),
        },
        Some(bytes) => {
            let actual = sha256_hex(bytes);
            let ok = actual.eq(&object.hash);
            if ok {
                MediaVerification { hash: object.hash.clone(), ok: true, message: "ok".to_owned() }
            } else {
                let message = concat4(
                    "hash mismatch: expected ",
                    object.hash.as_str(),
                    ", got ",
                    actual.as_str(),
                );
                MediaVerification { hash: object.hash.clone(), ok: false, message }
            }
        },
    }
}

/// Check every indexed object against the content of its stored file; `contents[i]`
/// is the content stored for the `i`-th object, `None` when its file is missing.
pub fn verify_media(index: &MediaIndex, contents: &Vec<Option<Vec<u8>>>) -> (r: Vec<MediaVerification>)
    requires
        contents@.len() == index@.len(),
    ensures
        verifications_view(r@) == Seq::new(
            index@.len(),
            |i: int| verification_spec(index@[i], opt_bytes(contents@[i])),
        ),
{
    let mut out: Vec<MediaVerification> = Vec::new();
    let mut i: usize = 0;
    while i < index.objects.len()
        invariant
            i <= index.objects@.len(),
            contents@.len() == index@.len(),
            out@.len() == i,
            forall|j: int|
                0 <= j < i ==> #[trigger] out@[j]@ == verification_spec(
                    index@[j],
                    opt_bytes(contents@[j]),
                ),
        decreases index.objects@.len() - i,
    {
        let v = match &contents[i] {
            Some(b) => verify_object(&index.objects[i], Some(b.as_slice())),
            None => verify_object(&index.objects[i], None),
        };
        out.push(v);
        i = i + 1;
    }
    assert(verifications_view(out@) =~= Seq::new(
        index@.len(),
        |i: int| verification_spec(index@[i], opt_bytes(contents@[i])),
    ));
    out
}

/// The outcome of relinking the object with `hash` to a replacement file: the
/// updated index and object, or why the replacement is refused.
pub open spec fn relink_spec(
    os: Seq<MediaObjectView>,
    hash: Seq<char>,
    replacement_path: Seq<char>,
    bytes: Seq<u8>,
) -> Result<(Seq<MediaObjectView>, MediaObjectView), MediaErrorView> {
    let actual = hex_of_bytes(sha256_digest_of(bytes));
    if !has_hash(os, hash) {
        Err(MediaErrorView::Missing("unknown media hash: "@ + hash))
    } else if actual != hash {
        Err(
            MediaErrorView::Missing(
                "replacement content hash "@ + actual + " does not match "@ + hash,
            ),
        )
    } else {
        let k = first_hash(os, hash);
        let o = MediaObjectView {
            original_path: replacement_path,
            extension: normalized_extension_of(replacement_path),
            ..os[k]
        };
        Ok((os.update(k, o), o))
    }
}

/// Point the object with `hash` at a replacement file whose content is `bytes`.
/// Storing the bytes under the object path is left to the caller.
pub fn relink_media(index: &mut MediaIndex, hash: &str, replacement_path: &str, bytes: &[u8]) -> (r:
    Result<MediaObject, MediaError>)
    ensures
        match relink_spec(old(index)@, hash@, replacement_path@, bytes@) {
            Ok((os, o)) => r matches Ok(m) && m@ == o && final(index)@ == os,
            Err(e) => r matches Err(m) && m@ == e && final(index)@ == old(index)@,
        },
{
    let position = match find_media_object(index, hash) {
        Some(k) => k,
        None => {
            return Err(MediaError::Missing(concat2("unknown media hash: ", hash)));
        },
    };
    proof {
        lemma_first_hash_unique(index@, hash@, position as int);
    }
    let replacement_hash = sha256_hex(bytes);
    if !str_eq(replacement_hash.as_str(), hash) {
        return Err(
            MediaError::Missing(
                concat4(
                    "replacement content hash ",
                    replacement_hash.as_str(),
                    " does not match ",
                    hash,
                ),
            ),
        );
    }
    let extension = normalized_extension(replacement_path);
    let mut object = index.objects[position].clone();
    object.original_path = replacement_path.to_owned();
    object.extension = extension;
    let result = object.clone();
    index.objects.set(position, object);
    assert(index@ =~= old(index)@.update(position as int, result@));
    Ok(result)
}

// ---------------------------------------------------------------------------
// Waveform previews
// ---------------------------------------------------------------------------

/// One waveform preview bucket: the lowest and highest sample in it, starting from
/// `i16::MAX` and `-i16::MAX` so that an all-quiet bucket spans the full scale's ends.
#[derive(Debug, PartialEq, Eq, Clone, Copy)]
pub struct WaveformPeak {
    pub min: i16,
    pub max: i16,
}

/// Waveform preview data for a media object.
#[derive(Debug, PartialEq, Eq)]
pub struct WaveformSummary {
    /// Media object hash.
    pub hash: String,
    /// Sample rate in Hz.
    pub sample_rate: u32,
    /// Channel count in the source media.
    pub channels: u16,
    /// Source sample frames represented by each peak bucket.
    pub frames_per_peak: u64,
    /// Peak buckets across the media object.
    pub peaks: Vec<WaveformPeak>,
}

#[verifier::ext_equal]
pub struct WaveformView {
    pub hash: Seq<char>,
    pub sample_rate: u32,
    pub channels: u16,
    pub frames_per_peak: u64,
    pub peaks: Seq<WaveformPeak>,
}

impl View for WaveformSummary {
    type V = WaveformView;

    open spec fn view(&self) -> WaveformView {
        WaveformView {
            hash: self.hash@,
            sample_rate: self.sample_rate,
            channels: self.channels,
            frames_per_peak: self.frames_per_peak,
            peaks: self.peaks@,
        }
    }
}

/// The lowest sample, or `i16::MAX` when there is none lower.
pub open spec fn low_peak(s: Seq<i16>) -> i16
    decreases s.len(),
{
    if s.len() == 0 {
        i16::MAX
    } else {
        let m = low_peak(s.drop_last());
        if s.last() < m { s.last() } else { m }
    }
}

/// The highest sample, or `-i16::MAX` when there is none higher.
pub open spec fn high_peak(s: Seq<i16>) -> i16
    decreases s.len(),
{
    if s.len() == 0 {
        (-i16::MAX) as i16
    } else {
        let m = high_peak(s.drop_last());
        if s.last() > m { s.last() } else { m }
    }
}

/// `a / b` rounded up.
pub open spec fn ceil_div(a: int, b: int) -> int {
    if a % b == 0 { a / b } else { a / b + 1 }
}

/// Frames per bucket for `frames` frames and `target` buckets: the rounded-up quotient,
/// at least one.
pub open spec fn frames_per_peak_for(frames: int, target: int) -> int {
    let q = ceil_div(frames, target);
    if q < 1 { 1 } else { q }
}

/// The buckets from frame `start` on: each covers `fpp` frames (the last one fewer),
/// and holds the extremes of all channels' samples in those frames.
pub open spec fn peaks_from(samples: Seq<i16>, channels: int, frames: int, fpp: int, start: int) -> Seq<
    WaveformPeak,
>
    decreases frames - start,
{
    if start >= frames || fpp <= 0 {
        seq![]
    } else {
        let end = if frames - start < fpp { frames } else { start + fpp };
        let bucket = samples.subrange(start * channels, end * channels);
        seq![WaveformPeak { min: low_peak(bucket), max: high_peak(bucket) }] + peaks_from(
            samples,
            channels,
            frames,
            fpp,
            end,
        )
    }
}

/// The preview of decoded audio in about `target` buckets.
pub open spec fn waveform_spec(hash: Seq<char>, wav: PcmView, target: int) -> WaveformView {
    let frames = wav.samples.len() as int / (wav.channels as int);
    let fpp = frames_per_peak_for(frames, target);
    WaveformView {
        hash,
        sample_rate: wav.sample_rate,
        channels: wav.channels,
        frames_per_peak: size_u64(fpp as nat),
        peaks: peaks_from(wav.samples, wav.channels as int, frames, fpp, 0),
    }
}

fn bucket_extremes(samples: &Vec<i16>, lo_i: usize, hi_i: usize) -> (p: WaveformPeak)
    requires
        lo_i <= hi_i <= samples@.len(),
    ensures
        p == (WaveformPeak {
            min: low_peak(samples@.subrange(lo_i as int, hi_i as int)),
            max: high_peak(samples@.subrange(lo_i as int, hi_i as int)),
        }),
{
    let mut lo: i16 = i16::MAX;
    let mut hi: i16 = -i16::MAX;
    let mut i = lo_i;
    assert(samples@.subrange(lo_i as int, lo_i as int) =~= Seq::<i16>::empty());
    while i < hi_i
        invariant
            lo_i <= i <= hi_i <= samples@.len(),
            lo == low_peak(samples@.subrange(lo_i as int, i as int)),
            hi == high_peak(samples@.subrange(lo_i as int, i as int)),
        decreases hi_i - i,
    {
        let x = samples[i];
        proof {
            let next = samples@.subrange(lo_i as int, i + 1);
            assert(next.drop_last() =~= samples@.subrange(lo_i as int, i as int));
            assert(next.last() == x);
        }
        if x < lo {
            lo = x;
        }
        if x > hi {
            hi = x;
        }
        i = i + 1;
    }
    WaveformPeak { min: lo, max: hi }
}

/// Peak buckets of decoded 16-bit audio: about `target_points` buckets of equal length
/// in frames, each with the lowest and highest sample over all channels.
pub fn waveform_from_pcm16(hash: &str, wav: &Pcm16Wav, target_points: usize) -> (w: WaveformSummary)
    requires
        wav.channels > 0,
        target_points > 0,
    ensures
        w@ == waveform_spec(hash@, wav@, target_points as int),
{
    let frames = wav.frames();
    let ch = wav.channels as usize;
    let n = wav.samples.len();
    let q = if frames % target_points == 0 {
        frames / target_points
    } else {
        proof {
            assert(frames / target_points < frames) by (nonlinear_arith)
                requires
                    frames % target_points != 0,
                    target_points > 0,
            ;
        }
        frames / target_points + 1
    };
    let fpp = if q < 1 { 1 } else { q };
    proof {
        assert(frames * ch <= wav.samples@.len()) by (nonlinear_arith)
            requires
                frames == wav.samples@.len() as int / (ch as int),
                ch > 0,
        ;
    }
    let ghost total = peaks_from(wav.samples@, ch as int, frames as int, fpp as int, 0);
    let mut peaks: Vec<WaveformPeak> = Vec::new();
    let mut start: usize = 0;
    while start < frames
        invariant
            start <= frames,
            fpp >= 1,
            ch == wav.channels as usize,
            ch > 0,
            frames * ch <= wav.samples@.len(),
            n == wav.samples@.len(),
            total == peaks_from(wav.samples@, ch as int, frames as int, fpp as int, 0),
            total == peaks@ + peaks_from(wav.samples@, ch as int, frames as int, fpp as int, start as int),
        decreases frames - start,
    {
        let end = if frames - start < fpp { frames } else { start + fpp };
        proof {
            vstd::arithmetic::mul::lemma_mul_inequality(start as int, end as int, ch as int);
            vstd::arithmetic::mul::lemma_mul_inequality(end as int, frames as int, ch as int);
        }
        let p = bucket_extremes(&wav.samples, start * ch, end * ch);
        proof {
            let rest = peaks_from(wav.samples@, ch as int, frames as int, fpp as int, end as int);
            assert(peaks_from(wav.samples@, ch as int, frames as int, fpp as int, start as int)
                =~= seq![p] + rest);
            assert(peaks@.push(p) + rest =~= peaks@ + (seq![p] + rest));
        }
        peaks.push(p);
        start = end;
    }
    assert(peaks@ + Seq::<WaveformPeak>::empty() =~= peaks@);
    WaveformSummary {
        hash: hash.to_owned(),
        sample_rate: wav.sample_rate,
        channels: wav.channels,
        frames_per_peak: usize_to_u64(fpp),
        peaks,
    }
}

pub open spec fn max1(n: int) -> int {
    if n < 1 { 1 } else { n }
}

/// The preview of the object with `hash`, given the content of its stored file.
pub open spec fn generate_waveform_spec(
    os: Seq<MediaObjectView>,
    hash: Seq<char>,
    bytes: Seq<u8>,
    target_points: int,
) -> Result<WaveformView, MediaErrorView> {
    if !has_hash(os, hash) {
        Err(MediaErrorView::Missing("unknown media hash: "@ + hash))
    } else {
        match decode_spec(bytes, true) {
            Err(f) => Err(MediaErrorView::Unsupported(fault_text(f))),
            Ok(wav) => Ok(waveform_spec(hash, wav, max1(target_points))),
        }
    }
}

pub open spec fn waveform_result_view(r: Result<WaveformSummary, MediaError>) -> Result<
    WaveformView,
    MediaErrorView,
> {
    match r {
        Ok(w) => Ok(w@),
        Err(e) => Err(e@),
    }
}

/// Waveform preview of an indexed object, given the content of its stored file.
pub fn generate_waveform(index: &MediaIndex, hash: &str, bytes: &[u8], target_points: usize) -> (r:
    Result<WaveformSummary, MediaError>)
    ensures
        waveform_result_view(r) == generate_waveform_spec(index@, hash@, bytes@, target_points as int),
{
    if find_media_object(index, hash).is_none() {
        return Err(MediaError::Missing(concat2("unknown media hash: ", hash)));
    }
    match decode_pcm16_wav(bytes, true) {
        Err(f) => Err(MediaError::Unsupported(f.message().to_owned())),
        Ok(wav) => {
            let target = if target_points < 1 { 1 } else { target_points };
            Ok(waveform_from_pcm16(hash, &wav, target))
        },
    }
}

pub open spec fn waveforms_view(w: Seq<WaveformSummary>) -> Seq<WaveformView> {
    w.map_values(|x: WaveformSummary| x@)
}

/// The previews that can be made, object by object: `contents[i]` is the content stored
/// for the `i`-th object, `None` when it cannot be read.
pub open spec fn waveforms_spec(
    os: Seq<MediaObjectView>,
    contents: Seq<Option<Seq<u8>>>,
    target_points: int,
) -> Seq<WaveformView>
    decreases contents.len(),
{
    if contents.len() == 0 {
        seq![]
    } else {
        let i = contents.len() - 1;
        let before = waveforms_spec(os, contents.drop_last(), target_points);
        match contents[i] {
            Some(b) => match generate_waveform_spec(os, os[i].hash, b, target_points) {
                Ok(w) => before.push(w),
                Err(_) => before,
            },
            None => before,
        }
    }
}

/// Waveform previews for every indexed object whose content can be read and decoded.
pub fn generate_waveforms(index: &MediaIndex, contents: &Vec<Option<Vec<u8>>>, target_points: usize) -> (r:
    Vec<WaveformSummary>)
    requires
        contents@.len() == index@.len(),
    ensures
        waveforms_view(r@) == waveforms_spec(
            index@,
            contents@.map_values(|c: Option<Vec<u8>>| opt_bytes(c)),
            target_points as int,
        ),
{
    let ghost cs = contents@.map_values(|c: Option<Vec<u8>>| opt_bytes(c));
    let mut out: Vec<WaveformSummary> = Vec::new();
    let mut i: usize = 0;
    while i < contents.len()
        invariant
            i <= contents@.len(),
            contents@.len() == index@.len(),
            cs == contents@.map_values(|c: Option<Vec<u8>>| opt_bytes(c)),
            waveforms_view(out@) == waveforms_spec(index@, cs.subrange(0, i as int), target_points as int),
        decreases contents@.len() - i,
    {
        proof {
            assert(cs.subrange(0, i + 1).drop_last() =~= cs.subrange(0, i as int));
            assert(cs.subrange(0, i + 1)[i as int] == cs[i as int]);
        }
        match &contents[i] {
            Some(b) => {
                match generate_waveform(index, index.objects[i].hash.as_str(), b.as_slice(), target_points) {
                    Ok(w) => {
                        let ghost before = out@;
                        out.push(w);
                        assert(waveforms_view(out@) =~= waveforms_view(before).push(out@.last()@));
                    },
                    Err(_) => {},
                }
            },
            None => {},
        }
        i = i + 1;
    }
    assert(cs.subrange(0, i as int) =~= cs);
    out
}

// ---------------------------------------------------------------------------
// Laws
// ---------------------------------------------------------------------------

/// No two objects share a hash.
pub open spec fn unique_hashes(os: Seq<MediaObjectView>) -> bool {
    forall|i: int, j: int| 0 <= i < j < os.len() ==> #[trigger] os[i].hash != #[trigger] os[j].hash
}

proof fn lemma_insert_object(s: Seq<MediaObjectView>, x: MediaObjectView)
    ensures
        insert_object(s, x).len() == s.len() + 1,
        forall|y: MediaObjectView| #[trigger] insert_object(s, x).contains(y) <==> (s.contains(y) || y == x),
        unique_hashes(s) && !has_hash(s, x.hash) ==> unique_hashes(insert_object(s, x)),
    decreases s.len(),
{
    let r = insert_object(s, x);
    if s.len() == 0 {
        assert forall|y: MediaObjectView| r.contains(y) <==> (s.contains(y) || y == x) by {
            if r.contains(y) {
                assert(r[0] == x);
            }
            if y == x {
                assert(r[0] == x);
            }
        }
    } else if lex_le(s.last().hash, x.hash) {
        assert forall|y: MediaObjectView| r.contains(y) <==> (s.contains(y) || y == x) by {
            if r.contains(y) {
                let k = choose|k: int| 0 <= k < r.len() && r[k] == y;
                if k < s.len() {
                    assert(s[k] == y);
                }
            }
            if s.contains(y) {
                let k = choose|k: int| 0 <= k < s.len() && s[k] == y;
                assert(r[k] == y);
            }
            if y == x {
                assert(r[s.len() as int] == x);
            }
        }
        if unique_hashes(s) && !has_hash(s, x.hash) {
            assert forall|i: int, j: int| 0 <= i < j < r.len() implies #[trigger] r[i].hash
                != #[trigger] r[j].hash by {
                if j == s.len() {
                    assert(s[i].hash != x.hash);
                } else {
                    assert(s[i].hash != s[j].hash);
                }
            }
        }
    } else {
        let d = s.drop_last();
        let l = s.last();
        lemma_insert_object(d, x);
        let r0 = insert_object(d, x);
        assert(r == r0.push(l));
        assert forall|y: MediaObjectView| r.contains(y) <==> (s.contains(y) || y == x) by {
            if r.contains(y) {
                let k = choose|k: int| 0 <= k < r.len() && r[k] == y;
                if k < r0.len() {
                    assert(r0[k] == y);
                    assert(r0.contains(y));
                    if d.contains(y) {
                        let j = choose|j: int| 0 <= j < d.len() && d[j] == y;
                        assert(s[j] == y);
                    }
                } else {
                    assert(s[s.len() - 1] == y);
                }
            }
            if s.contains(y) {
                let k = choose|k: int| 0 <= k < s.len() && s[k] == y;
                if k < d.len() {
                    assert(d[k] == y);
                    assert(d.contains(y));
                    assert(r0.contains(y));
                    let j = choose|j: int| 0 <= j < r0.len() && r0[j] == y;
                    assert(r[j] == y);
                } else {
                    assert(r[r.len() - 1] == y);
                }
            }
            if y == x {
                assert(r0.contains(x));
                let j = choose|j: int| 0 <= j < r0.len() && r0[j] == x;
                assert(r[j] == x);
            }
        }
        if unique_hashes(s) && !has_hash(s, x.hash) {
            assert forall|i: int, j: int| 0 <= i < j < d.len() implies #[trigger] d[i].hash
                != #[trigger] d[j].hash by {
                assert(s[i].hash != s[j].hash);
            }
            assert forall|k: int| 0 <= k < d.len() implies #[trigger] d[k].hash != x.hash by {
                assert(s[k].hash != x.hash);
            }
            assert(unique_hashes(r0));
            assert forall|i: int, j: int| 0 <= i < j < r.len() implies #[trigger] r[i].hash
                != #[trigger] r[j].hash by {
                if j == r0.len() {
                    let y = r0[i];
                    assert(r0.contains(y));
                    if d.contains(y) {
                        let m = choose|m: int| 0 <= m < d.len() && d[m] == y;
                        assert(s[m].hash != s[s.len() - 1].hash);
                    } else {
                        assert(y == x);
                        assert(s[s.len() - 1].hash != x.hash);
                    }
                } else {
                    assert(r0[i].hash != r0[j].hash);
                }
            }
        }
    }
}

proof fn lemma_sort_objects(s: Seq<MediaObjectView>)
    ensures
        sort_objects(s).len() == s.len(),
        forall|y: MediaObjectView| #[trigger] sort_objects(s).contains(y) <==> s.contains(y),
        unique_hashes(s) ==> unique_hashes(sort_objects(s)),
    decreases s.len(),
{
    if s.len() > 0 {
        let d = s.drop_last();
        let l = s.last();
        lemma_sort_objects(d);
        let sd = sort_objects(d);
        lemma_insert_object(sd, l);
        assert forall|y: MediaObjectView| #[trigger] sort_objects(s).contains(y) <==> s.contains(y) by {
            if s.contains(y) {
                let k = choose|k: int| 0 <= k < s.len() && s[k] == y;
                if k < d.len() {
                    assert(d[k] == y);
                    assert(d.contains(y));
                }
            }
            if d.contains(y) {
                let k = choose|k: int| 0 <= k < d.len() && d[k] == y;
                assert(s[k] == y);
            }
            if y == l {
                assert(s[s.len() - 1] == y);
            }
        }
        if unique_hashes(s) {
            assert forall|i: int, j: int| 0 <= i < j < d.len() implies #[trigger] d[i].hash
                != #[trigger] d[j].hash by {
                assert(s[i].hash != s[j].hash);
            }
            if has_hash(sd, l.hash) {
                let k = choose|k: int| 0 <= k < sd.len() && #[trigger] sd[k].hash == l.hash;
                assert(sd.contains(sd[k]));
                let m = choose|m: int| 0 <= m < d.len() && d[m] == sd[k];
                assert(s[m].hash != s[s.len() - 1].hash);
            }
        }
    }
}

pub proof fn lemma_first_hash_exists(os: Seq<MediaObjectView>, hash: Seq<char>)
    requires
        has_hash(os, hash),
    ensures
        is_first_hash(os, hash, first_hash(os, hash)),
    decreases os.len(),
{
    let d = os.drop_last();
    if has_hash(d, hash) {
        lemma_first_hash_exists(d, hash);
        let k = first_hash(d, hash);
        assert(os[k] == d[k]);
        assert forall|j: int| 0 <= j < k implies #[trigger] os[j].hash != hash by {
            assert(d[j] == os[j]);
        }
        assert(is_first_hash(os, hash, k));
        lemma_first_hash_unique(os, hash, k);
    } else {
        let k = os.len() - 1;
        let w = choose|w: int| 0 <= w < os.len() && #[trigger] os[w].hash == hash;
        if w < k {
            assert(d[w].hash == hash);
        }
        assert forall|j: int| 0 <= j < k implies #[trigger] os[j].hash != hash by {
            assert(d[j] == os[j]);
        }
        assert(is_first_hash(os, hash, k));
        lemma_first_hash_unique(os, hash, k);
    }
}

/// Recording an object never lets two objects share a hash.
pub proof fn law_upsert_keeps_hashes_unique(os: Seq<MediaObjectView>, o: MediaObjectView)
    requires
        unique_hashes(os),
    ensures
        unique_hashes(upsert_spec(os, o)),
{
    if has_hash(os, o.hash) {
        lemma_first_hash_exists(os, o.hash);
        let k = first_hash(os, o.hash);
        let r = os.update(k, o);
        assert forall|i: int, j: int| 0 <= i < j < r.len() implies #[trigger] r[i].hash
            != #[trigger] r[j].hash by {
            assert(os[i].hash != os[j].hash);
        }
    } else {
        let p = os.push(o);
        assert forall|i: int, j: int| 0 <= i < j < p.len() implies #[trigger] p[i].hash
            != #[trigger] p[j].hash by {
            if j < os.len() {
                assert(os[i].hash != os[j].hash);
            } else {
                assert(os[i].hash != o.hash);
            }
        }
        lemma_sort_objects(p);
    }
}

/// After recording an object, looking its hash up in the index finds that object.
pub proof fn law_upsert_then_find(os: Seq<MediaObjectView>, o: MediaObjectView)
    ensures
        has_hash(upsert_spec(os, o), o.hash),
        upsert_spec(os, o)[first_hash(upsert_spec(os, o), o.hash)] == o,
{
    let r = upsert_spec(os, o);
    if has_hash(os, o.hash) {
        lemma_first_hash_exists(os, o.hash);
        let k = first_hash(os, o.hash);
        assert forall|j: int| 0 <= j < k implies #[trigger] r[j].hash != o.hash by {
            assert(r[j] == os[j]);
        }
        assert(is_first_hash(r, o.hash, k));
        lemma_first_hash_unique(r, o.hash, k);
    } else {
        let p = os.push(o);
        lemma_sort_objects(p);
        assert(p[os.len() as int] == o);
        assert(p.contains(o));
        assert(r.contains(o));
        let m = choose|m: int| 0 <= m < r.len() && r[m] == o;
        assert(r[m].hash == o.hash);
        lemma_first_hash_exists(r, o.hash);
        let k = first_hash(r, o.hash);
        let y = r[k];
        assert(r.contains(y));
        assert(p.contains(y));
        let t = choose|t: int| 0 <= t < p.len() && p[t] == y;
        if t < os.len() {
            assert(os[t].hash == o.hash);
        }
    }
}

/// The length recorded for an imported 16-bit PCM WAV file counts frames, not samples:
/// times the channel count it gives the number of samples, and the entry records the
/// file's channel count and sample rate.
pub proof fn law_imported_duration_counts_frames(source_path: Seq<char>, bytes: Seq<u8>)
    requires
        bytes.len() <= u64::MAX,
        decode_spec(bytes, true) is Ok,
    ensures
        ({
            let w = decode_spec(bytes, true)->Ok_0;
            let o = media_object_for(source_path, bytes);
            &&& o.channels == Some(w.channels)
            &&& o.sample_rate == Some(w.sample_rate)
            &&& o.duration_samples matches Some(d) && d * (w.channels as int) == w.samples.len()
        }),
{
    lemma_scan_in_range(bytes, 0, 12, empty_scan());
    let w = decode_spec(bytes, true)->Ok_0;
    let n = w.samples.len() as int;
    let c = w.channels as int;
    let sc = scan_chunks(bytes, 12, empty_scan())->Ok_0;
    let (start, end) = sc.data->0;
    assert(0 <= start <= end <= bytes.len());
    assert(bytes.subrange(start, end).len() == end - start);
    assert(c > 0);
    assert(n % c == 0);
    assert(n <= bytes.len());
    vstd::arithmetic::div_mod::lemma_fundamental_div_mod(n, c);
    vstd::arithmetic::div_mod::lemma_div_is_ordered_by_denominator(n, 1, c);
    assert(n / c <= n);
    assert((n / c) * c == n) by (nonlinear_arith)
        requires
            n == c * (n / c) + n % c,
            n % c == 0,
    ;
    assert(size_u64((n / c) as nat) == n / c);
}

/// An imported file's own content verifies against its index entry.
pub proof fn law_imported_content_verifies(source_path: Seq<char>, bytes: Seq<u8>)
    ensures
        verification_spec(media_object_for(source_path, bytes), Some(bytes)).ok,
        verification_spec(media_object_for(source_path, bytes), Some(bytes)).message == "ok"@,
{
}

/// A relink that succeeds keeps the object's hash, and the replacement content then
/// verifies against it.
pub proof fn law_relink_keeps_hash(
    os: Seq<MediaObjectView>,
    hash: Seq<char>,
    replacement_path: Seq<char>,
    bytes: Seq<u8>,
)
    requires
        relink_spec(os, hash, replacement_path, bytes) is Ok,
    ensures
        relink_spec(os, hash, replacement_path, bytes)->Ok_0.1.hash == hash,
        verification_spec(relink_spec(os, hash, replacement_path, bytes)->Ok_0.1, Some(bytes)).ok,
{
    lemma_first_hash_exists(os, hash);
}


/// A waveform preview of `fpp` frames per bucket, read from frame `start` on, has one
/// bucket per `fpp` frames left, the last one possibly short: none when no frame is
/// left, and otherwise the least count whose buckets cover every frame left.
#[verifier::spinoff_prover]
pub proof fn lemma_peaks_from_len(samples: Seq<i16>, channels: int, frames: int, fpp: int, start: int)
    requires
        fpp > 0,
        0 <= start,
    ensures
        start >= frames ==> peaks_from(samples, channels, frames, fpp, start).len() == 0,
        start < frames ==> {
            let n = peaks_from(samples, channels, frames, fpp, start).len() as int;
            &&& n >= 1
            &&& (n - 1) * fpp < frames - start
            &&& n * fpp >= frames - start
        },
    decreases frames - start,
{
    if start < frames {
        let end = if frames - start < fpp { frames } else { start + fpp };
        lemma_peaks_from_len(samples, channels, frames, fpp, end);
        let m = peaks_from(samples, channels, frames, fpp, end).len() as int;
        let bucket = samples.subrange(start * channels, end * channels);
        assert(peaks_from(samples, channels, frames, fpp, start) == seq![
            WaveformPeak { min: low_peak(bucket), max: high_peak(bucket) },
        ] + peaks_from(samples, channels, frames, fpp, end));
        assert(peaks_from(samples, channels, frames, fpp, start).len() == m + 1);
        if end < frames {
            assert(end == start + fpp);
            assert((m - 1) * fpp < frames - end);
            assert(m * fpp >= frames - end);
            assert(m * fpp == (m - 1) * fpp + fpp) by (nonlinear_arith);
            assert((m + 1) * fpp == m * fpp + fpp) by (nonlinear_arith);
        } else {
            assert(m == 0);
            let n = m + 1;
            assert((n - 1) * fpp == 0) by (nonlinear_arith)
                requires
                    n == 1,
            ;
            assert(n * fpp == fpp) by (nonlinear_arith)
                requires
                    n == 1,
            ;
        }
    }
}

/// A waveform preview has at most the requested number of buckets, and exactly as many
/// buckets of its bucket size as it takes to cover every frame of the audio: none for
/// empty audio, and otherwise the least count whose buckets reach the last frame.
pub proof fn law_waveform_fits_target(wav: PcmView, target: int)
    requires
        wav.channels > 0,
        target >= 1,
    ensures
        ({
            let frames = wav.samples.len() as int / (wav.channels as int);
            let fpp = frames_per_peak_for(frames, target);
            let n = peaks_from(wav.samples, wav.channels as int, frames, fpp, 0).len() as int;
            &&& n <= target
            &&& n * fpp >= frames
            &&& frames == 0 ==> n == 0
            &&& frames > 0 ==> n >= 1 && (n - 1) * fpp < frames
        }),
{
    let frames = wav.samples.len() as int / (wav.channels as int);
    let fpp = frames_per_peak_for(frames, target);
    let q = ceil_div(frames, target);
    assert(frames >= 0);
    vstd::arithmetic::div_mod::lemma_fundamental_div_mod(frames, target);
    assert(q * target >= frames) by (nonlinear_arith)
        requires
            frames == target * (frames / target) + frames % target,
            0 <= frames % target < target,
            q == (if frames % target == 0 { frames / target } else { frames / target + 1 }),
    ;
    assert(fpp * target >= frames) by (nonlinear_arith)
        requires
            q * target >= frames,
            fpp >= q,
            target >= 1,
    ;
    lemma_peaks_from_len(wav.samples, wav.channels as int, frames, fpp, 0);
    let n = peaks_from(wav.samples, wav.channels as int, frames, fpp, 0).len() as int;
    if frames > 0 {
        assert(n <= target) by (nonlinear_arith)
            requires
                (n - 1) * fpp < frames,
                fpp * target >= frames,
                fpp > 0,
        ;
    }
}


/// Objects in order of their hashes.
pub open spec fn sorted_by_hash(os: Seq<MediaObjectView>) -> bool {
    forall|i: int, j: int| 0 <= i < j < os.len() ==> lex_le(#[trigger] os[i].hash, #[trigger] os[j].hash)
}

proof fn lemma_insert_object_sorted(s: Seq<MediaObjectView>, x: MediaObjectView)
    requires
        sorted_by_hash(s),
    ensures
        sorted_by_hash(insert_object(s, x)),
    decreases s.len(),
{
    let r = insert_object(s, x);
    if s.len() == 0 {
    } else if lex_le(s.last().hash, x.hash) {
        assert forall|i: int, j: int| 0 <= i < j < r.len() implies lex_le(#[trigger] r[i].hash, #[trigger] r[j].hash) by {
            if j == s.len() {
                if i < s.len() - 1 {
                    crate::history::lemma_lex_transitive(s[i].hash, s.last().hash, x.hash);
                }
            }
        }
    } else {
        let d = s.drop_last();
        let l = s.last();
        lemma_insert_object_sorted(d, x);
        lemma_insert_object(d, x);
        crate::history::lemma_lex_total(l.hash, x.hash);
        let r0 = insert_object(d, x);
        assert forall|i: int, j: int| 0 <= i < j < r.len() implies lex_le(#[trigger] r[i].hash, #[trigger] r[j].hash) by {
            if j == r0.len() {
                let y = r0[i];
                assert(r0.contains(y));
                if d.contains(y) {
                    let m = choose|m: int| 0 <= m < d.len() && d[m] == y;
                    assert(s[m] == y);
                    assert(lex_le(s[m].hash, s[s.len() - 1].hash));
                }
            } else {
                assert(r[i] == r0[i] && r[j] == r0[j]);
            }
        }
    }
}

proof fn lemma_sort_objects_sorted(s: Seq<MediaObjectView>)
    ensures
        sorted_by_hash(sort_objects(s)),
    decreases s.len(),
{
    if s.len() > 0 {
        lemma_sort_objects_sorted(s.drop_last());
        lemma_insert_object_sorted(sort_objects(s.drop_last()), s.last());
    }
}

/// Recording a new object leaves the index sorted by hash, and replacing an object keeps
/// a sorted index sorted.
pub proof fn law_upsert_keeps_index_sorted(os: Seq<MediaObjectView>, o: MediaObjectView)
    ensures
        !has_hash(os, o.hash) ==> sorted_by_hash(upsert_spec(os, o)),
        sorted_by_hash(os) ==> sorted_by_hash(upsert_spec(os, o)),
{
    if has_hash(os, o.hash) {
        lemma_first_hash_exists(os, o.hash);
        let k = first_hash(os, o.hash);
        let r = os.update(k, o);
        if sorted_by_hash(os) {
            assert forall|i: int, j: int| 0 <= i < j < r.len() implies lex_le(#[trigger] r[i].hash, #[trigger] r[j].hash) by {
                assert(r[i].hash == os[i].hash);
                assert(r[j].hash == os[j].hash);
            }
        }
    } else {
        lemma_sort_objects_sorted(os.push(o));
    }
}


/// Recording a second object with the hash of one just recorded replaces that entry in
/// place: the index keeps its length and its other entries.
pub proof fn law_same_content_replaces_entry(os: Seq<MediaObjectView>, o1: MediaObjectView, o2: MediaObjectView)
    requires
        o1.hash == o2.hash,
    ensures
        ({
            let once = upsert_spec(os, o1);
            let k = first_hash(once, o1.hash);
            &&& has_hash(once, o1.hash)
            &&& upsert_spec(once, o2) == once.update(k, o2)
            &&& upsert_spec(once, o2).len() == once.len()
        }),
{
    law_upsert_then_find(os, o1);
    let once = upsert_spec(os, o1);
    assert(o2.hash == o1.hash);
    assert(has_hash(once, o2.hash));
    lemma_first_hash_exists(once, o1.hash);
}

} // verus!
