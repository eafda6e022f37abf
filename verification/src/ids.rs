//! Stable text identifiers and the clock that stamps history entries.

use std::collections::hash_map::{DefaultHasher, RandomState};
use std::hash::{BuildHasher, Hasher};
use std::time::{Duration, SystemTime, SystemTimeError, UNIX_EPOCH};
use vstd::prelude::*;

use crate::text::{hex_fixed, lemma_hex_fixed_len, push_hex_fixed, push_str, string_from_chars};

verus! {

/// Stable text identifier used in serialized project documents.
#[derive(Debug, PartialEq, Eq, Hash, PartialOrd, Ord)]
pub struct StableId(String);

impl View for StableId {
    type V = Seq<char>;

    closed spec fn view(&self) -> Seq<char> {
        self.0@
    }
}

impl Clone for StableId {
    fn clone(&self) -> (r: Self)
        ensures
            r@ == self@,
    {
        StableId(self.0.clone())
    }
}

/// The text of a freshly generated identifier for a 128-bit seed:
/// its 32 lowercase hex digits grouped 8-4-4-4-12 with dashes.
pub open spec fn id_text(seed: u128) -> Seq<char> {
    let h = hex_fixed(seed as nat, 32);
    h.subrange(0, 8) + seq!['-'] + h.subrange(8, 12) + seq!['-'] + h.subrange(12, 16)
        + seq!['-'] + h.subrange(16, 20) + seq!['-'] + h.subrange(20, 32)
}

/// The standard library's system clock reading.
#[verifier::external_type_specification]
#[verifier::external_body]
pub struct ExSystemTime(SystemTime);

/// Why a clock reading lies before a reference time.
#[verifier::external_type_specification]
#[verifier::external_body]
pub struct ExSystemTimeError(SystemTimeError);

/// `SystemTime::now`: the system clock's current reading. Nothing is claimed of it.
#[verifier::external_body]
fn system_now() -> SystemTime {
    SystemTime::now()
}

/// `SystemTime::duration_since` with the Unix epoch as the reference: the time since
/// the epoch, or an error when the reading is earlier. Nothing is claimed of either.
#[verifier::external_body]
fn since_unix_epoch(t: &SystemTime) -> Result<Duration, SystemTimeError> {
    t.duration_since(UNIX_EPOCH)
}

/// `Duration::as_nanos`: the whole duration in nanoseconds. Nothing more is claimed of it.
#[verifier::external_body]
fn duration_nanos(d: &Duration) -> u128 {
    d.as_nanos()
}

/// Nanoseconds since the Unix epoch, or zero when the clock is before it.
fn unix_time_nanos() -> u128 {
    let now = system_now();
    match since_unix_epoch(&now) {
        Ok(d) => duration_nanos(&d),
        Err(_) => 0,
    }
}

/// `RandomState::new`: hasher keys that the standard library draws at random once per
/// thread and then changes for each new state. Nothing is claimed of them.
#[verifier::external_body]
fn random_state() -> RandomState {
    RandomState::new()
}

/// `BuildHasher::build_hasher` on a `RandomState`: a fresh hasher with its keys.
/// Nothing is claimed of it.
#[verifier::external_body]
fn build_hasher_of(state: &RandomState) -> DefaultHasher {
    state.build_hasher()
}

/// A fresh 64-bit value: what a hasher with freshly drawn keys gives for no input.
fn fresh_entropy() -> u64 {
    let state = random_state();
    let hasher = build_hasher_of(&state);
    hasher.finish()
}

/// Milliseconds since the Unix epoch, as recorded on history entries: the clock's
/// nanosecond reading in whole milliseconds, so never more than the largest
/// nanosecond count divided by a million.
pub fn unix_timestamp_millis() -> (ms: u128)
    ensures
        ms <= u128::MAX / 1_000_000,
{
    unix_time_nanos() / 1_000_000
}

impl StableId {
    /// Create a new identifier from the clock and a fresh random value.
    pub fn new() -> (id: Self)
        ensures
            exists|seed: u128| id@ == id_text(seed),
    {
        let nanos = unix_time_nanos();
        let entropy = fresh_entropy() as u128;
        let seed = nanos ^ (entropy << 64u128);
        Self::from_seed(seed)
    }

    /// The identifier whose text is the grouped hex form of `seed`.
    pub fn from_seed(seed: u128) -> (id: Self)
        ensures
            id@ == id_text(seed),
    {
        let mut hex: Vec<char> = Vec::new();
        push_hex_fixed(&mut hex, seed, 32);
        proof {
            lemma_hex_fixed_len(seed as nat, 32);
            assert(hex@ =~= hex_fixed(seed as nat, 32));
        }
        let mut out: Vec<char> = Vec::new();
        push_range(&mut out, &hex, 0, 8);
        out.push('-');
        push_range(&mut out, &hex, 8, 12);
        out.push('-');
        push_range(&mut out, &hex, 12, 16);
        out.push('-');
        push_range(&mut out, &hex, 16, 20);
        out.push('-');
        push_range(&mut out, &hex, 20, 32);
        assert(out@ =~= id_text(seed));
        StableId(string_from_chars(&out))
    }

    /// Construct an ID from an existing serialized string.
    pub fn from_string(value: String) -> (id: Self)
        ensures
            id@ == value@,
    {
        StableId(value)
    }

    /// Return the serialized string.
    pub fn as_str(&self) -> (s: &str)
        ensures
            s@ == self@,
    {
        self.0.as_str()
    }

    /// Compare two identifiers by their text.
    pub fn same(&self, other: &StableId) -> (b: bool)
        ensures
            b == (self@ == other@),
    {
        self.0 == other.0
    }
}

/// Append `chars[from..to]` to a character buffer.
fn push_range(out: &mut Vec<char>, chars: &Vec<char>, from: usize, to: usize)
    requires
        from <= to <= chars@.len(),
    ensures
        final(out)@ == old(out)@ + chars@.subrange(from as int, to as int),
{
    let mut i = from;
    while i < to
        invariant
            from <= i <= to,
            to <= chars@.len(),
            out@ == old(out)@ + chars@.subrange(from as int, i as int),
        decreases to - i,
    {
        out.push(chars[i]);
        i = i + 1;
        assert(out@ =~= old(out)@ + chars@.subrange(from as int, i as int));
    }
}

/// Append an identifier's text to a character buffer.
pub(crate) fn push_id(out: &mut Vec<char>, id: &StableId)
    ensures
        final(out)@ == old(out)@ + id@,
{
    push_str(out, id.as_str());
}

} // verus!
