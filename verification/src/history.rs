//! History listing, project diffs, references to stored states, and branch merges.

use vstd::prelude::*;

use crate::commands::{find_snapshot, first_snapshot, first_track, has_snapshot, has_track, lemma_first_snapshot_unique, lemma_first_track_unique, find_track, missing_snapshot, CommandView, ErrorView, ProjectCommand, ProjectIoError, SnapshotView};
use crate::ids::{push_id, StableId};
use crate::model::{is_valid, tracks_view, Project, ProjectView, Track, TrackView};
use crate::store::{append_and_apply, edit_outcome, first_branch, has_branch, load_branch, missing_branch, validate_branch_name, bad_branch_name, is_valid_branch_name, replays_to, law_edit_keeps_replay, law_empty_log_replays_to_base, law_snapshot_keeps_replay, EntryView, ProjectStore, StoreView};
use crate::text::{chars_of, decimal, push_decimal, push_str, string_from_chars};

verus! {

// ---------------------------------------------------------------------------
// Text ordering
// ---------------------------------------------------------------------------

/// Lexicographic order on characters, as `String`'s `Ord` orders text.
pub open spec fn lex_le(a: Seq<char>, b: Seq<char>) -> bool {
    exists|k: int|
        #![trigger a.subrange(0, k), b.subrange(0, k)]
        0 <= k <= a.len() && k <= b.len() && a.subrange(0, k) == b.subrange(0, k) && (k == a.len()
            || (k < b.len() && (a[k] as u32) < (b[k] as u32)))
}

proof fn lemma_char_code_injective(x: char, y: char)
    ensures
        x != y ==> (x as u32) != (y as u32),
{
    assert((x as int) == (x as u32) as int);
    assert((y as int) == (y as u32) as int);
}

proof fn lemma_lex_from(a: Seq<char>, b: Seq<char>, k: int)
    requires
        0 <= k <= a.len(),
        k <= b.len(),
        a.subrange(0, k) == b.subrange(0, k),
    ensures
        lex_le(a, b) || lex_le(b, a),
    decreases a.len() - k,
{
    if k == a.len() {
        assert(lex_le(a, b));
    } else if k == b.len() {
        assert(b.subrange(0, k) == a.subrange(0, k));
        assert(lex_le(b, a));
    } else if a[k] != b[k] {
        lemma_char_code_injective(a[k], b[k]);
        if (a[k] as u32) < (b[k] as u32) {
            assert(lex_le(a, b));
        } else {
            assert(b.subrange(0, k) == a.subrange(0, k));
            assert(lex_le(b, a));
        }
    } else {
        assert(a.subrange(0, k + 1) =~= a.subrange(0, k).push(a[k]));
        assert(b.subrange(0, k + 1) =~= b.subrange(0, k).push(b[k]));
        lemma_lex_from(a, b, k + 1);
    }
}

/// Any two texts are ordered one way or the other.
pub proof fn lemma_lex_total(a: Seq<char>, b: Seq<char>)
    ensures
        lex_le(a, b) || lex_le(b, a),
{
    assert(a.subrange(0, 0) =~= b.subrange(0, 0));
    lemma_lex_from(a, b, 0);
}

/// The text order is transitive.
pub proof fn lemma_lex_transitive(a: Seq<char>, b: Seq<char>, c: Seq<char>)
    requires
        lex_le(a, b),
        lex_le(b, c),
    ensures
        lex_le(a, c),
{
    let k1 = choose|k: int|
        #![trigger a.subrange(0, k), b.subrange(0, k)]
        0 <= k <= a.len() && k <= b.len() && a.subrange(0, k) == b.subrange(0, k) && (k == a.len()
            || (k < b.len() && (a[k] as u32) < (b[k] as u32)));
    let k2 = choose|k: int|
        #![trigger b.subrange(0, k), c.subrange(0, k)]
        0 <= k <= b.len() && k <= c.len() && b.subrange(0, k) == c.subrange(0, k) && (k == b.len()
            || (k < c.len() && (b[k] as u32) < (c[k] as u32)));
    let k = if k1 < k2 { k1 } else { k2 };
    assert forall|j: int| 0 <= j < k implies a[j] == c[j] by {
        assert(a[j] == a.subrange(0, k1)[j]);
        assert(b[j] == b.subrange(0, k1)[j]);
        assert(b[j] == b.subrange(0, k2)[j]);
        assert(c[j] == c.subrange(0, k2)[j]);
    }
    assert(a.subrange(0, k) =~= c.subrange(0, k));
    if k1 < k2 {
        if k1 < a.len() {
            assert(b[k1] == b.subrange(0, k2)[k1]);
            assert(c[k1] == c.subrange(0, k2)[k1]);
        }
    } else if k2 < k1 {
        assert(a[k2] == a.subrange(0, k1)[k2]);
        assert(b[k2] == b.subrange(0, k1)[k2]);
    }
    assert(a.subrange(0, k) == c.subrange(0, k) && (k == a.len() || (k < c.len() && (a[k] as u32)
        < (c[k] as u32))));
}

/// True when `a` sorts no later than `b`.
pub fn text_le(a: &str, b: &str) -> (r: bool)
    ensures
        r == lex_le(a@, b@),
{
    let x = chars_of(a);
    let y = chars_of(b);
    let mut i: usize = 0;
    while i < x.len() && i < y.len() && x[i] == y[i]
        invariant
            i <= x@.len(),
            i <= y@.len(),
            x@ == a@,
            y@ == b@,
            x@.subrange(0, i as int) == y@.subrange(0, i as int),
        decreases x@.len() - i,
    {
        assert(x@.subrange(0, i + 1) =~= x@.subrange(0, i as int).push(x@[i as int]));
        assert(y@.subrange(0, i + 1) =~= y@.subrange(0, i as int).push(y@[i as int]));
        i = i + 1;
    }
    let r = if i == x.len() {
        true
    } else if i == y.len() {
        false
    } else {
        (x[i] as u32) < (y[i] as u32)
    };
    proof {
        let k0 = i as int;
        if r {
            assert(x@.subrange(0, k0) == y@.subrange(0, k0));
        } else {
            assert forall|k: int|
                0 <= k <= x@.len() && k <= y@.len() && #[trigger] x@.subrange(0, k)
                    == #[trigger] y@.subrange(0, k) implies !(k == x@.len() || (k < y@.len()
                && (x@[k] as u32) < (y@[k] as u32))) by {
                if k < k0 {
                    assert(x@[k] == x@.subrange(0, k0)[k]);
                    assert(y@[k] == y@.subrange(0, k0)[k]);
                } else if k > k0 {
                    assert(x@.subrange(0, k)[k0] == y@.subrange(0, k)[k0]);
                }
            }
        }
    }
    r
}

// ---------------------------------------------------------------------------
// History listing
// ---------------------------------------------------------------------------

/// Lightweight history item returned for presentation.
#[derive(Debug, PartialEq, Eq)]
pub struct HistoryItem {
    /// Stable item identifier.
    pub id: StableId,
    /// Human-readable summary.
    pub summary: String,
}

#[verifier::ext_equal]
pub struct HistoryItemView {
    pub id: Seq<char>,
    pub summary: Seq<char>,
}

impl View for HistoryItem {
    type V = HistoryItemView;

    open spec fn view(&self) -> HistoryItemView {
        HistoryItemView { id: self.id@, summary: self.summary@ }
    }
}

pub open spec fn items_view(items: Seq<HistoryItem>) -> Seq<HistoryItemView> {
    items.map_values(|i: HistoryItem| i@)
}

pub open spec fn bool_text(b: bool) -> Seq<char> {
    if b { "true"@ } else { "false"@ }
}

/// The one-line description of a command shown in history.
pub open spec fn summary_text(c: CommandView) -> Seq<char> {
    match c {
        CommandView::AddTrack { track } => "add track '"@ + track.name + "'"@,
        CommandView::RemoveTrack { track_id } => "remove track "@ + track_id,
        CommandView::AddMediaReference { media } => "add media "@ + match media.content_hash {
            Some(h) => h,
            None => "unknown"@,
        },
        CommandView::AddClip { track_id, clip } => "add clip "@ + clip.id + " to track "@
            + track_id,
        CommandView::SetClipPlacement { clip_id, start_sample, duration_samples } => "set clip "@
            + clip_id + " placement start="@ + decimal(start_sample as nat) + " duration="@
            + decimal(duration_samples as nat),
        CommandView::RemoveClip { clip_id } => "remove clip "@ + clip_id,
        CommandView::SetTrackControls { track_id, volume_percent, muted, solo } => "set track "@
            + track_id + " controls volume="@ + decimal(volume_percent as nat) + " muted="@
            + bool_text(muted) + " solo="@ + bool_text(solo),
        CommandView::SetProjectTempo { tempo_bpm } => "set project tempo "@ + decimal(tempo_bpm as nat)
            + " BPM"@,
        CommandView::CheckoutSnapshot { snapshot_id } => "checkout snapshot "@ + snapshot_id,
    }
}

fn push_bool(out: &mut Vec<char>, b: bool)
    ensures
        final(out)@ == old(out)@ + bool_text(b),
{
    if b {
        push_str(out, "true");
    } else {
        push_str(out, "false");
    }
}

impl ProjectCommand {
    /// The one-line description shown in history.
    pub fn summary(&self) -> (s: String)
        ensures
            s@ == summary_text(self@),
    {
        let mut out: Vec<char> = Vec::new();
        match self {
            ProjectCommand::AddTrack { track } => {
                push_str(&mut out, "add track '");
                push_str(&mut out, track.name.as_str());
                push_str(&mut out, "'");
            },
            ProjectCommand::RemoveTrack { track_id } => {
                push_str(&mut out, "remove track ");
                push_id(&mut out, track_id);
            },
            ProjectCommand::AddMediaReference { media } => {
                push_str(&mut out, "add media ");
                match &media.content_hash {
                    Some(h) => push_str(&mut out, h.as_str()),
                    None => push_str(&mut out, "unknown"),
                }
            },
            ProjectCommand::AddClip { track_id, clip } => {
                push_str(&mut out, "add clip ");
                push_id(&mut out, &clip.id);
                push_str(&mut out, " to track ");
                push_id(&mut out, track_id);
            },
            ProjectCommand::SetClipPlacement { clip_id, start_sample, duration_samples } => {
                push_str(&mut out, "set clip ");
                push_id(&mut out, clip_id);
                push_str(&mut out, " placement start=");
                push_decimal(&mut out, *start_sample as u128);
                push_str(&mut out, " duration=");
                push_decimal(&mut out, *duration_samples as u128);
            },
            ProjectCommand::RemoveClip { clip_id } => {
                push_str(&mut out, "remove clip ");
                push_id(&mut out, clip_id);
            },
            ProjectCommand::SetTrackControls { track_id, volume_percent, muted, solo } => {
                push_str(&mut out, "set track ");
                push_id(&mut out, track_id);
                push_str(&mut out, " controls volume=");
                push_decimal(&mut out, *volume_percent as u128);
                push_str(&mut out, " muted=");
                push_bool(&mut out, *muted);
                push_str(&mut out, " solo=");
                push_bool(&mut out, *solo);
            },
            ProjectCommand::SetProjectTempo { tempo_bpm } => {
                push_str(&mut out, "set project tempo ");
                push_decimal(&mut out, *tempo_bpm as u128);
                push_str(&mut out, " BPM");
            },
            ProjectCommand::CheckoutSnapshot { snapshot_id } => {
                push_str(&mut out, "checkout snapshot ");
                push_id(&mut out, snapshot_id);
            },
        }
        assert(out@ =~= summary_text(self@));
        string_from_chars(&out)
    }
}

/// Stable insertion of an item after every item whose id sorts no later.
pub open spec fn insert_item(s: Seq<HistoryItemView>, x: HistoryItemView) -> Seq<HistoryItemView>
    decreases s.len(),
{
    if s.len() == 0 {
        seq![x]
    } else if lex_le(s.last().id, x.id) {
        s.push(x)
    } else {
        insert_item(s.drop_last(), x).push(s.last())
    }
}

/// Stable sort of history items by identifier.
pub open spec fn sort_items(s: Seq<HistoryItemView>) -> Seq<HistoryItemView>
    decreases s.len(),
{
    if s.len() == 0 {
        s
    } else {
        insert_item(sort_items(s.drop_last()), s.last())
    }
}

pub open spec fn entry_item(e: EntryView) -> HistoryItemView {
    HistoryItemView { id: e.id, summary: summary_text(e.command) }
}

pub open spec fn snapshot_item(s: SnapshotView) -> HistoryItemView {
    HistoryItemView { id: s.id, summary: "snapshot '"@ + s.message + "'"@ }
}

/// Command entries then snapshots, sorted by identifier.
pub open spec fn history_spec(store: StoreView) -> Seq<HistoryItemView> {
    sort_items(
        store.log.map_values(|e: EntryView| entry_item(e)) + store.snapshots.map_values(
            |s: SnapshotView| snapshot_item(s),
        ),
    )
}

proof fn lemma_insert_item_at(s: Seq<HistoryItemView>, x: HistoryItemView, k: int)
    requires
        0 <= k <= s.len(),
        k == 0 || lex_le(s[k - 1].id, x.id),
        forall|j: int| k <= j < s.len() ==> !lex_le(#[trigger] s[j].id, x.id),
    ensures
        insert_item(s, x) == s.insert(k, x),
    decreases s.len(),
{
    if s.len() == 0 {
        assert(s.insert(k, x) =~= seq![x]);
    } else if k == s.len() {
        assert(s.insert(k, x) =~= s.push(x));
    } else {
        assert(!lex_le(s.last().id, x.id));
        lemma_insert_item_at(s.drop_last(), x, k);
        assert(s.drop_last().insert(k, x).push(s.last()) =~= s.insert(k, x));
    }
}

fn insert_history_item(out: &mut Vec<HistoryItem>, item: HistoryItem)
    ensures
        items_view(final(out)@) == insert_item(items_view(old(out)@), item@),
{
    let ghost s = items_view(out@);
    let mut k = out.len();
    while k > 0 && !text_le(out[k - 1].id.as_str(), item.id.as_str())
        invariant
            k <= out@.len(),
            s == items_view(out@),
            forall|j: int| k <= j < s.len() ==> !lex_le(#[trigger] s[j].id, item@.id),
        decreases k,
    {
        k = k - 1;
    }
    proof {
        lemma_insert_item_at(s, item@, k as int);
    }
    out.insert(k, item);
    assert(items_view(out@) =~= s.insert(k as int, item@));
}

/// Command and snapshot history, sorted by identifier.
pub fn history(store: &ProjectStore) -> (items: Vec<HistoryItem>)
    ensures
        items_view(items@) == history_spec(store@),
{
    let ghost all = store@.log.map_values(|e: EntryView| entry_item(e)) + store@.snapshots.map_values(
        |s: SnapshotView| snapshot_item(s),
    );
    let ghost nl = store@.log.len();
    let mut out: Vec<HistoryItem> = Vec::new();
    let mut i: usize = 0;
    while i < store.log.len()
        invariant
            i <= store.log@.len(),
            nl == store.log@.len(),
            all == store@.log.map_values(|e: EntryView| entry_item(e)) + store@.snapshots.map_values(
                |s: SnapshotView| snapshot_item(s),
            ),
            items_view(out@) == sort_items(all.subrange(0, i as int)),
        decreases store.log@.len() - i,
    {
        let entry = &store.log[i];
        let item = HistoryItem { id: entry.id.clone(), summary: entry.command.summary() };
        assert(item@ == all[i as int]);
        insert_history_item(&mut out, item);
        assert(all.subrange(0, i + 1).drop_last() =~= all.subrange(0, i as int));
        i = i + 1;
    }
    let mut j: usize = 0;
    while j < store.snapshots.len()
        invariant
            j <= store.snapshots@.len(),
            nl == store.log@.len(),
            all.len() == nl + store.snapshots@.len(),
            all == store@.log.map_values(|e: EntryView| entry_item(e)) + store@.snapshots.map_values(
                |s: SnapshotView| snapshot_item(s),
            ),
            items_view(out@) == sort_items(all.subrange(0, nl + j)),
        decreases store.snapshots@.len() - j,
    {
        let snap = &store.snapshots[j];
        let mut m: Vec<char> = Vec::new();
        push_str(&mut m, "snapshot '");
        push_str(&mut m, snap.message.as_str());
        push_str(&mut m, "'");
        let item = HistoryItem { id: snap.id.clone(), summary: string_from_chars(&m) };
        assert(item@ =~= all[nl + j]);
        insert_history_item(&mut out, item);
        assert(all.subrange(0, nl + j + 1).drop_last() =~= all.subrange(0, nl + j));
        j = j + 1;
    }
    assert(all.subrange(0, nl + j) =~= all);
    out
}

/// Stable insertion of a name after every name that sorts no later.
pub open spec fn insert_name(s: Seq<Seq<char>>, x: Seq<char>) -> Seq<Seq<char>>
    decreases s.len(),
{
    if s.len() == 0 {
        seq![x]
    } else if lex_le(s.last(), x) {
        s.push(x)
    } else {
        insert_name(s.drop_last(), x).push(s.last())
    }
}

/// Names in sorted order.
pub open spec fn sort_names(s: Seq<Seq<char>>) -> Seq<Seq<char>>
    decreases s.len(),
{
    if s.len() == 0 {
        s
    } else {
        insert_name(sort_names(s.drop_last()), s.last())
    }
}

pub open spec fn names_view(names: Seq<String>) -> Seq<Seq<char>> {
    names.map_values(|n: String| n@)
}

proof fn lemma_insert_name_at(s: Seq<Seq<char>>, x: Seq<char>, k: int)
    requires
        0 <= k <= s.len(),
        k == 0 || lex_le(s[k - 1], x),
        forall|j: int| k <= j < s.len() ==> !lex_le(#[trigger] s[j], x),
    ensures
        insert_name(s, x) == s.insert(k, x),
    decreases s.len(),
{
    if s.len() == 0 {
        assert(s.insert(k, x) =~= seq![x]);
    } else if k == s.len() {
        assert(s.insert(k, x) =~= s.push(x));
    } else {
        assert(!lex_le(s.last(), x));
        lemma_insert_name_at(s.drop_last(), x, k);
        assert(s.drop_last().insert(k, x).push(s.last()) =~= s.insert(k, x));
    }
}

/// Local branch names, sorted.
pub fn list_branches(store: &ProjectStore) -> (names: Vec<String>)
    ensures
        names_view(names@) == sort_names(store@.branches.map_values(|b: crate::store::BranchView| b.name)),
{
    let ghost all = store@.branches.map_values(|b: crate::store::BranchView| b.name);
    let mut out: Vec<String> = Vec::new();
    let mut i: usize = 0;
    while i < store.branches.len()
        invariant
            i <= store.branches@.len(),
            all == store@.branches.map_values(|b: crate::store::BranchView| b.name),
            names_view(out@) == sort_names(all.subrange(0, i as int)),
        decreases store.branches@.len() - i,
    {
        let name = store.branches[i].name.clone();
        let ghost s = names_view(out@);
        let mut k = out.len();
        while k > 0 && !text_le(out[k - 1].as_str(), name.as_str())
            invariant
                k <= out@.len(),
                s == names_view(out@),
                forall|j: int| k <= j < s.len() ==> !lex_le(#[trigger] s[j], name@),
            decreases k,
        {
            k = k - 1;
        }
        proof {
            lemma_insert_name_at(s, name@, k as int);
        }
        out.insert(k, name);
        assert(names_view(out@) =~= s.insert(k as int, all[i as int]));
        assert(all.subrange(0, i + 1).drop_last() =~= all.subrange(0, i as int));
        i = i + 1;
    }
    assert(all.subrange(0, i as int) =~= all);
    out
}

// ---------------------------------------------------------------------------
// Diffs
// ---------------------------------------------------------------------------

/// Human-readable diff between two project states.
#[derive(Debug, PartialEq, Eq)]
pub struct ProjectDiff {
    /// Tracks present only on the right side.
    pub added_tracks: Vec<String>,
    /// Tracks present only on the left side.
    pub removed_tracks: Vec<String>,
    /// Tracks with matching IDs but different content.
    pub changed_tracks: Vec<String>,
}

#[verifier::ext_equal]
pub struct DiffView {
    pub added_tracks: Seq<Seq<char>>,
    pub removed_tracks: Seq<Seq<char>>,
    pub changed_tracks: Seq<Seq<char>>,
}

impl View for ProjectDiff {
    type V = DiffView;

    open spec fn view(&self) -> DiffView {
        DiffView {
            added_tracks: names_view(self.added_tracks@),
            removed_tracks: names_view(self.removed_tracks@),
            changed_tracks: names_view(self.changed_tracks@),
        }
    }
}

pub open spec fn track_names(ts: Seq<TrackView>) -> Seq<Seq<char>> {
    ts.map_values(|t: TrackView| t.name)
}

/// Tracks of `ts` whose identifier `other` does not hold.
pub open spec fn tracks_missing_from(ts: Seq<TrackView>, other: Seq<TrackView>) -> Seq<TrackView> {
    ts.filter(|t: TrackView| !has_track(other, t.id))
}

/// Tracks of `ts` whose identifier `other` holds with different content.
pub open spec fn tracks_changed_in(ts: Seq<TrackView>, other: Seq<TrackView>) -> Seq<TrackView> {
    ts.filter(|t: TrackView| has_track(other, t.id) && other[first_track(other, t.id)] != t)
}

pub open spec fn diff_spec(left: ProjectView, right: ProjectView) -> DiffView {
    DiffView {
        added_tracks: track_names(tracks_missing_from(right.tracks, left.tracks)),
        removed_tracks: track_names(tracks_missing_from(left.tracks, right.tracks)),
        changed_tracks: track_names(tracks_changed_in(left.tracks, right.tracks)),
    }
}

fn names_missing_from(ts: &Vec<Track>, other: &Vec<Track>) -> (names: Vec<String>)
    ensures
        names_view(names@) == track_names(tracks_missing_from(tracks_view(ts@), tracks_view(other@))),
{
    let ghost tv = tracks_view(ts@);
    let ghost ov = tracks_view(other@);
    let ghost pred = |t: TrackView| !has_track(ov, t.id);
    let mut out: Vec<String> = Vec::new();
    let mut i: usize = 0;
    while i < ts.len()
        invariant
            i <= ts@.len(),
            tv == tracks_view(ts@),
            ov == tracks_view(other@),
            pred == (|t: TrackView| !has_track(ov, t.id)),
            names_view(out@) == track_names(tv.subrange(0, i as int).filter(pred)),
        decreases ts@.len() - i,
    {
        proof {
            reveal(Seq::filter);
            assert(tv.subrange(0, i + 1).drop_last() =~= tv.subrange(0, i as int));
        }
        let ghost prev = tv.subrange(0, i as int).filter(pred);
        let ghost before_out = names_view(out@);
        assert(tv.subrange(0, i + 1).filter(pred) == (if pred(tv[i as int]) {
            prev.push(tv[i as int])
        } else {
            prev
        }));
        let found = find_track(other, &ts[i].id);
        if found.is_none() {
            out.push(ts[i].name.clone());
            assert(names_view(out@) =~= before_out.push(tv[i as int].name));
            assert(track_names(prev.push(tv[i as int])) =~= track_names(prev).push(tv[i as int].name));
        }
        assert(names_view(out@) =~= track_names(tv.subrange(0, i + 1).filter(pred)));
        i = i + 1;
    }
    assert(tv.subrange(0, i as int) =~= tv);
    out
}

fn names_changed_in(ts: &Vec<Track>, other: &Vec<Track>) -> (names: Vec<String>)
    ensures
        names_view(names@) == track_names(tracks_changed_in(tracks_view(ts@), tracks_view(other@))),
{
    let ghost tv = tracks_view(ts@);
    let ghost ov = tracks_view(other@);
    let ghost pred = |t: TrackView| has_track(ov, t.id) && ov[first_track(ov, t.id)] != t;
    let mut out: Vec<String> = Vec::new();
    let mut i: usize = 0;
    while i < ts.len()
        invariant
            i <= ts@.len(),
            tv == tracks_view(ts@),
            ov == tracks_view(other@),
            pred == (|t: TrackView| has_track(ov, t.id) && ov[first_track(ov, t.id)] != t),
            names_view(out@) == track_names(tv.subrange(0, i as int).filter(pred)),
        decreases ts@.len() - i,
    {
        proof {
            reveal(Seq::filter);
            assert(tv.subrange(0, i + 1).drop_last() =~= tv.subrange(0, i as int));
        }
        let ghost prev = tv.subrange(0, i as int).filter(pred);
        let ghost before_out = names_view(out@);
        assert(tv.subrange(0, i + 1).filter(pred) == (if pred(tv[i as int]) {
            prev.push(tv[i as int])
        } else {
            prev
        }));
        match find_track(other, &ts[i].id) {
            Some(k) => {
                proof {
                    lemma_first_track_unique(ov, tv[i as int].id, k as int);
                }
                if !other[k].same(&ts[i]) {
                    out.push(ts[i].name.clone());
                    assert(names_view(out@) =~= before_out.push(tv[i as int].name));
                    assert(track_names(prev.push(tv[i as int])) =~= track_names(prev).push(
                        tv[i as int].name,
                    ));
                }
            },
            None => {},
        }
        assert(names_view(out@) =~= track_names(tv.subrange(0, i + 1).filter(pred)));
        i = i + 1;
    }
    assert(tv.subrange(0, i as int) =~= tv);
    out
}

/// A track that both sides hold under the same identifier, with any difference in
/// content (name, volume, mute, solo or clips), is listed as changed under its name on
/// the left; so a merge of a branch that holds such a track is refused as a conflict.
pub proof fn law_diff_lists_changed_track(left: ProjectView, right: ProjectView, i: int)
    requires
        0 <= i < left.tracks.len(),
        has_track(right.tracks, left.tracks[i].id),
        right.tracks[first_track(right.tracks, left.tracks[i].id)] != left.tracks[i],
    ensures
        diff_spec(left, right).changed_tracks.contains(left.tracks[i].name),
        diff_spec(left, right).changed_tracks.len() > 0,
{
    let ts = left.tracks;
    let other = right.tracks;
    let pred = |t: TrackView| has_track(other, t.id) && other[first_track(other, t.id)] != t;
    assert(pred(ts[i]));
    ts.lemma_filter_contains(pred, i);
    let changed = ts.filter(pred);
    assert(changed == tracks_changed_in(ts, other));
    let j = choose|j: int| 0 <= j < changed.len() && changed[j] == ts[i];
    let names = track_names(changed);
    assert(names[j] == ts[i].name);
    assert(diff_spec(left, right).changed_tracks == names);
}

/// A track whose identifier the other side lacks is never listed as changed, and a
/// track that the other side holds unchanged under the same identifier is not either:
/// every name listed as changed belongs to a left track whose same-identifier right
/// track differs from it.
pub proof fn law_diff_changed_only_when_different(left: ProjectView, right: ProjectView, j: int)
    requires
        0 <= j < diff_spec(left, right).changed_tracks.len(),
    ensures
        exists|i: int|
            0 <= i < left.tracks.len() && #[trigger] left.tracks[i].name == diff_spec(left, right).changed_tracks[j]
                && has_track(right.tracks, left.tracks[i].id) && right.tracks[first_track(
                right.tracks,
                left.tracks[i].id,
            )] != left.tracks[i],
{
    let ts = left.tracks;
    let other = right.tracks;
    let pred = |t: TrackView| has_track(other, t.id) && other[first_track(other, t.id)] != t;
    let changed = ts.filter(pred);
    assert(changed == tracks_changed_in(ts, other));
    let x = changed[j];
    assert(changed.contains(x));
    ts.lemma_filter_pred(pred, j);
    ts.lemma_filter_contains_rev(pred, x);
    let i = choose|i: int| 0 <= i < ts.len() && ts[i] == x;
    assert(left.tracks[i].name == diff_spec(left, right).changed_tracks[j]);
}

/// Added, removed, and changed tracks between two project states.
pub fn diff_projects(left: &Project, right: &Project) -> (d: ProjectDiff)
    ensures
        d@ == diff_spec(left@, right@),
{
    ProjectDiff {
        added_tracks: names_missing_from(&right.tracks, &left.tracks),
        removed_tracks: names_missing_from(&left.tracks, &right.tracks),
        changed_tracks: names_changed_in(&left.tracks, &right.tracks),
    }
}

// ---------------------------------------------------------------------------
// References to stored states
// ---------------------------------------------------------------------------

/// What a textual project reference names.
pub enum ProjectRef {
    Current,
    Snapshot(Seq<char>),
    Branch(Seq<char>),
}

pub open spec fn has_prefix(s: Seq<char>, p: Seq<char>) -> bool {
    p.len() <= s.len() && s.subrange(0, p.len() as int) == p
}

/// `current`, `snapshot:<id>`, `branch:<name>`, or a bare snapshot id.
pub open spec fn parse_ref(r: Seq<char>) -> ProjectRef {
    if r == "current"@ {
        ProjectRef::Current
    } else if has_prefix(r, "snapshot:"@) {
        ProjectRef::Snapshot(r.skip("snapshot:"@.len() as int))
    } else if has_prefix(r, "branch:"@) {
        ProjectRef::Branch(r.skip("branch:"@.len() as int))
    } else {
        ProjectRef::Snapshot(r)
    }
}

/// The project state a reference names in a store.
pub open spec fn resolve_ref(store: StoreView, r: Seq<char>) -> Result<ProjectView, ErrorView> {
    match parse_ref(r) {
        ProjectRef::Current => Ok(store.project),
        ProjectRef::Snapshot(id) => if has_snapshot(store.snapshots, id) {
            Ok(store.snapshots[first_snapshot(store.snapshots, id)].project)
        } else {
            Err(missing_snapshot(id))
        },
        ProjectRef::Branch(name) => if has_branch(store.branches, name) {
            Ok(store.branches[first_branch(store.branches, name)].project)
        } else {
            Err(missing_branch(name))
        },
    }
}

/// The rest of `s` after `prefix`, when `s` starts with it.
fn strip_prefix(s: &Vec<char>, prefix: &str) -> (r: Option<Vec<char>>)
    ensures
        match r {
            Some(rest) => has_prefix(s@, prefix@) && rest@ == s@.skip(prefix@.len() as int),
            None => !has_prefix(s@, prefix@),
        },
{
    let p = chars_of(prefix);
    if p.len() > s.len() {
        return None;
    }
    let mut i: usize = 0;
    while i < p.len()
        invariant
            i <= p@.len(),
            p@.len() <= s@.len(),
            p@ == prefix@,
            forall|j: int| 0 <= j < i ==> s@[j] == p@[j],
        decreases p@.len() - i,
    {
        if s[i] != p[i] {
            assert(s@.subrange(0, p@.len() as int)[i as int] != p@[i as int]);
            return None;
        }
        i = i + 1;
    }
    assert(s@.subrange(0, p@.len() as int) =~= p@);
    let mut rest: Vec<char> = Vec::new();
    let mut k = p.len();
    while k < s.len()
        invariant
            p@.len() <= k <= s@.len(),
            rest@ == s@.subrange(p@.len() as int, k as int),
        decreases s@.len() - k,
    {
        rest.push(s[k]);
        k = k + 1;
        assert(rest@ =~= s@.subrange(p@.len() as int, k as int));
    }
    Some(rest)
}

fn chars_equal(a: &Vec<char>, b: &str) -> (r: bool)
    ensures
        r == (a@ == b@),
{
    let c = chars_of(b);
    if a.len() != c.len() {
        return false;
    }
    let mut i: usize = 0;
    while i < a.len()
        invariant
            i <= a@.len(),
            a@.len() == c@.len(),
            c@ == b@,
            forall|j: int| 0 <= j < i ==> a@[j] == c@[j],
        decreases a@.len() - i,
    {
        if a[i] != c[i] {
            return false;
        }
        i = i + 1;
    }
    assert(a@ =~= c@);
    true
}

fn snapshot_project(store: &ProjectStore, id_chars: &Vec<char>) -> (r: Result<Project, ProjectIoError>)
    ensures
        project_view_result(r) == (if has_snapshot(store@.snapshots, id_chars@) {
            Ok(store@.snapshots[first_snapshot(store@.snapshots, id_chars@)].project)
        } else {
            Err(missing_snapshot(id_chars@))
        }),
{
    let id = StableId::from_string(string_from_chars(id_chars));
    match find_snapshot(&store.snapshots, &id) {
        Some(k) => {
            proof {
                lemma_first_snapshot_unique(store@.snapshots, id@, k as int);
            }
            Ok(store.snapshots[k].project.clone())
        },
        None => {
            let mut m: Vec<char> = Vec::new();
            push_str(&mut m, "snapshot ");
            push_id(&mut m, &id);
            push_str(&mut m, " not found");
            Err(ProjectIoError::Io(string_from_chars(&m)))
        },
    }
}

pub open spec fn project_view_result(r: Result<Project, ProjectIoError>) -> Result<ProjectView, ErrorView> {
    crate::commands::project_result_view(r)
}

/// Load the project state that a reference names.
pub fn load_project_ref(store: &ProjectStore, reference: &str) -> (r: Result<Project, ProjectIoError>)
    ensures
        project_view_result(r) == resolve_ref(store@, reference@),
{
    let chars = chars_of(reference);
    if chars_equal(&chars, "current") {
        return Ok(store.project.clone());
    }
    match strip_prefix(&chars, "snapshot:") {
        Some(id) => {
            return snapshot_project(store, &id);
        },
        None => {},
    }
    match strip_prefix(&chars, "branch:") {
        Some(name) => {
            let name = string_from_chars(&name);
            return match load_branch(store, name.as_str()) {
                Ok(b) => Ok(b.project),
                Err(e) => Err(e),
            };
        },
        None => {},
    }
    snapshot_project(store, &chars)
}

pub open spec fn diff_result_view(r: Result<ProjectDiff, ProjectIoError>) -> Result<DiffView, ErrorView> {
    match r {
        Ok(d) => Ok(d@),
        Err(e) => Err(e@),
    }
}

/// Diff two project references (`current`, `snapshot:<id>`, `<snapshot-id>`, or `branch:<name>`).
pub fn diff(store: &ProjectStore, left: &str, right: &str) -> (r: Result<ProjectDiff, ProjectIoError>)
    ensures
        diff_result_view(r) == match resolve_ref(store@, left@) {
            Err(e) => Err(e),
            Ok(l) => match resolve_ref(store@, right@) {
                Err(e) => Err(e),
                Ok(rp) => Ok(diff_spec(l, rp)),
            },
        },
{
    let l = match load_project_ref(store, left) {
        Ok(p) => p,
        Err(e) => {
            return Err(e);
        },
    };
    let r = match load_project_ref(store, right) {
        Ok(p) => p,
        Err(e) => {
            return Err(e);
        },
    };
    Ok(diff_projects(&l, &r))
}

// ---------------------------------------------------------------------------
// Merges
// ---------------------------------------------------------------------------

/// Result of a branch merge.
#[derive(Debug, PartialEq, Eq)]
pub struct MergeReport {
    /// Name of the merged source branch.
    pub source_branch: String,
    /// Track names added to the current branch.
    pub added_tracks: Vec<String>,
    /// Conflicts that blocked the merge.
    pub conflicts: Vec<String>,
}

/// `after` results from `before` by adding each of `ts`, in order, through the command log.
pub open spec fn adds_tracks(before: StoreView, ts: Seq<TrackView>, after: StoreView) -> bool
    decreases ts.len(),
{
    if ts.len() == 0 {
        after == before
    } else {
        exists|mid: StoreView|
            adds_tracks(before, ts.drop_last(), mid) && #[trigger] edit_outcome(
                mid,
                CommandView::AddTrack { track: ts.last() },
                after,
                Ok::<ProjectView, ErrorView>(after.project),
            )
    }
}

/// Merge a stored branch into the current project: tracks whose identifiers the current
/// project lacks are added through the command log; tracks changed on both sides conflict.
#[verifier::spinoff_prover]
#[verifier::rlimit(40)]
pub fn merge_branch(store: &mut ProjectStore, source_branch: &str) -> (r: Result<
    MergeReport,
    ProjectIoError,
>)
    ensures
        !is_valid_branch_name(source_branch@) ==> (r matches Err(e) && e@ == bad_branch_name()
            && final(store)@ == old(store)@),
        is_valid_branch_name(source_branch@) && !has_branch(old(store)@.branches, source_branch@)
            ==> (r matches Err(e) && e@ == missing_branch(source_branch@) && final(store)@ == old(
            store,
        )@),
        is_valid_branch_name(source_branch@) && has_branch(old(store)@.branches, source_branch@)
            ==> ({
            let current = old(store)@.project;
            let source = old(store)@.branches[first_branch(
                old(store)@.branches,
                source_branch@,
            )].project;
            let d = diff_spec(current, source);
            let to_add = tracks_missing_from(source.tracks, current.tracks);
            if d.changed_tracks.len() > 0 {
                r matches Err(e) && e@ == ErrorView::Conflict(d.changed_tracks) && final(store)@
                    == old(store)@
            } else {
                match r {
                    Ok(report) => {
                        &&& report.source_branch@ == source_branch@
                        &&& names_view(report.added_tracks@) == d.added_tracks
                        &&& report.conflicts@.len() == 0
                        &&& adds_tracks(old(store)@, to_add, final(store)@)
                    },
                    Err(e) => exists|k: int, mid: StoreView|
                        0 <= k < to_add.len() && adds_tracks(old(store)@, to_add.take(k), mid)
                            && #[trigger] edit_outcome(
                            mid,
                            CommandView::AddTrack { track: to_add[k] },
                            final(store)@,
                            Err::<ProjectView, ErrorView>(e@),
                        ),
                }
            }
        }),
{
    match validate_branch_name(source_branch) {
        Ok(()) => {},
        Err(e) => {
            return Err(e);
        },
    }
    let current = store.project.clone();
    let source = match load_branch(store, source_branch) {
        Ok(b) => b,
        Err(e) => {
            return Err(e);
        },
    };
    let d = diff_projects(&current, &source.project);
    if d.changed_tracks.len() > 0 {
        return Err(ProjectIoError::Conflict(d.changed_tracks));
    }
    let ghost before = store@;
    let ghost cv = current@;
    let ghost sv = tracks_view(source.project.tracks@);
    let ghost pred = |t: TrackView| !has_track(cv.tracks, t.id);
    let ghost to_add = sv.filter(pred);
    let mut i: usize = 0;
    while i < source.project.tracks.len()
        invariant
            i <= source.project.tracks@.len(),
            sv == tracks_view(source.project.tracks@),
            cv == current@,
            pred == (|t: TrackView| !has_track(cv.tracks, t.id)),
            to_add == sv.filter(pred),
            adds_tracks(before, sv.subrange(0, i as int).filter(pred), store@),
            before == old(store)@,
            is_valid_branch_name(source_branch@),
            has_branch(before.branches, source_branch@),
            source@ == before.branches[first_branch(before.branches, source_branch@)],
            cv == before.project,
            d@ == diff_spec(cv, source@.project),
            d@.changed_tracks.len() == 0,
        decreases source.project.tracks@.len() - i,
    {
        let ghost done = sv.subrange(0, i as int).filter(pred);
        let ghost mid = store@;
        proof {
            reveal(Seq::filter);
            assert(sv.subrange(0, i + 1).drop_last() =~= sv.subrange(0, i as int));
        }
        let track = &source.project.tracks[i];
        if find_track(&current.tracks, &track.id).is_none() {
            let added = append_and_apply(store, ProjectCommand::AddTrack { track: track.clone() });
            match added {
                Ok(_) => {
                    proof {
                        let next = sv.subrange(0, i + 1).filter(pred);
                        assert(next == done.push(sv[i as int]));
                        assert(next.drop_last() =~= done);
                        assert(edit_outcome(
                            mid,
                            CommandView::AddTrack { track: next.last() },
                            store@,
                            Ok::<ProjectView, ErrorView>(store@.project),
                        ));
                    }
                },
                Err(e) => {
                    proof {
                        lemma_filter_prefix_of_whole(sv, pred, i as int);
                        let k = done.len() as int;
                        assert(to_add.take(k) == done);
                        assert(to_add[k] == sv[i as int]);
                    }
                    return Err(e);
                },
            }
        } else {
            assert(sv.subrange(0, i + 1).filter(pred) == done);
        }
        i = i + 1;
    }
    assert(sv.subrange(0, i as int) =~= sv);
    Ok(MergeReport {
        source_branch: source_branch.to_owned(),
        added_tracks: d.added_tracks,
        conflicts: Vec::new(),
    })
}

/// Filtering a prefix gives a prefix of the filtered whole, and the next kept element follows it.
proof fn lemma_filter_prefix_of_whole(s: Seq<TrackView>, pred: spec_fn(TrackView) -> bool, i: int)
    requires
        0 <= i < s.len(),
        pred(s[i]),
    ensures
        s.filter(pred).take(s.subrange(0, i).filter(pred).len() as int) == s.subrange(0, i).filter(
            pred,
        ),
        s.subrange(0, i).filter(pred).len() < s.filter(pred).len(),
        s.filter(pred)[s.subrange(0, i).filter(pred).len() as int] == s[i],
    decreases s.len(),
{
    reveal(Seq::filter);
    if i == s.len() - 1 {
        assert(s.drop_last() =~= s.subrange(0, i));
    } else {
        assert(s.drop_last().subrange(0, i) =~= s.subrange(0, i));
        lemma_filter_prefix_of_whole(s.drop_last(), pred, i);
        let f = s.drop_last().filter(pred);
        let k = s.subrange(0, i).filter(pred).len() as int;
        if pred(s.last()) {
            assert(s.filter(pred) == f.push(s.last()));
            assert(s.filter(pred).take(k) =~= f.take(k));
        } else {
            assert(s.filter(pred) == f);
        }
    }
}

/// A successful merge keeps the saved project equal to the replay of the log.
pub proof fn law_merge_keeps_replay(
    base: ProjectView,
    before: StoreView,
    ts: Seq<TrackView>,
    after: StoreView,
)
    requires
        replays_to(base, before),
        adds_tracks(before, ts, after),
    ensures
        replays_to(base, after),
    decreases ts.len(),
{
    if ts.len() > 0 {
        let mid = choose|mid: StoreView|
            adds_tracks(before, ts.drop_last(), mid) && #[trigger] edit_outcome(
                mid,
                CommandView::AddTrack { track: ts.last() },
                after,
                Ok::<ProjectView, ErrorView>(after.project),
            );
        law_merge_keeps_replay(base, before, ts.drop_last(), mid);
        law_edit_keeps_replay(
            base,
            mid,
            CommandView::AddTrack { track: ts.last() },
            after,
            Ok::<ProjectView, ErrorView>(after.project),
        );
    }
}


/// One store operation other than switching branch, as the store's functions describe
/// their effect: an edit through the command log that succeeds (adding, removing or
/// changing tracks, media and clips, checking out a snapshot); a merge, which adds
/// tracks through the log; a new snapshot; or a change to nothing but the branch list,
/// such as a new branch or an edit that was refused.
pub open spec fn history_step(before: StoreView, after: StoreView) -> bool {
    ||| exists|c: CommandView, r: Result<ProjectView, ErrorView>|
        #[trigger] edit_outcome(before, c, after, r) && r is Ok
    ||| exists|ts: Seq<TrackView>| #[trigger] adds_tracks(before, ts, after)
    ||| exists|x: SnapshotView| after == (StoreView { snapshots: before.snapshots.push(x), ..before })
        && #[trigger] before.snapshots.push(x) == after.snapshots
    ||| (after.project == before.project && after.log == before.log && after.snapshots == before.snapshots)
}

/// Base state plus command log rebuild the saved project: from a fresh project (a valid
/// base with an empty log), after any run of store operations other than switching
/// branch, replaying the log over the base gives the saved project at every point.
pub proof fn law_replay_rebuilds_saved_project(base: ProjectView, run: Seq<StoreView>)
    requires
        run.len() > 0,
        is_valid(base),
        run[0].project == base,
        run[0].log.len() == 0,
        forall|i: int, j: int|
            0 <= i && j == i + 1 && j < run.len() ==> #[trigger] history_step(run[i], run[j]),
    ensures
        forall|i: int| 0 <= i < run.len() ==> #[trigger] replays_to(base, run[i]),
    decreases run.len(),
{
    let n = run.len() as int;
    if n == 1 {
        law_empty_log_replays_to_base(base, run[0]);
    } else {
        let init = run.drop_last();
        assert forall|i: int, j: int|
            0 <= i && j == i + 1 && j < init.len() implies #[trigger] history_step(init[i], init[j]) by {
            assert(history_step(run[i], run[j]));
        }
        law_replay_rebuilds_saved_project(base, init);
        let before = run[n - 2];
        let after = run[n - 1];
        assert(replays_to(base, init[n - 2]));
        assert(history_step(run[n - 2], run[n - 1]));
        if exists|c: CommandView, r: Result<ProjectView, ErrorView>|
            #[trigger] edit_outcome(before, c, after, r) && r is Ok {
            let (c, r) = choose|c: CommandView, r: Result<ProjectView, ErrorView>|
                #[trigger] edit_outcome(before, c, after, r) && r is Ok;
            law_edit_keeps_replay(base, before, c, after, r);
        } else if exists|ts: Seq<TrackView>| #[trigger] adds_tracks(before, ts, after) {
            let ts = choose|ts: Seq<TrackView>| #[trigger] adds_tracks(before, ts, after);
            law_merge_keeps_replay(base, before, ts, after);
        } else if exists|x: SnapshotView| after == (StoreView { snapshots: before.snapshots.push(x), ..before })
            && #[trigger] before.snapshots.push(x) == after.snapshots {
            let x = choose|x: SnapshotView| after == (StoreView { snapshots: before.snapshots.push(x), ..before })
                && #[trigger] before.snapshots.push(x) == after.snapshots;
            law_snapshot_keeps_replay(base, before, x);
        } else {
            assert(replays_to(base, after));
        }
        assert forall|i: int| 0 <= i < n implies #[trigger] replays_to(base, run[i]) by {
            if i < n - 1 {
                assert(init[i] == run[i]);
            }
        }
    }
}

// ---------------------------------------------------------------------------
// Order of listings
// ---------------------------------------------------------------------------

/// Texts in order.
pub open spec fn sorted_texts(s: Seq<Seq<char>>) -> bool {
    forall|i: int, j: int| 0 <= i < j < s.len() ==> lex_le(#[trigger] s[i], #[trigger] s[j])
}

proof fn lemma_insert_name_bounded(s: Seq<Seq<char>>, x: Seq<char>, bound: Seq<char>)
    requires
        forall|i: int| 0 <= i < s.len() ==> lex_le(#[trigger] s[i], bound),
        lex_le(x, bound),
    ensures
        insert_name(s, x).len() == s.len() + 1,
        forall|i: int| 0 <= i < insert_name(s, x).len() ==> lex_le(#[trigger] insert_name(s, x)[i], bound),
    decreases s.len(),
{
    if s.len() > 0 && !lex_le(s.last(), x) {
        lemma_insert_name_bounded(s.drop_last(), x, bound);
        let r0 = insert_name(s.drop_last(), x);
        assert forall|i: int| 0 <= i < insert_name(s, x).len() implies lex_le(#[trigger] insert_name(s, x)[i], bound) by {
            if i < r0.len() {
                assert(insert_name(s, x)[i] == r0[i]);
            }
        }
    }
}

proof fn lemma_insert_name_sorted(s: Seq<Seq<char>>, x: Seq<char>)
    requires
        sorted_texts(s),
    ensures
        sorted_texts(insert_name(s, x)),
    decreases s.len(),
{
    let r = insert_name(s, x);
    if s.len() == 0 {
    } else if lex_le(s.last(), x) {
        assert forall|i: int, j: int| 0 <= i < j < r.len() implies lex_le(#[trigger] r[i], #[trigger] r[j]) by {
            if j == s.len() && i < s.len() - 1 {
                lemma_lex_transitive(s[i], s.last(), x);
            }
        }
    } else {
        let d = s.drop_last();
        let l = s.last();
        lemma_insert_name_sorted(d, x);
        lemma_lex_total(l, x);
        assert forall|i: int| 0 <= i < d.len() implies lex_le(#[trigger] d[i], l) by {
            assert(d[i] == s[i]);
        }
        lemma_insert_name_bounded(d, x, l);
        let r0 = insert_name(d, x);
        assert forall|i: int, j: int| 0 <= i < j < r.len() implies lex_le(#[trigger] r[i], #[trigger] r[j]) by {
            if j < r0.len() {
                assert(r[i] == r0[i] && r[j] == r0[j]);
            } else {
                assert(r[i] == r0[i]);
            }
        }
    }
}

proof fn lemma_sort_names_sorted(s: Seq<Seq<char>>)
    ensures
        sorted_texts(sort_names(s)),
    decreases s.len(),
{
    if s.len() > 0 {
        lemma_sort_names_sorted(s.drop_last());
        lemma_insert_name_sorted(sort_names(s.drop_last()), s.last());
    }
}

/// Branch names are listed in order.
pub proof fn law_branches_listed_in_order(store: StoreView)
    ensures
        sorted_texts(sort_names(store.branches.map_values(|b: crate::store::BranchView| b.name))),
{
    lemma_sort_names_sorted(store.branches.map_values(|b: crate::store::BranchView| b.name));
}

proof fn lemma_insert_item_bounded(s: Seq<HistoryItemView>, x: HistoryItemView, bound: Seq<char>)
    requires
        forall|i: int| 0 <= i < s.len() ==> lex_le(#[trigger] s[i].id, bound),
        lex_le(x.id, bound),
    ensures
        insert_item(s, x).len() == s.len() + 1,
        forall|i: int| 0 <= i < insert_item(s, x).len() ==> lex_le(#[trigger] insert_item(s, x)[i].id, bound),
    decreases s.len(),
{
    if s.len() > 0 && !lex_le(s.last().id, x.id) {
        lemma_insert_item_bounded(s.drop_last(), x, bound);
        let r0 = insert_item(s.drop_last(), x);
        assert forall|i: int| 0 <= i < insert_item(s, x).len() implies lex_le(#[trigger] insert_item(s, x)[i].id, bound) by {
            if i < r0.len() {
                assert(insert_item(s, x)[i] == r0[i]);
            }
        }
    }
}

/// History items in order of their identifiers.
pub open spec fn items_in_order(s: Seq<HistoryItemView>) -> bool {
    forall|i: int, j: int| 0 <= i < j < s.len() ==> lex_le(#[trigger] s[i].id, #[trigger] s[j].id)
}

proof fn lemma_insert_item_sorted(s: Seq<HistoryItemView>, x: HistoryItemView)
    requires
        items_in_order(s),
    ensures
        items_in_order(insert_item(s, x)),
    decreases s.len(),
{
    let r = insert_item(s, x);
    if s.len() == 0 {
    } else if lex_le(s.last().id, x.id) {
        assert forall|i: int, j: int| 0 <= i < j < r.len() implies lex_le(#[trigger] r[i].id, #[trigger] r[j].id) by {
            if j == s.len() && i < s.len() - 1 {
                lemma_lex_transitive(s[i].id, s.last().id, x.id);
            }
        }
    } else {
        let d = s.drop_last();
        let l = s.last();
        lemma_insert_item_sorted(d, x);
        lemma_lex_total(l.id, x.id);
        assert forall|i: int| 0 <= i < d.len() implies lex_le(#[trigger] d[i].id, l.id) by {
            assert(d[i] == s[i]);
        }
        lemma_insert_item_bounded(d, x, l.id);
        let r0 = insert_item(d, x);
        assert forall|i: int, j: int| 0 <= i < j < r.len() implies lex_le(#[trigger] r[i].id, #[trigger] r[j].id) by {
            if j < r0.len() {
                assert(r[i] == r0[i] && r[j] == r0[j]);
            } else {
                assert(r[i] == r0[i]);
            }
        }
    }
}

proof fn lemma_sort_items_sorted(s: Seq<HistoryItemView>)
    ensures
        items_in_order(sort_items(s)),
    decreases s.len(),
{
    if s.len() > 0 {
        lemma_sort_items_sorted(s.drop_last());
        lemma_insert_item_sorted(sort_items(s.drop_last()), s.last());
    }
}

/// History is listed in order of identifiers.
pub proof fn law_history_in_order(store: StoreView)
    ensures
        items_in_order(history_spec(store)),
{
    lemma_sort_items_sorted(
        store.log.map_values(|e: EntryView| entry_item(e)) + store.snapshots.map_values(
            |s: SnapshotView| snapshot_item(s),
        ),
    );
}

} // verus!
