//! The project directory as values: saved project, command log, snapshots and branches,
//! with every edit flowing through the append-only command log.

use vstd::prelude::*;

use crate::commands::{apply_command, apply_spec, checked, find_clip, find_track, has_clip, has_snapshot, has_track, is_first_clip, is_first_snapshot, is_first_track, first_snapshot, lemma_first_snapshot_unique, project_result_view, snapshots_view, CommandView, ErrorView, ProjectCommand, ProjectIoError, Snapshot, SnapshotView};
use crate::ids::{id_text, unix_timestamp_millis, StableId};
use crate::model::{is_valid, media_ids, messages_of, track_ids, validation_messages, Clip, ClipView, MediaReference, MediaView, Project, ProjectView, Track, TrackView, ValidationError, DEFAULT_TRACK_VOLUME_PERCENT};
use crate::text::{chars_of, is_blank, push_str, string_from_chars};

verus! {

/// Default branch name for new projects.
pub const DEFAULT_BRANCH_NAME: &'static str = "main";

/// Command log entry with stable metadata.
#[derive(Debug, PartialEq, Eq)]
pub struct CommandEntry {
    /// Stable command identifier.
    pub id: StableId,
    /// Unix timestamp in milliseconds.
    pub timestamp_millis: u128,
    /// Command payload.
    pub command: ProjectCommand,
}

#[verifier::ext_equal]
pub struct EntryView {
    pub id: Seq<char>,
    pub timestamp_millis: u128,
    pub command: CommandView,
}

impl View for CommandEntry {
    type V = EntryView;

    open spec fn view(&self) -> EntryView {
        EntryView { id: self.id@, timestamp_millis: self.timestamp_millis, command: self.command@ }
    }
}

pub open spec fn entries_view(entries: Seq<CommandEntry>) -> Seq<EntryView> {
    entries.map_values(|e: CommandEntry| e@)
}

impl CommandEntry {
    /// Stamp a command with a fresh identifier and the current time.
    pub fn new(command: ProjectCommand) -> (e: Self)
        ensures
            e@.command == command@,
            exists|seed: u128| e@.id == id_text(seed),
    {
        CommandEntry { id: StableId::new(), timestamp_millis: unix_timestamp_millis(), command }
    }
}

/// Local project branch/take metadata.
#[derive(Debug, PartialEq, Eq)]
pub struct Branch {
    /// Human-readable branch name.
    pub name: String,
    /// Full project state stored for this branch.
    pub project: Project,
}

#[verifier::ext_equal]
pub struct BranchView {
    pub name: Seq<char>,
    pub project: ProjectView,
}

impl View for Branch {
    type V = BranchView;

    open spec fn view(&self) -> BranchView {
        BranchView { name: self.name@, project: self.project@ }
    }
}

impl Clone for Branch {
    fn clone(&self) -> (r: Self)
        ensures
            r@ == self@,
    {
        Branch { name: self.name.clone(), project: self.project.clone() }
    }
}

pub open spec fn branches_view(b: Seq<Branch>) -> Seq<BranchView> {
    b.map_values(|x: Branch| x@)
}

/// Everything a project directory holds that edits read or write.
pub struct ProjectStore {
    /// The saved project document.
    pub project: Project,
    /// The append-only command log.
    pub log: Vec<CommandEntry>,
    /// Stored full-project snapshots.
    pub snapshots: Vec<Snapshot>,
    /// Stored branches.
    pub branches: Vec<Branch>,
    /// Name of the branch that edits are persisted to.
    pub active_branch: String,
}

#[verifier::ext_equal]
pub struct StoreView {
    pub project: ProjectView,
    pub log: Seq<EntryView>,
    pub snapshots: Seq<SnapshotView>,
    pub branches: Seq<BranchView>,
    pub active_branch: Seq<char>,
}

impl View for ProjectStore {
    type V = StoreView;

    open spec fn view(&self) -> StoreView {
        StoreView {
            project: self.project@,
            log: entries_view(self.log@),
            snapshots: snapshots_view(self.snapshots@),
            branches: branches_view(self.branches@),
            active_branch: self.active_branch@,
        }
    }
}

// ---------------------------------------------------------------------------
// Replay
// ---------------------------------------------------------------------------

pub open spec fn commands_of(entries: Seq<EntryView>) -> Seq<CommandView> {
    entries.map_values(|e: EntryView| e.command)
}

/// Apply commands in order, stopping at the first failure.
pub open spec fn replay_from(base: ProjectView, cmds: Seq<CommandView>, snaps: Seq<SnapshotView>) -> Result<
    ProjectView,
    ErrorView,
>
    decreases cmds.len(),
{
    if cmds.len() == 0 {
        Ok(base)
    } else {
        match replay_from(base, cmds.drop_last(), snaps) {
            Ok(p) => apply_spec(p, cmds.last(), snaps),
            Err(e) => Err(e),
        }
    }
}

/// Rebuild a project from its base state and its command log, then validate it.
pub open spec fn replay_spec(base: ProjectView, log: Seq<EntryView>, snaps: Seq<SnapshotView>) -> Result<
    ProjectView,
    ErrorView,
> {
    match replay_from(base, commands_of(log), snaps) {
        Ok(p) => checked(p),
        Err(e) => Err(e),
    }
}

/// Replay the command log over the base project.
pub fn replay_project(base: Project, log: &Vec<CommandEntry>, snapshots: &Vec<Snapshot>) -> (r:
    Result<Project, ProjectIoError>)
    ensures
        project_result_view(r) == replay_spec(base@, entries_view(log@), snapshots_view(snapshots@)),
{
    let ghost cmds = commands_of(entries_view(log@));
    let ghost snaps = snapshots_view(snapshots@);
    let ghost b = base@;
    let mut project = base;
    let mut i: usize = 0;
    while i < log.len()
        invariant
            i <= log@.len(),
            b == base@,
            cmds == commands_of(entries_view(log@)),
            snaps == snapshots_view(snapshots@),
            replay_from(b, cmds.subrange(0, i as int), snaps) == Ok::<ProjectView, ErrorView>(
                project@,
            ),
        decreases log@.len() - i,
    {
        let ghost prev = project@;
        let res = apply_command(project, &log[i].command, snapshots);
        proof {
            assert(cmds[i as int] == log@[i as int]@.command);
            lemma_replay_step(b, cmds, snaps, i as int, prev);
        }
        match res {
            Ok(p) => {
                project = p;
            },
            Err(e) => {
                proof {
                    assert(replay_from(b, cmds.subrange(0, i + 1), snaps) == Err::<ProjectView, ErrorView>(e@));
                    lemma_replay_error_persists(b, cmds, snaps, i as int + 1);
                    assert(replay_from(b, cmds, snaps) == Err::<ProjectView, ErrorView>(e@));
                    assert(replay_spec(b, entries_view(log@), snaps) == Err::<ProjectView, ErrorView>(e@));
                }
                return Err(e);
            },
        }
        i = i + 1;
    }
    assert(cmds.subrange(0, i as int) =~= cmds);
    crate::commands::validate_project_state(project)
}

proof fn lemma_replay_step(
    base: ProjectView,
    cmds: Seq<CommandView>,
    snaps: Seq<SnapshotView>,
    i: int,
    prev: ProjectView,
)
    requires
        0 <= i < cmds.len(),
        replay_from(base, cmds.subrange(0, i), snaps) == Ok::<ProjectView, ErrorView>(prev),
    ensures
        replay_from(base, cmds.subrange(0, i + 1), snaps) == apply_spec(prev, cmds[i], snaps),
{
    let next = cmds.subrange(0, i + 1);
    assert(next.drop_last() =~= cmds.subrange(0, i));
    assert(next.last() == cmds[i]);
}

proof fn lemma_replay_error_persists(
    base: ProjectView,
    cmds: Seq<CommandView>,
    snaps: Seq<SnapshotView>,
    n: int,
)
    requires
        0 <= n <= cmds.len(),
        replay_from(base, cmds.subrange(0, n), snaps) is Err,
    ensures
        replay_from(base, cmds, snaps) == replay_from(base, cmds.subrange(0, n), snaps),
    decreases cmds.len() - n,
{
    if n < cmds.len() {
        assert(cmds.subrange(0, n + 1).drop_last() =~= cmds.subrange(0, n));
        lemma_replay_error_persists(base, cmds, snaps, n + 1);
    } else {
        assert(cmds.subrange(0, n) =~= cmds);
    }
}

// ---------------------------------------------------------------------------
// Branch store
// ---------------------------------------------------------------------------

/// `k` is the first stored branch with this name.
pub open spec fn is_first_branch(b: Seq<BranchView>, name: Seq<char>, k: int) -> bool {
    &&& 0 <= k < b.len()
    &&& b[k].name == name
    &&& forall|j: int| 0 <= j < k ==> #[trigger] b[j].name != name
}

pub open spec fn has_branch(b: Seq<BranchView>, name: Seq<char>) -> bool {
    exists|k: int| 0 <= k < b.len() && #[trigger] b[k].name == name
}

pub open spec fn first_branch(b: Seq<BranchView>, name: Seq<char>) -> int {
    choose|k: int| is_first_branch(b, name, k)
}

/// Branch storage after writing `project` under `name`.
pub open spec fn upsert_branch(b: Seq<BranchView>, name: Seq<char>, project: ProjectView) -> Seq<
    BranchView,
> {
    if has_branch(b, name) {
        b.update(first_branch(b, name), BranchView { name, project })
    } else {
        b.push(BranchView { name, project })
    }
}

proof fn lemma_first_branch_unique(b: Seq<BranchView>, name: Seq<char>, k: int)
    requires
        is_first_branch(b, name, k),
    ensures
        has_branch(b, name),
        first_branch(b, name) == k,
{
    assert(b[k].name == name);
    let k2 = first_branch(b, name);
    assert(is_first_branch(b, name, k2));
    if k2 < k {
        assert(b[k2].name != name);
    }
    if k < k2 {
        assert(b[k].name != name);
    }
}

fn find_branch(branches: &Vec<Branch>, name: &str) -> (r: Option<usize>)
    ensures
        match r {
            Some(k) => is_first_branch(branches_view(branches@), name@, k as int),
            None => !has_branch(branches_view(branches@), name@),
        },
{
    let ghost bv = branches_view(branches@);
    let wanted = name.to_owned();
    let mut i: usize = 0;
    while i < branches.len()
        invariant
            i <= branches@.len(),
            bv == branches_view(branches@),
            wanted@ == name@,
            forall|j: int| 0 <= j < i ==> #[trigger] bv[j].name != name@,
        decreases branches@.len() - i,
    {
        if branches[i].name == wanted {
            return Some(i);
        }
        i = i + 1;
    }
    None
}

/// Write a project under a branch name, replacing a stored branch of that name.
pub fn save_branch(store: &mut ProjectStore, name: &str, project: &Project)
    ensures
        final(store)@ == (StoreView {
            branches: upsert_branch(old(store)@.branches, name@, project@),
            ..old(store)@
        }),
{
    let ghost before = store@;
    let branch = Branch { name: name.to_owned(), project: project.clone() };
    match find_branch(&store.branches, name) {
        Some(k) => {
            proof {
                lemma_first_branch_unique(before.branches, name@, k as int);
            }
            store.branches.set(k, branch);
        },
        None => {
            store.branches.push(branch);
        },
    }
    assert(branches_view(store.branches@) =~= upsert_branch(before.branches, name@, project@));
    assert(store@ =~= StoreView {
        branches: upsert_branch(before.branches, name@, project@),
        ..before
    });
}

/// Save the current project under the active branch's name.
pub fn persist_current_branch(store: &mut ProjectStore)
    ensures
        final(store)@ == (StoreView {
            branches: upsert_branch(
                old(store)@.branches,
                old(store)@.active_branch,
                old(store)@.project,
            ),
            ..old(store)@
        }),
{
    let name = store.active_branch.clone();
    let project = store.project.clone();
    save_branch(store, name.as_str(), &project);
}

// ---------------------------------------------------------------------------
// Edits through the command log
// ---------------------------------------------------------------------------

/// The new log is the old one with one more entry carrying `c`.
pub open spec fn logged(before: Seq<EntryView>, after: Seq<EntryView>, c: CommandView) -> bool {
    &&& after.len() == before.len() + 1
    &&& after.subrange(0, before.len() as int) == before
    &&& after.last().command == c
}

/// What appending and applying `c` does to a store, and what it returns.
pub open spec fn edit_outcome(
    before: StoreView,
    c: CommandView,
    after: StoreView,
    r: Result<ProjectView, ErrorView>,
) -> bool {
    match apply_spec(before.project, c, before.snapshots) {
        Err(e) => r == Err::<ProjectView, ErrorView>(e) && after == before,
        Ok(p) => if is_valid(p) {
            &&& r == Ok::<ProjectView, ErrorView>(p)
            &&& logged(before.log, after.log, c)
            &&& after == StoreView {
                project: p,
                log: after.log,
                branches: upsert_branch(before.branches, before.active_branch, p),
                ..before
            }
        } else {
            &&& r == Err::<ProjectView, ErrorView>(ErrorView::Invalid(validation_messages(p)))
            &&& logged(before.log, after.log, c)
            &&& after == StoreView { log: after.log, ..before }
        },
    }
}

/// Apply a command to the saved project, append it to the log, save, and persist the branch.
pub fn append_and_apply(store: &mut ProjectStore, command: ProjectCommand) -> (r: Result<
    Project,
    ProjectIoError,
>)
    ensures
        edit_outcome(old(store)@, command@, final(store)@, project_result_view(r)),
{
    let ghost before = store@;
    let ghost c = command@;
    let project = store.project.clone();
    let updated = match apply_command(project, &command, &store.snapshots) {
        Ok(p) => p,
        Err(e) => {
            return Err(e);
        },
    };
    let ghost p = updated@;
    store.log.push(CommandEntry::new(command));
    proof {
        assert(entries_view(store.log@).subrange(0, before.log.len() as int) =~= before.log);
    }
    let errors = updated.validate();
    if errors.len() > 0 {
        assert(store@ =~= StoreView { log: store@.log, ..before });
        return Err(ProjectIoError::Invalid(errors));
    }
    store.project = updated.clone();
    persist_current_branch(store);
    assert(store@ =~= StoreView {
        project: p,
        log: store@.log,
        branches: upsert_branch(before.branches, before.active_branch, p),
        ..before
    });
    Ok(updated)
}

/// Add a new track through the command log.
pub fn add_track(store: &mut ProjectStore, name: &str) -> (r: Result<Track, ProjectIoError>)
    ensures
        exists|t: TrackView|
            {
                &&& t.name == name@
                &&& exists|seed: u128| t.id == id_text(seed)
                &&& t.volume_percent == DEFAULT_TRACK_VOLUME_PERCENT
                &&& !t.muted
                &&& !t.solo
                &&& t.clips.len() == 0
                &&& (r matches Ok(track) ==> track@ == t)
                &&& edit_outcome(
                    old(store)@,
                    CommandView::AddTrack { track: t },
                    final(store)@,
                    match r {
                        Ok(_) => Ok(final(store)@.project),
                        Err(e) => Err(e@),
                    },
                )
            },
{
    let track = Track::new(name);
    let ghost t = track@;
    match append_and_apply(store, ProjectCommand::AddTrack { track: track.clone() }) {
        Ok(_) => Ok(track),
        Err(e) => Err(e),
    }
}

/// Remove a track and its clips through the command log, returning the removed track.
pub fn remove_track(store: &mut ProjectStore, track_id: &StableId) -> (r: Result<
    Track,
    ProjectIoError,
>)
    ensures
        !has_track(old(store)@.project.tracks, track_id@) ==> {
            &&& r matches Err(e) && e@ == crate::commands::unknown_track(track_id@)
            &&& final(store)@ == old(store)@
        },
        has_track(old(store)@.project.tracks, track_id@) ==> {
            &&& edit_outcome(
                old(store)@,
                CommandView::RemoveTrack { track_id: track_id@ },
                final(store)@,
                match r {
                    Ok(_) => Ok(final(store)@.project),
                    Err(e) => Err(e@),
                },
            )
            &&& (r matches Ok(t) ==> t@ == old(store)@.project.tracks[crate::commands::first_track(
                old(store)@.project.tracks,
                track_id@,
            )])
        },
{
    let k = match find_track(&store.project.tracks, track_id) {
        Some(k) => k,
        None => {
            return Err(crate::commands::unknown_track_error(track_id));
        },
    };
    proof {
        crate::commands::lemma_first_track_unique(store@.project.tracks, track_id@, k as int);
    }
    let removed = store.project.tracks[k].clone();
    match append_and_apply(store, ProjectCommand::RemoveTrack { track_id: track_id.clone() }) {
        Ok(_) => Ok(removed),
        Err(e) => Err(e),
    }
}

/// Add or update a media reference, keyed by its content hash, through the command log.
pub fn add_media_reference(
    store: &mut ProjectStore,
    content_hash: &str,
    original_path: Option<String>,
) -> (r: Result<MediaReference, ProjectIoError>)
    ensures
        ({
            let m = MediaView {
                id: content_hash@,
                content_hash: Some(content_hash@),
                original_path: crate::text::opt_view(original_path),
            };
            &&& (r matches Ok(media) ==> media@ == m)
            &&& edit_outcome(
                old(store)@,
                CommandView::AddMediaReference { media: m },
                final(store)@,
                match r {
                    Ok(_) => Ok(final(store)@.project),
                    Err(e) => Err(e@),
                },
            )
        }),
{
    let media = MediaReference {
        id: StableId::from_string(content_hash.to_owned()),
        content_hash: Some(content_hash.to_owned()),
        original_path,
    };
    match append_and_apply(store, ProjectCommand::AddMediaReference { media: media.clone() }) {
        Ok(_) => Ok(media),
        Err(e) => Err(e),
    }
}

/// Add a timeline clip with a fresh identifier to a track, through the command log.
pub fn add_clip(
    store: &mut ProjectStore,
    track_id: &StableId,
    media_id: &StableId,
    start_sample: u64,
    duration_samples: u64,
) -> (r: Result<Clip, ProjectIoError>)
    ensures
        exists|c: ClipView|
            {
                &&& c.media_id == media_id@
                &&& exists|seed: u128| c.id == id_text(seed)
                &&& c.start_sample == start_sample
                &&& c.duration_samples == duration_samples
                &&& (r matches Ok(clip) ==> clip@ == c)
                &&& edit_outcome(
                    old(store)@,
                    CommandView::AddClip { track_id: track_id@, clip: c },
                    final(store)@,
                    match r {
                        Ok(_) => Ok(final(store)@.project),
                        Err(e) => Err(e@),
                    },
                )
            },
{
    let clip = Clip {
        id: StableId::new(),
        media_id: media_id.clone(),
        start_sample,
        duration_samples,
    };
    let ghost c = clip@;
    match append_and_apply(
        store,
        ProjectCommand::AddClip { track_id: track_id.clone(), clip: clip.clone() },
    ) {
        Ok(_) => Ok(clip),
        Err(e) => Err(e),
    }
}

/// A clip that was moved is still present after its track's clips are re-sorted.
proof fn lemma_placed_clip_survives(
    p: ProjectView,
    clip_id: Seq<char>,
    start_sample: u64,
    duration_samples: u64,
)
    ensures
        crate::commands::set_clip_placement_spec(p, clip_id, start_sample, duration_samples) matches Ok(
            q,
        ) ==> has_clip(q.tracks, clip_id),
{
    if has_clip(p.tracks, clip_id) {
        let (t, c) = crate::commands::first_clip(p.tracks, clip_id);
        let tr = p.tracks[t];
        assert(is_first_clip(p.tracks, clip_id, t, c)) by {
            let tt = choose|tt: int| 0 <= tt < p.tracks.len() && crate::commands::track_has_clip(
                #[trigger] p.tracks[tt],
                clip_id,
            );
            lemma_first_clip_exists(p.tracks, clip_id, tt);
        }
        let old = tr.clips[c];
        let moved = ClipView { start_sample, duration_samples, ..old };
        let clips = tr.clips.update(c, moved);
        let placed = p.tracks.update(t, crate::commands::with_clips(tr, clips));
        let sorted = crate::commands::sort_all_tracks(placed);
        assert(clips[c] == moved);
        assert(clips.contains(moved));
        crate::commands::lemma_sort_by_start_contains(clips, moved);
        let sc = crate::commands::sort_by_start(clips);
        let k = choose|k: int| 0 <= k < sc.len() && sc[k] == moved;
        assert(sorted[t].clips == sc);
        assert(sorted[t].clips[k].id == clip_id);
        assert(crate::commands::track_has_clip(sorted[t], clip_id));
    }
}

/// When some track has the clip, a first clip location exists.
proof fn lemma_first_clip_exists(ts: Seq<TrackView>, id: Seq<char>, tt: int)
    requires
        0 <= tt < ts.len(),
        crate::commands::track_has_clip(ts[tt], id),
    ensures
        exists|t: int, c: int| is_first_clip(ts, id, t, c),
    decreases tt,
{
    if exists|u: int| 0 <= u < tt && crate::commands::track_has_clip(#[trigger] ts[u], id) {
        let u = choose|u: int| 0 <= u < tt && crate::commands::track_has_clip(#[trigger] ts[u], id);
        lemma_first_clip_exists(ts, id, u);
    } else {
        lemma_first_clip_in_track(ts, id, tt, ts[tt].clips.len() as int);
    }
}

proof fn lemma_first_clip_in_track(ts: Seq<TrackView>, id: Seq<char>, t: int, n: int)
    requires
        0 <= t < ts.len(),
        0 <= n <= ts[t].clips.len(),
        exists|c: int| 0 <= c < n && #[trigger] ts[t].clips[c].id == id,
        forall|u: int| 0 <= u < t ==> !crate::commands::track_has_clip(#[trigger] ts[u], id),
    ensures
        exists|t2: int, c: int| is_first_clip(ts, id, t2, c),
    decreases n,
{
    if exists|c: int| 0 <= c < n - 1 && #[trigger] ts[t].clips[c].id == id {
        lemma_first_clip_in_track(ts, id, t, n - 1);
    } else {
        assert(ts[t].clips[n - 1].id == id);
        assert(is_first_clip(ts, id, t, n - 1));
    }
}

/// Move or resize an existing clip through the command log, returning the placed clip.
pub fn set_clip_placement(
    store: &mut ProjectStore,
    clip_id: &StableId,
    start_sample: u64,
    duration_samples: u64,
) -> (r: Result<Clip, ProjectIoError>)
    ensures
        edit_outcome(
            old(store)@,
            CommandView::SetClipPlacement { clip_id: clip_id@, start_sample, duration_samples },
            final(store)@,
            match r {
                Ok(_) => Ok(final(store)@.project),
                Err(e) => Err(e@),
            },
        ),
        r matches Ok(clip) ==> {
            &&& has_clip(final(store)@.project.tracks, clip_id@)
            &&& clip@ == ({
                let (t, c) = crate::commands::first_clip(final(store)@.project.tracks, clip_id@);
                final(store)@.project.tracks[t].clips[c]
            })
        },
{
    let ghost before = store@;
    match append_and_apply(
        store,
        ProjectCommand::SetClipPlacement { clip_id: clip_id.clone(), start_sample, duration_samples },
    ) {
        Ok(_) => {},
        Err(e) => {
            return Err(e);
        },
    }
    proof {
        reveal(apply_spec);
        lemma_placed_clip_survives(before.project, clip_id@, start_sample, duration_samples);
    }
    match find_clip(&store.project.tracks, clip_id) {
        Some((t, c)) => {
            proof {
                crate::commands::lemma_first_clip_unique(
                    store@.project.tracks,
                    clip_id@,
                    t as int,
                    c as int,
                );
            }
            Ok(store.project.tracks[t].clips[c].clone())
        },
        None => Err(crate::commands::unknown_clip_error(clip_id)),
    }
}


/// Remove an existing clip through the command log, returning the removed clip.
pub fn remove_clip(store: &mut ProjectStore, clip_id: &StableId) -> (r: Result<Clip, ProjectIoError>)
    ensures
        !has_clip(old(store)@.project.tracks, clip_id@) ==> {
            &&& r matches Err(e) && e@ == crate::commands::unknown_clip(clip_id@)
            &&& final(store)@ == old(store)@
        },
        has_clip(old(store)@.project.tracks, clip_id@) ==> {
            &&& edit_outcome(
                old(store)@,
                CommandView::RemoveClip { clip_id: clip_id@ },
                final(store)@,
                match r {
                    Ok(_) => Ok(final(store)@.project),
                    Err(e) => Err(e@),
                },
            )
            &&& (r matches Ok(c) ==> c@ == ({
                let (t, k) = crate::commands::first_clip(old(store)@.project.tracks, clip_id@);
                old(store)@.project.tracks[t].clips[k]
            }))
        },
{
    let (t, c) = match find_clip(&store.project.tracks, clip_id) {
        Some(loc) => loc,
        None => {
            return Err(crate::commands::unknown_clip_error(clip_id));
        },
    };
    proof {
        crate::commands::lemma_first_clip_unique(store@.project.tracks, clip_id@, t as int, c as int);
    }
    let removed = store.project.tracks[t].clips[c].clone();
    match append_and_apply(store, ProjectCommand::RemoveClip { clip_id: clip_id.clone() }) {
        Ok(_) => Ok(removed),
        Err(e) => Err(e),
    }
}

/// Set mixer controls for an existing track through the command log, returning the updated track.
pub fn set_track_controls(
    store: &mut ProjectStore,
    track_id: &StableId,
    volume_percent: u16,
    muted: bool,
    solo: bool,
) -> (r: Result<Track, ProjectIoError>)
    ensures
        edit_outcome(
            old(store)@,
            CommandView::SetTrackControls { track_id: track_id@, volume_percent, muted, solo },
            final(store)@,
            match r {
                Ok(_) => Ok(final(store)@.project),
                Err(e) => Err(e@),
            },
        ),
        r matches Ok(t) ==> {
            &&& has_track(final(store)@.project.tracks, track_id@)
            &&& t@ == final(store)@.project.tracks[crate::commands::first_track(
                final(store)@.project.tracks,
                track_id@,
            )]
            &&& t@.volume_percent == volume_percent
            &&& t@.muted == muted
            &&& t@.solo == solo
        },
{
    let ghost before = store@;
    match append_and_apply(
        store,
        ProjectCommand::SetTrackControls { track_id: track_id.clone(), volume_percent, muted, solo },
    ) {
        Ok(_) => {},
        Err(e) => {
            return Err(e);
        },
    }
    proof {
        reveal(apply_spec);
        if has_track(before.project.tracks, track_id@) {
            let k = crate::commands::first_track(before.project.tracks, track_id@);
            let k0 = choose|k0: int| 0 <= k0 < before.project.tracks.len() && #[trigger] before.project.tracks[k0].id == track_id@;
            lemma_first_track_exists(before.project.tracks, track_id@, k0);
            assert(is_first_track(before.project.tracks, track_id@, k));
            assert(is_first_track(store@.project.tracks, track_id@, k));
            crate::commands::lemma_first_track_unique(store@.project.tracks, track_id@, k);
        }
    }
    match find_track(&store.project.tracks, track_id) {
        Some(k) => {
            proof {
                crate::commands::lemma_first_track_unique(store@.project.tracks, track_id@, k as int);
            }
            Ok(store.project.tracks[k].clone())
        },
        None => Err(crate::commands::unknown_track_error(track_id)),
    }
}

/// Set the project tempo through the command log, returning the updated project.
pub fn set_project_tempo(store: &mut ProjectStore, tempo_bpm: u16) -> (r: Result<Project, ProjectIoError>)
    ensures
        edit_outcome(
            old(store)@,
            CommandView::SetProjectTempo { tempo_bpm },
            final(store)@,
            match r {
                Ok(p) => Ok(p@),
                Err(e) => Err(e@),
            },
        ),
        r matches Ok(p) ==> p@ == final(store)@.project && p@.tempo_bpm == tempo_bpm,
{
    let r = append_and_apply(store, ProjectCommand::SetProjectTempo { tempo_bpm });
    proof {
        reveal(apply_spec);
    }
    r
}

/// When some track has the identifier, a first such track exists.
pub proof fn lemma_first_track_exists(ts: Seq<TrackView>, id: Seq<char>, k: int)
    requires
        0 <= k < ts.len(),
        ts[k].id == id,
    ensures
        exists|j: int| is_first_track(ts, id, j),
    decreases k,
{
    if exists|j: int| 0 <= j < k && #[trigger] ts[j].id == id {
        let j = choose|j: int| 0 <= j < k && #[trigger] ts[j].id == id;
        lemma_first_track_exists(ts, id, j);
    } else {
        assert(is_first_track(ts, id, k));
    }
}

/// Restore a stored snapshot through the command log.
pub fn checkout_snapshot(store: &mut ProjectStore, snapshot_id: &StableId) -> (r: Result<
    Project,
    ProjectIoError,
>)
    ensures
        edit_outcome(
            old(store)@,
            CommandView::CheckoutSnapshot { snapshot_id: snapshot_id@ },
            final(store)@,
            project_result_view(r),
        ),
{
    append_and_apply(store, ProjectCommand::CheckoutSnapshot { snapshot_id: snapshot_id.clone() })
}

// ---------------------------------------------------------------------------
// Branches, snapshots, initialization
// ---------------------------------------------------------------------------

/// Branch names are non-empty and made of ASCII letters, digits, `-` and `_`.
pub open spec fn is_branch_name_char(c: char) -> bool {
    ||| ('a' <= c && c <= 'z')
    ||| ('A' <= c && c <= 'Z')
    ||| ('0' <= c && c <= '9')
    ||| c == '-'
    ||| c == '_'
}

pub open spec fn is_valid_branch_name(name: Seq<char>) -> bool {
    name.len() > 0 && forall|i: int| 0 <= i < name.len() ==> #[trigger] is_branch_name_char(name[i])
}

pub open spec fn bad_branch_name() -> ErrorView {
    ErrorView::Invalid(seq!["branch names may contain only ASCII letters, numbers, '-' and '_'"@])
}

/// Accept a branch name, or say which characters are allowed.
pub fn validate_branch_name(name: &str) -> (r: Result<(), ProjectIoError>)
    ensures
        match r {
            Ok(_) => is_valid_branch_name(name@),
            Err(e) => !is_valid_branch_name(name@) && e@ == bad_branch_name(),
        },
{
    let chars = chars_of(name);
    let mut valid = chars.len() > 0;
    let mut i: usize = 0;
    while i < chars.len()
        invariant
            i <= chars@.len(),
            chars@ == name@,
            valid == (chars@.len() > 0 && forall|k: int| 0 <= k < i ==> #[trigger] is_branch_name_char(chars@[k])),
        decreases chars@.len() - i,
    {
        let c = chars[i];
        let ok = ('a' <= c && c <= 'z') || ('A' <= c && c <= 'Z') || ('0' <= c && c <= '9') || c == '-' || c == '_';
        if !ok {
            assert(!is_branch_name_char(chars@[i as int]));
        }
        valid = valid && ok;
        i = i + 1;
    }
    if valid {
        Ok(())
    } else {
        let mut m: Vec<char> = Vec::new();
        push_str(&mut m, "branch names may contain only ASCII letters, numbers, '-' and '_'");
        let mut errors: Vec<ValidationError> = Vec::new();
        errors.push(ValidationError::new(string_from_chars(&m)));
        assert(messages_of(errors@) =~= seq!["branch names may contain only ASCII letters, numbers, '-' and '_'"@]);
        Err(ProjectIoError::Invalid(errors))
    }
}

pub open spec fn missing_branch(name: Seq<char>) -> ErrorView {
    ErrorView::Io("branch "@ + name + " not found"@)
}

pub(crate) fn missing_branch_error(name: &str) -> (e: ProjectIoError)
    ensures
        e@ == missing_branch(name@),
{
    let mut m: Vec<char> = Vec::new();
    push_str(&mut m, "branch ");
    push_str(&mut m, name);
    push_str(&mut m, " not found");
    ProjectIoError::Io(string_from_chars(&m))
}

/// Look up a stored branch by name.
pub fn load_branch(store: &ProjectStore, name: &str) -> (r: Result<Branch, ProjectIoError>)
    ensures
        match r {
            Ok(b) => has_branch(store@.branches, name@) && b@ == store@.branches[first_branch(
                store@.branches,
                name@,
            )],
            Err(e) => !has_branch(store@.branches, name@) && e@ == missing_branch(name@),
        },
{
    match find_branch(&store.branches, name) {
        Some(k) => {
            proof {
                lemma_first_branch_unique(store@.branches, name@, k as int);
            }
            Ok(store.branches[k].clone())
        },
        None => Err(missing_branch_error(name)),
    }
}

/// Create a branch holding the current project.
pub fn create_branch(store: &mut ProjectStore, name: &str) -> (r: Result<Branch, ProjectIoError>)
    ensures
        match r {
            Ok(b) => {
                &&& is_valid_branch_name(name@)
                &&& b@ == BranchView { name: name@, project: old(store)@.project }
                &&& final(store)@ == (StoreView {
                    branches: upsert_branch(old(store)@.branches, name@, old(store)@.project),
                    ..old(store)@
                })
            },
            Err(e) => !is_valid_branch_name(name@) && e@ == bad_branch_name() && final(store)@
                == old(store)@,
        },
{
    match validate_branch_name(name) {
        Ok(()) => {},
        Err(e) => {
            return Err(e);
        },
    }
    let project = store.project.clone();
    save_branch(store, name, &project);
    Ok(Branch { name: name.to_owned(), project })
}

/// Switch the working project to a stored branch, after saving the current one.
pub fn switch_branch(store: &mut ProjectStore, name: &str) -> (r: Result<Project, ProjectIoError>)
    ensures
        !is_valid_branch_name(name@) ==> (r matches Err(e) && e@ == bad_branch_name()
            && final(store)@ == old(store)@),
        is_valid_branch_name(name@) ==> {
            let saved = upsert_branch(
                old(store)@.branches,
                old(store)@.active_branch,
                old(store)@.project,
            );
            if !has_branch(saved, name@) {
                &&& r matches Err(e) && e@ == missing_branch(name@)
                &&& final(store)@ == (StoreView { branches: saved, ..old(store)@ })
            } else {
                let target = saved[first_branch(saved, name@)].project;
                if is_valid(target) {
                    &&& project_result_view(r) == Ok::<ProjectView, ErrorView>(target)
                    &&& final(store)@ == (StoreView {
                        project: target,
                        branches: saved,
                        active_branch: name@,
                        ..old(store)@
                    })
                } else {
                    &&& project_result_view(r) == Err::<ProjectView, ErrorView>(
                        ErrorView::Invalid(validation_messages(target)),
                    )
                    &&& final(store)@ == (StoreView { branches: saved, ..old(store)@ })
                }
            }
        },
{
    match validate_branch_name(name) {
        Ok(()) => {},
        Err(e) => {
            return Err(e);
        },
    }
    persist_current_branch(store);
    let branch = match load_branch(store, name) {
        Ok(b) => b,
        Err(e) => {
            return Err(e);
        },
    };
    let errors = branch.project.validate();
    if errors.len() > 0 {
        return Err(ProjectIoError::Invalid(errors));
    }
    store.project = branch.project.clone();
    store.active_branch = name.to_owned();
    Ok(branch.project)
}

impl Snapshot {
    /// A snapshot of `project` with a fresh identifier and the current time.
    pub fn new(message: &str, project: Project) -> (s: Self)
        ensures
            s@.message == message@,
            s@.project == project@,
            exists|seed: u128| s@.id == id_text(seed),
    {
        Snapshot {
            id: StableId::new(),
            timestamp_millis: unix_timestamp_millis(),
            message: message.to_owned(),
            project,
        }
    }
}

/// Store a full snapshot of the current project.
pub fn create_snapshot(store: &mut ProjectStore, message: &str) -> (s: Snapshot)
    ensures
        s@.message == message@,
        s@.project == old(store)@.project,
        exists|seed: u128| s@.id == id_text(seed),
        final(store)@ == (StoreView {
            snapshots: old(store)@.snapshots.push(s@),
            ..old(store)@
        }),
{
    let snapshot = Snapshot::new(message, store.project.clone());
    let ghost before = store@;
    store.snapshots.push(snapshot.clone());
    assert(snapshots_view(store.snapshots@) =~= before.snapshots.push(snapshot@));
    assert(store@ =~= StoreView { snapshots: before.snapshots.push(snapshot@), ..before });
    snapshot
}

/// Save a project document after validating it.
pub fn save_project(store: &mut ProjectStore, project: Project) -> (r: Result<(), ProjectIoError>)
    ensures
        match r {
            Ok(_) => is_valid(project@) && final(store)@ == (StoreView { project: project@, ..old(store)@ }),
            Err(e) => !is_valid(project@) && e@ == ErrorView::Invalid(validation_messages(project@))
                && final(store)@ == old(store)@,
        },
{
    let errors = project.validate();
    if errors.len() > 0 {
        return Err(ProjectIoError::Invalid(errors));
    }
    store.project = project;
    Ok(())
}

/// A new project directory's contents: an empty project on branch `main`, with an empty log.
pub fn init_project(name: &str) -> (r: Result<ProjectStore, ProjectIoError>)
    ensures
        match r {
            Ok(s) => {
                &&& s@.project.name == name@
                &&& s@.project.tracks.len() == 0
                &&& s@.project.media.len() == 0
                &&& is_valid(s@.project)
                &&& s@.log.len() == 0
                &&& s@.snapshots.len() == 0
                &&& s@.active_branch == DEFAULT_BRANCH_NAME@
                &&& s@.branches == seq![BranchView { name: DEFAULT_BRANCH_NAME@, project: s@.project }]
            },
            Err(e) => e@ == ErrorView::Invalid(seq!["project name must not be empty"@]),
        },
        r is Ok <==> !is_blank(name@),
{
    let project = Project::new(name);
    proof {
        assert(track_ids(project@.tracks).len() == 0);
        assert(media_ids(project@.media).len() == 0);
        assert(validation_messages(project@) =~= (if is_blank(name@) {
            seq!["project name must not be empty"@]
        } else {
            seq![]
        }));
    }
    let errors = project.validate();
    if errors.len() > 0 {
        assert(messages_of(errors@).len() > 0);
        let e = ProjectIoError::Invalid(errors);
        assert(e@ == ErrorView::Invalid(validation_messages(project@)));
        return Err(e);
    }
    let branch = Branch { name: DEFAULT_BRANCH_NAME.to_owned(), project: project.clone() };
    let mut branches: Vec<Branch> = Vec::new();
    branches.push(branch);
    let store = ProjectStore {
        project,
        log: Vec::new(),
        snapshots: Vec::new(),
        branches,
        active_branch: DEFAULT_BRANCH_NAME.to_owned(),
    };
    assert(store@.branches =~= seq![BranchView { name: DEFAULT_BRANCH_NAME@, project: store@.project }]);
    assert(store@.log =~= Seq::<EntryView>::empty());
    assert(store@.snapshots =~= Seq::<SnapshotView>::empty());
    Ok(store)
}


// ---------------------------------------------------------------------------
// Laws of the command log
// ---------------------------------------------------------------------------

/// Replaying the store's log over `base` gives exactly the saved project.
pub open spec fn replays_to(base: ProjectView, s: StoreView) -> bool {
    replay_spec(base, s.log, s.snapshots) == Ok::<ProjectView, ErrorView>(s.project)
}

/// A fresh project replays to itself: an empty log over a valid base is that base.
pub proof fn law_empty_log_replays_to_base(base: ProjectView, s: StoreView)
    requires
        is_valid(base),
        s.project == base,
        s.log.len() == 0,
    ensures
        replays_to(base, s),
{
    assert(commands_of(s.log) =~= Seq::<CommandView>::empty());
}

/// Every successful edit through the command log keeps the saved project equal to the
/// replay of the log: if replay gave the project before the edit, it gives the new one after.
pub proof fn law_edit_keeps_replay(
    base: ProjectView,
    before: StoreView,
    c: CommandView,
    after: StoreView,
    r: Result<ProjectView, ErrorView>,
)
    requires
        replays_to(base, before),
        edit_outcome(before, c, after, r),
        r is Ok,
    ensures
        replays_to(base, after),
        after.project == r->Ok_0,
{
    let snaps = before.snapshots;
    let cmds_before = commands_of(before.log);
    let cmds_after = commands_of(after.log);
    let n = before.log.len() as int;
    assert(cmds_after.drop_last() =~= cmds_before) by {
        assert(after.log.subrange(0, n) == before.log);
        assert forall|i: int| 0 <= i < n implies cmds_after.drop_last()[i] == cmds_before[i] by {
            assert(after.log.subrange(0, n)[i] == after.log[i]);
        }
    }
    assert(cmds_after.last() == c);
    let p = before.project;
    match replay_from(base, cmds_before, snaps) {
        Ok(q) => {
            assert(checked(q) == Ok::<ProjectView, ErrorView>(p));
            assert(q == p);
        },
        Err(_) => {
            assert(false);
        },
    }
    assert(replay_from(base, cmds_after, snaps) == apply_spec(p, c, snaps));
}

/// A failed edit that the rules refuse leaves the whole store unchanged.
pub proof fn law_refused_edit_changes_nothing(
    before: StoreView,
    c: CommandView,
    after: StoreView,
    r: Result<ProjectView, ErrorView>,
)
    requires
        edit_outcome(before, c, after, r),
        apply_spec(before.project, c, before.snapshots) is Err,
    ensures
        after == before,
        r == apply_spec(before.project, c, before.snapshots),
{
}

/// The saved project is valid after every successful edit.
pub proof fn law_successful_edit_saves_valid_project(
    before: StoreView,
    c: CommandView,
    after: StoreView,
    r: Result<ProjectView, ErrorView>,
)
    requires
        edit_outcome(before, c, after, r),
        r is Ok,
    ensures
        is_valid(after.project),
{
}

proof fn lemma_replay_ignores_new_snapshot(
    base: ProjectView,
    cmds: Seq<CommandView>,
    snaps: Seq<SnapshotView>,
    extra: SnapshotView,
)
    requires
        replay_from(base, cmds, snaps) is Ok,
    ensures
        replay_from(base, cmds, snaps.push(extra)) == replay_from(base, cmds, snaps),
    decreases cmds.len(),
{
    reveal(apply_spec);
    if cmds.len() > 0 {
        let prev = replay_from(base, cmds.drop_last(), snaps);
        if prev is Err {
            assert(false);
        }
        lemma_replay_ignores_new_snapshot(base, cmds.drop_last(), snaps, extra);
        match cmds.last() {
            CommandView::CheckoutSnapshot { snapshot_id } => {
                assert(has_snapshot(snaps, snapshot_id));
                let k = first_snapshot(snaps, snapshot_id);
                let k0 = choose|k0: int| 0 <= k0 < snaps.len() && #[trigger] snaps[k0].id == snapshot_id;
                lemma_first_snapshot_exists(snaps, snapshot_id, k0);
                assert(is_first_snapshot(snaps, snapshot_id, k));
                assert(is_first_snapshot(snaps.push(extra), snapshot_id, k));
                lemma_first_snapshot_unique(snaps.push(extra), snapshot_id, k);
            },
            _ => {},
        }
    }
}

proof fn lemma_first_snapshot_exists(s: Seq<SnapshotView>, id: Seq<char>, k: int)
    requires
        0 <= k < s.len(),
        s[k].id == id,
    ensures
        exists|j: int| is_first_snapshot(s, id, j),
    decreases k,
{
    if exists|j: int| 0 <= j < k && #[trigger] s[j].id == id {
        let j = choose|j: int| 0 <= j < k && #[trigger] s[j].id == id;
        lemma_first_snapshot_exists(s, id, j);
    } else {
        assert(is_first_snapshot(s, id, k));
    }
}

/// Creating a snapshot never changes what the log replays to.
pub proof fn law_snapshot_keeps_replay(base: ProjectView, before: StoreView, extra: SnapshotView)
    requires
        replays_to(base, before),
    ensures
        replays_to(base, StoreView { snapshots: before.snapshots.push(extra), ..before }),
{
    lemma_replay_ignores_new_snapshot(base, commands_of(before.log), before.snapshots, extra);
}

} // verus!
