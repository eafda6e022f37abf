//! Where a project directory keeps each of its files, as `/`-separated relative joins.

use vstd::prelude::*;

use crate::ids::StableId;
use crate::text::{chars_of, push_str, string_from_chars};

verus! {

/// Canonical project manifest file name.
pub const PROJECT_FILE_NAME: &'static str = "project.daw.json";

/// Append-only command log location beneath `history`.
pub const COMMAND_LOG_FILE_NAME: &'static str = "commands.jsonl";

/// Snapshot directory location beneath `history`.
pub const SNAPSHOT_DIR_NAME: &'static str = "snapshots";

/// Branch directory location beneath `history`.
pub const BRANCH_DIR_NAME: &'static str = "branches";

/// Active branch pointer location beneath `history`.
pub const ACTIVE_BRANCH_FILE_NAME: &'static str = "active_branch.txt";

/// Media index file name beneath `media`.
pub const MEDIA_INDEX_FILE_NAME: &'static str = "index.json";

/// `base` followed by the component `part`, with one separator between them; an
/// absolute `part` (one that starts with `/`) replaces `base`.
pub open spec fn join_path(base: Seq<char>, part: Seq<char>) -> Seq<char> {
    if part.len() > 0 && part[0] == '/' {
        part
    } else if base.len() == 0 {
        part
    } else if base.last() == '/' {
        base + part
    } else {
        base + seq!['/'] + part
    }
}

/// Join a component onto a directory path; an absolute component replaces the path.
pub fn join(base: &str, part: &str) -> (p: String)
    ensures
        p@ == join_path(base@, part@),
{
    let q = chars_of(part);
    if q.len() > 0 && q[0] == '/' {
        return part.to_owned();
    }
    let b = chars_of(base);
    let mut out: Vec<char> = Vec::new();
    push_str(&mut out, base);
    if b.len() > 0 && b[b.len() - 1] != '/' {
        out.push('/');
    }
    push_str(&mut out, part);
    assert(out@ =~= join_path(base@, part@));
    string_from_chars(&out)
}

/// Return the canonical project manifest path for a project directory.
pub fn project_file_path(project_dir: &str) -> (p: String)
    ensures
        p@ == join_path(project_dir@, PROJECT_FILE_NAME@),
{
    join(project_dir, PROJECT_FILE_NAME)
}

/// The `history` directory of a project.
pub fn history_dir_path(project_dir: &str) -> (p: String)
    ensures
        p@ == join_path(project_dir@, "history"@),
{
    join(project_dir, "history")
}

/// Return the command log path for a project directory.
pub fn command_log_path(project_dir: &str) -> (p: String)
    ensures
        p@ == join_path(join_path(project_dir@, "history"@), COMMAND_LOG_FILE_NAME@),
{
    let h = history_dir_path(project_dir);
    join(h.as_str(), COMMAND_LOG_FILE_NAME)
}

/// Return the base replay state path for a project directory.
pub fn base_project_path(project_dir: &str) -> (p: String)
    ensures
        p@ == join_path(join_path(project_dir@, "history"@), "base.daw.json"@),
{
    let h = history_dir_path(project_dir);
    join(h.as_str(), "base.daw.json")
}

/// Return the snapshot directory path for a project directory.
pub fn snapshot_dir_path(project_dir: &str) -> (p: String)
    ensures
        p@ == join_path(join_path(project_dir@, "history"@), SNAPSHOT_DIR_NAME@),
{
    let h = history_dir_path(project_dir);
    join(h.as_str(), SNAPSHOT_DIR_NAME)
}

/// Return the branch directory path for a project directory.
pub fn branch_dir_path(project_dir: &str) -> (p: String)
    ensures
        p@ == join_path(join_path(project_dir@, "history"@), BRANCH_DIR_NAME@),
{
    let h = history_dir_path(project_dir);
    join(h.as_str(), BRANCH_DIR_NAME)
}

/// Return the active branch pointer path.
pub fn active_branch_path(project_dir: &str) -> (p: String)
    ensures
        p@ == join_path(join_path(project_dir@, "history"@), ACTIVE_BRANCH_FILE_NAME@),
{
    let h = history_dir_path(project_dir);
    join(h.as_str(), ACTIVE_BRANCH_FILE_NAME)
}

/// Return the path for a stored snapshot: `<id>.json` in the snapshot directory.
pub fn snapshot_path(project_dir: &str, snapshot_id: &StableId) -> (p: String)
    ensures
        p@ == join_path(
            join_path(join_path(project_dir@, "history"@), SNAPSHOT_DIR_NAME@),
            snapshot_id@ + ".json"@,
        ),
{
    let d = snapshot_dir_path(project_dir);
    let mut name: Vec<char> = Vec::new();
    push_str(&mut name, snapshot_id.as_str());
    push_str(&mut name, ".json");
    let name = string_from_chars(&name);
    join(d.as_str(), name.as_str())
}

/// Return the path for a stored branch: `<name>.json` in the branch directory.
pub fn branch_path(project_dir: &str, branch_name: &str) -> (p: String)
    ensures
        p@ == join_path(
            join_path(join_path(project_dir@, "history"@), BRANCH_DIR_NAME@),
            branch_name@ + ".json"@,
        ),
{
    let d = branch_dir_path(project_dir);
    let mut name: Vec<char> = Vec::new();
    push_str(&mut name, branch_name);
    push_str(&mut name, ".json");
    let name = string_from_chars(&name);
    join(d.as_str(), name.as_str())
}

/// Return the media index path for a project.
pub fn media_index_path(project_dir: &str) -> (p: String)
    ensures
        p@ == join_path(join_path(project_dir@, "media"@), MEDIA_INDEX_FILE_NAME@),
{
    let m = join(project_dir, "media");
    join(m.as_str(), MEDIA_INDEX_FILE_NAME)
}

/// Return the media object root path for a project.
pub fn media_objects_path(project_dir: &str) -> (p: String)
    ensures
        p@ == join_path(join_path(project_dir@, "media"@), "objects"@),
{
    let m = join(project_dir, "media");
    join(m.as_str(), "objects")
}

/// Return the disposable waveform cache path for a project.
pub fn waveform_cache_path(project_dir: &str) -> (p: String)
    ensures
        p@ == join_path(join_path(project_dir@, "cache"@), "waveforms"@),
{
    let c = join(project_dir, "cache");
    join(c.as_str(), "waveforms")
}

/// Return the waveform cache path for a media hash: `<hash>.json` in the cache.
pub fn waveform_summary_path(project_dir: &str, hash: &str) -> (p: String)
    ensures
        p@ == join_path(join_path(join_path(project_dir@, "cache"@), "waveforms"@), hash@ + ".json"@),
{
    let c = waveform_cache_path(project_dir);
    let mut name: Vec<char> = Vec::new();
    push_str(&mut name, hash);
    push_str(&mut name, ".json");
    let name = string_from_chars(&name);
    join(c.as_str(), name.as_str())
}

/// Bytes a character takes in UTF-8.
pub open spec fn utf8_len(c: char) -> int {
    if (c as u32) < 0x80 {
        1
    } else if (c as u32) < 0x800 {
        2
    } else if (c as u32) < 0x10000 {
        3
    } else {
        4
    }
}

/// The directory a hash's object lives in: the characters that make up the hash's first
/// two UTF-8 bytes, or `xx` when the hash has fewer bytes or its second byte ends inside
/// a character.
pub open spec fn hash_prefix(hash: Seq<char>) -> Seq<char> {
    if hash.len() >= 1 && utf8_len(hash[0]) == 2 {
        hash.subrange(0, 1)
    } else if hash.len() >= 2 && utf8_len(hash[0]) == 1 && utf8_len(hash[1]) == 1 {
        hash.subrange(0, 2)
    } else {
        "xx"@
    }
}

/// Bytes a character takes in UTF-8.
fn char_utf8_len(c: char) -> (n: u32)
    ensures
        n == utf8_len(c),
{
    let v = c as u32;
    if v < 0x80 {
        1
    } else if v < 0x800 {
        2
    } else if v < 0x10000 {
        3
    } else {
        4
    }
}

/// The object file name: the hash, with `.<extension>` when there is one.
pub open spec fn object_file_name(hash: Seq<char>, extension: Option<Seq<char>>) -> Seq<char> {
    match extension {
        Some(e) => hash + seq!['.'] + e,
        None => hash,
    }
}

/// Return the content-addressed path for a media object.
pub fn media_object_path(project_dir: &str, hash: &str, extension: Option<&str>) -> (p: String)
    ensures
        p@ == join_path(
            join_path(
                join_path(join_path(join_path(project_dir@, "media"@), "objects"@), "sha256"@),
                hash_prefix(hash@),
            ),
            object_file_name(
                hash@,
                match extension {
                    Some(e) => Some(e@),
                    None => None,
                },
            ),
        ),
{
    let h = chars_of(hash);
    let mut prefix: Vec<char> = Vec::new();
    if h.len() >= 1 && char_utf8_len(h[0]) == 2 {
        prefix.push(h[0]);
        assert(prefix@ =~= h@.subrange(0, 1));
    } else if h.len() >= 2 && char_utf8_len(h[0]) == 1 && char_utf8_len(h[1]) == 1 {
        prefix.push(h[0]);
        prefix.push(h[1]);
        assert(prefix@ =~= h@.subrange(0, 2));
    } else {
        push_str(&mut prefix, "xx");
        assert(prefix@ =~= "xx"@);
    }
    let prefix = string_from_chars(&prefix);
    let mut name: Vec<char> = Vec::new();
    push_str(&mut name, hash);
    match extension {
        Some(e) => {
            name.push('.');
            push_str(&mut name, e);
        },
        None => {},
    }
    let name = string_from_chars(&name);
    proof {
        let ext = match extension {
            Some(e) => Some(e@),
            None => None,
        };
        assert(name@ =~= object_file_name(hash@, ext));
    }
    let objects = media_objects_path(project_dir);
    let store = join(objects.as_str(), "sha256");
    let dir = join(store.as_str(), prefix.as_str());
    join(dir.as_str(), name.as_str())
}

} // verus!
