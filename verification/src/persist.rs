//! Crash-safe atomic file persistence.
//!
//! A write never leaves a half-written file visible at the target path: the
//! bytes go to a temporary sibling first, are synced to stable storage, and
//! only then renamed over the target — the single atomic commit point. On
//! failure the temporary file is removed and the target keeps its prior
//! content (or absence). The caller performs the filesystem steps; the
//! `AtomicWrite` machine prescribes their order, names the temporary path,
//! and renders every error, while the disk-model lemmas state what the step
//! sequence guarantees.

use vstd::prelude::*;

use crate::error::HibiscusError;
use crate::path_guard::is_sep_char;
use crate::path_guard::path_error_message;
use crate::path_guard::path_ok;
use crate::path_guard::validate_path;

verus! {

/// The temporary sibling of a raw file save: the fixed suffix appended to
/// the target's full name, so no user file is clobbered and the final rename
/// stays within one directory.
pub open spec fn raw_temp_of(p: Seq<char>) -> Seq<char> {
    p + ".hibiscus-save~"@
}

/// The temporary sibling path used by raw file saves.
pub fn temp_path_for(path: &str) -> (r: String)
    ensures
        r@ == raw_temp_of(path@),
{
    let mut t = String::from_str(path);
    t.append(".hibiscus-save~");
    t
}

/// Index where the final path segment begins: just after the last separator.
pub open spec fn file_name_start(p: Seq<char>) -> int
    decreases p.len(),
{
    if p.len() == 0 {
        0
    } else if is_sep_char(p[p.len() - 1]) {
        p.len() as int
    } else {
        file_name_start(p.drop_last())
    }
}

/// Index where the final segment's extension begins (its last dot), or the
/// path's length when the segment has no extension. A dot opening the
/// segment opens no extension.
pub open spec fn stem_end(p: Seq<char>) -> int
    decreases p.len(),
{
    if p.len() == 0 {
        0
    } else if is_sep_char(p[p.len() - 1]) {
        p.len() as int
    } else if p[p.len() - 1] == '.' {
        if p.len() - 1 > file_name_start(p.drop_last()) {
            p.len() - 1
        } else {
            p.len() as int
        }
    } else {
        let s = stem_end(p.drop_last());
        if s == p.len() - 1 {
            p.len() as int
        } else {
            s
        }
    }
}

/// Both indices stay within the path.
pub proof fn lemma_stem_end_bounds(p: Seq<char>)
    ensures
        0 <= file_name_start(p) <= p.len(),
        0 <= stem_end(p) <= p.len(),
    decreases p.len(),
{
    if p.len() > 0 {
        lemma_stem_end_bounds(p.drop_last());
    }
}

/// The temporary sibling of a structured save: the target's extension
/// replaced by `json.tmp`.
pub open spec fn structured_temp_of(p: Seq<char>) -> Seq<char> {
    p.subrange(0, stem_end(p)) + ".json.tmp"@
}

fn file_name_start_exec(p: &str) -> (r: usize)
    ensures
        r == file_name_start(p@),
    decreases p@.len(),
{
    let n = p.unicode_len();
    if n == 0 {
        0
    } else {
        let c = p.get_char(n - 1);
        if c == '/' || c == '\\' {
            n
        } else {
            let q = p.substring_char(0, n - 1);
            proof {
                assert(q@ =~= p@.drop_last());
                lemma_stem_end_bounds(q@);
            }
            file_name_start_exec(q)
        }
    }
}

fn stem_end_exec(p: &str) -> (r: usize)
    ensures
        r == stem_end(p@),
    decreases p@.len(),
{
    let n = p.unicode_len();
    if n == 0 {
        0
    } else {
        let c = p.get_char(n - 1);
        if c == '/' || c == '\\' {
            n
        } else {
            let q = p.substring_char(0, n - 1);
            proof {
                assert(q@ =~= p@.drop_last());
                lemma_stem_end_bounds(q@);
            }
            if c == '.' {
                let f = file_name_start_exec(q);
                if n - 1 > f {
                    n - 1
                } else {
                    n
                }
            } else {
                let s = stem_end_exec(q);
                if s == n - 1 {
                    n
                } else {
                    s
                }
            }
        }
    }
}

/// The temporary sibling path used by structured saves.
pub fn structured_temp_path(path: &str) -> (r: String)
    ensures
        r@ == structured_temp_of(path@),
{
    let se = stem_end_exec(path);
    proof {
        lemma_stem_end_bounds(path@);
    }
    let stem = path.substring_char(0, se);
    let mut t = String::from_str(stem);
    t.append(".json.tmp");
    t
}

/// After the extension dot nothing but plain extension characters stand: no
/// further dot and no separator.
proof fn lemma_after_stem_end(p: Seq<char>)
    requires
        stem_end(p) < p.len(),
    ensures
        forall|k: int| stem_end(p) < k < p.len() ==> p[k] != '.' && !is_sep_char(p[k]),
    decreases p.len(),
{
    lemma_stem_end_bounds(p);
    if p.len() > 0 && !is_sep_char(p[p.len() - 1]) && p[p.len() - 1] != '.' {
        let s = stem_end(p.drop_last());
        lemma_stem_end_bounds(p.drop_last());
        if s != p.len() - 1 {
            if s < p.len() - 1 {
                lemma_after_stem_end(p.drop_last());
                assert forall|k: int| stem_end(p) < k < p.len() implies p[k] != '.'
                    && !is_sep_char(p[k]) by {
                    if k < p.len() - 1 {
                        assert(p.drop_last()[k] == p[k]);
                    }
                }
            }
        }
    }
}

/// A temporary path never coincides with its target.
pub proof fn lemma_temp_differs(p: Seq<char>)
    ensures
        raw_temp_of(p) != p,
        structured_temp_of(p) != p,
{
    reveal_strlit(".hibiscus-save~");
    reveal_strlit(".json.tmp");
    assert(raw_temp_of(p).len() == p.len() + 15);
    lemma_stem_end_bounds(p);
    assert(structured_temp_of(p).len() == stem_end(p) + 9);
    if structured_temp_of(p) == p {
        let s = stem_end(p);
        assert(p.len() == s + 9);
        assert(p[s + 5] == structured_temp_of(p)[s + 5]);
        assert(structured_temp_of(p)[s + 5] == ".json.tmp"@[5]);
        assert(".json.tmp"@[5] == '.');
        lemma_after_stem_end(p);
    }
}

// ---------------------------------------------------------------------------
// The disk model: what the step sequence guarantees.
// ---------------------------------------------------------------------------

/// Creating or overwriting a file puts its content at its path.
pub open spec fn disk_write(
    d: Map<Seq<char>, Seq<u8>>,
    p: Seq<char>,
    content: Seq<u8>,
) -> Map<Seq<char>, Seq<u8>> {
    d.insert(p, content)
}

/// Removing a file leaves every other path as it was.
pub open spec fn disk_remove(d: Map<Seq<char>, Seq<u8>>, p: Seq<char>) -> Map<
    Seq<char>,
    Seq<u8>,
> {
    d.remove(p)
}

/// Renaming moves a file's content to a new path in one step.
pub open spec fn disk_rename(
    d: Map<Seq<char>, Seq<u8>>,
    from: Seq<char>,
    to: Seq<char>,
) -> Map<Seq<char>, Seq<u8>>
    recommends
        d.contains_key(from),
{
    d.remove(from).insert(to, d[from])
}

/// A completed atomic write: temp written and synced, then renamed over the
/// target.
pub open spec fn atomic_write_commit(
    d: Map<Seq<char>, Seq<u8>>,
    target: Seq<char>,
    temp: Seq<char>,
    content: Seq<u8>,
) -> Map<Seq<char>, Seq<u8>> {
    disk_rename(disk_write(d, temp, content), temp, target)
}

/// A write abandoned after the temporary file was created but before the
/// rename, with the cleanup performed.
pub open spec fn atomic_write_aborted(
    d: Map<Seq<char>, Seq<u8>>,
    temp: Seq<char>,
    content: Seq<u8>,
) -> Map<Seq<char>, Seq<u8>> {
    disk_remove(disk_write(d, temp, content), temp)
}

/// A write that fails after the temporary file is created but before the
/// rename leaves the target's prior content — or absence — unchanged, and
/// the temporary file removed.
pub proof fn lemma_aborted_write_preserves_target(
    d: Map<Seq<char>, Seq<u8>>,
    target: Seq<char>,
    temp: Seq<char>,
    content: Seq<u8>,
)
    requires
        temp != target,
    ensures
        !atomic_write_aborted(d, temp, content).contains_key(temp),
        atomic_write_aborted(d, temp, content).contains_key(target) == d.contains_key(target),
        d.contains_key(target) ==> atomic_write_aborted(d, temp, content)[target] == d[target],
        atomic_write_aborted(d, temp, content) == d.remove(temp),
{
    assert(atomic_write_aborted(d, temp, content) =~= d.remove(temp));
}

/// A committed atomic write puts exactly the new content at the target,
/// leaves no temporary file behind, touches no other path, and is
/// idempotent: committing the same content again changes nothing.
pub proof fn lemma_commit_write(
    d: Map<Seq<char>, Seq<u8>>,
    target: Seq<char>,
    temp: Seq<char>,
    content: Seq<u8>,
)
    requires
        temp != target,
    ensures
        atomic_write_commit(d, target, temp, content).contains_key(target),
        atomic_write_commit(d, target, temp, content)[target] == content,
        !atomic_write_commit(d, target, temp, content).contains_key(temp),
        forall|q: Seq<char>|
            q != target && q != temp ==> #[trigger] atomic_write_commit(
                d,
                target,
                temp,
                content,
            ).contains_key(q) == d.contains_key(q) && (d.contains_key(q)
                ==> atomic_write_commit(d, target, temp, content)[q] == d[q]),
        atomic_write_commit(atomic_write_commit(d, target, temp, content), target, temp, content)
            == atomic_write_commit(d, target, temp, content),
{
    let once = atomic_write_commit(d, target, temp, content);
    assert(once =~= d.remove(temp).insert(target, content));
    assert(atomic_write_commit(once, target, temp, content) =~= once);
}

// ---------------------------------------------------------------------------
// The write machine: the step order and the rendered errors.
// ---------------------------------------------------------------------------

/// The steps of an atomic write, in the order the caller must perform them.
#[derive(Debug, PartialEq, Eq, Structural, Clone, Copy)]
pub enum WritePhase {
    /// Create the target's parent directories if missing.
    EnsureParent,
    /// Create the temporary sibling file.
    CreateTemp,
    /// Write all bytes to the temporary file.
    WriteTemp,
    /// Force a durability sync of the temporary file; never rename before
    /// this completes.
    SyncTemp,
    /// Delete the destination first, only on a platform where rename cannot
    /// replace an existing file; elsewhere the caller reports this step
    /// successful without touching the disk. Where it runs, a brief window
    /// exists in which no file stands at the target.
    RemoveExisting,
    /// Rename temp over target: the single atomic commit point.
    Rename,
    /// The write committed.
    Committed,
    /// A step failed; the error was surfaced.
    Failed,
}

/// The phase that follows a successful step.
pub open spec fn next_phase(p: WritePhase) -> WritePhase {
    match p {
        WritePhase::EnsureParent => WritePhase::CreateTemp,
        WritePhase::CreateTemp => WritePhase::WriteTemp,
        WritePhase::WriteTemp => WritePhase::SyncTemp,
        WritePhase::SyncTemp => WritePhase::RemoveExisting,
        WritePhase::RemoveExisting => WritePhase::Rename,
        WritePhase::Rename => WritePhase::Committed,
        WritePhase::Committed => WritePhase::Committed,
        WritePhase::Failed => WritePhase::Failed,
    }
}

/// The error text a failure at a given phase renders, from the paths
/// involved and the operating system's message.
pub open spec fn fail_message(
    phase: WritePhase,
    target: Seq<char>,
    temp: Seq<char>,
    m: Seq<char>,
) -> Seq<char> {
    match phase {
        WritePhase::EnsureParent => "Failed to create parent directories for '"@ + target
            + "': "@ + m,
        WritePhase::CreateTemp => "Failed to create temp file '"@ + temp + "': "@ + m,
        WritePhase::WriteTemp => "Failed to write to temp file '"@ + temp + "': "@ + m,
        WritePhase::SyncTemp => "Failed to sync file '"@ + temp + "': "@ + m,
        WritePhase::RemoveExisting => "Failed to remove existing file '"@ + target
            + "' before save: "@ + m,
        _ => "Failed to rename '"@ + temp + "' to '"@ + target + "': "@ + m,
    }
}

/// One atomic write in progress: the validated target, its temporary
/// sibling, and the step the caller must perform next.
pub struct AtomicWrite {
    pub target: String,
    pub temp: String,
    pub phase: WritePhase,
}

impl AtomicWrite {
    /// Begins a raw file save: validates the target path and names the
    /// temporary sibling by appending the fixed save suffix.
    pub fn begin_raw(path: &str) -> (r: Result<AtomicWrite, HibiscusError>)
        ensures
            r is Ok <==> path_ok(path@),
            r is Err ==> r->Err_0 is PathValidation && r->Err_0->PathValidation_0@
                == path_error_message(path@),
            r is Ok ==> r->Ok_0.target@ == path@ && r->Ok_0.temp@ == raw_temp_of(path@)
                && r->Ok_0.phase is EnsureParent,
    {
        match validate_path(path) {
            Err(e) => Err(e),
            Ok(target) => {
                let temp = temp_path_for(path);
                Ok(AtomicWrite { target, temp, phase: WritePhase::EnsureParent })
            },
        }
    }

    /// Begins a structured save: validates the target path and names the
    /// temporary sibling by replacing the extension with `json.tmp`.
    pub fn begin_structured(path: &str) -> (r: Result<AtomicWrite, HibiscusError>)
        ensures
            r is Ok <==> path_ok(path@),
            r is Err ==> r->Err_0 is PathValidation && r->Err_0->PathValidation_0@
                == path_error_message(path@),
            r is Ok ==> r->Ok_0.target@ == path@ && r->Ok_0.temp@ == structured_temp_of(path@)
                && r->Ok_0.phase is EnsureParent,
    {
        match validate_path(path) {
            Err(e) => Err(e),
            Ok(target) => {
                let temp = structured_temp_path(path);
                Ok(AtomicWrite { target, temp, phase: WritePhase::EnsureParent })
            },
        }
    }

    /// Records that the current step succeeded and moves to the next; after
    /// `Rename` succeeds the write is committed.
    pub fn succeed(&mut self)
        requires
            !(old(self).phase is Committed),
            !(old(self).phase is Failed),
        ensures
            final(self).target == old(self).target,
            final(self).temp == old(self).temp,
            final(self).phase == next_phase(old(self).phase),
    {
        self.phase = match self.phase {
            WritePhase::EnsureParent => WritePhase::CreateTemp,
            WritePhase::CreateTemp => WritePhase::WriteTemp,
            WritePhase::WriteTemp => WritePhase::SyncTemp,
            WritePhase::SyncTemp => WritePhase::RemoveExisting,
            WritePhase::RemoveExisting => WritePhase::Rename,
            WritePhase::Rename => WritePhase::Committed,
            WritePhase::Committed => WritePhase::Committed,
            WritePhase::Failed => WritePhase::Failed,
        };
    }

    /// Records that the current step failed with the given operating-system
    /// message. Returns the error to surface and whether the caller must
    /// best-effort delete the temporary file — it must from the moment its
    /// creation was attempted; secondary deletion errors are ignored.
    pub fn fail(&mut self, os_msg: &str) -> (r: (HibiscusError, bool))
        requires
            !(old(self).phase is Committed),
            !(old(self).phase is Failed),
        ensures
            final(self).target == old(self).target,
            final(self).temp == old(self).temp,
            final(self).phase is Failed,
            r.1 == !(old(self).phase is EnsureParent),
            r.0 is Io,
            r.0->Io_0@ == fail_message(old(self).phase, old(self).target@, old(self).temp@, os_msg@),
    {
        let cleanup = !matches!(self.phase, WritePhase::EnsureParent);
        let mut msg: String;
        match self.phase {
            WritePhase::EnsureParent => {
                msg = String::from_str("Failed to create parent directories for '");
                msg.append(self.target.as_str());
                msg.append("': ");
                msg.append(os_msg);
            },
            WritePhase::CreateTemp => {
                msg = String::from_str("Failed to create temp file '");
                msg.append(self.temp.as_str());
                msg.append("': ");
                msg.append(os_msg);
            },
            WritePhase::WriteTemp => {
                msg = String::from_str("Failed to write to temp file '");
                msg.append(self.temp.as_str());
                msg.append("': ");
                msg.append(os_msg);
            },
            WritePhase::SyncTemp => {
                msg = String::from_str("Failed to sync file '");
                msg.append(self.temp.as_str());
                msg.append("': ");
                msg.append(os_msg);
            },
            WritePhase::RemoveExisting => {
                msg = String::from_str("Failed to remove existing file '");
                msg.append(self.target.as_str());
                msg.append("' before save: ");
                msg.append(os_msg);
            },
            _ => {
                msg = String::from_str("Failed to rename '");
                msg.append(self.temp.as_str());
                msg.append("' to '");
                msg.append(self.target.as_str());
                msg.append("': ");
                msg.append(os_msg);
            },
        }
        self.phase = WritePhase::Failed;
        (HibiscusError::Io(msg), cleanup)
    }
}

// ---------------------------------------------------------------------------
// Reading.
// ---------------------------------------------------------------------------

/// What the caller found when it probed and read a path: reading requires
/// the path to exist and be a plain file.
pub enum SourceProbe {
    /// Nothing exists at the path.
    Missing,
    /// The path exists but is a directory, not a plain file.
    NotAFile,
    /// The read itself failed; carries the operating system's message.
    ReadFailed(String),
    /// The file's text content.
    Content(String),
}

/// Reads the contents of a text file: the path must validate, exist, and be
/// a plain file (probed and read by the caller); the content is returned
/// unchanged.
pub fn read_text_file(path: &str, probe: SourceProbe) -> (r: Result<String, HibiscusError>)
    ensures
        !path_ok(path@) ==> r is Err && r->Err_0 is PathValidation
            && r->Err_0->PathValidation_0@ == path_error_message(path@),
        path_ok(path@) ==> match probe {
            SourceProbe::Missing => r is Err && r->Err_0 is FileNotFound
                && r->Err_0->FileNotFound_0@ == path@,
            SourceProbe::NotAFile => r is Err && (r->Err_0 matches HibiscusError::InvalidPathType {
                path: p,
                expected,
                actual,
            } && p@ == path@ && expected@ == "file"@ && actual@ == "directory"@),
            SourceProbe::ReadFailed(m) => r is Err && r->Err_0 is Io && r->Err_0->Io_0@
                == "Failed to read file '"@ + path@ + "': "@ + m@,
            SourceProbe::Content(c) => r is Ok && r->Ok_0@ == c@,
        },
{
    if let Err(e) = validate_path(path) {
        return Err(e);
    }
    match probe {
        SourceProbe::Missing => Err(HibiscusError::FileNotFound(String::from_str(path))),
        SourceProbe::NotAFile => Err(
            HibiscusError::InvalidPathType {
                path: String::from_str(path),
                expected: String::from_str("file"),
                actual: String::from_str("directory"),
            },
        ),
        SourceProbe::ReadFailed(m) => {
            let mut msg = String::from_str("Failed to read file '");
            msg.append(path);
            msg.append("': ");
            msg.append(m.as_str());
            Err(HibiscusError::Io(msg))
        },
        SourceProbe::Content(c) => Ok(c),
    }
}

} // verus!
