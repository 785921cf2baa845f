//! Workspace discovery and loading/saving the persisted workspace document.

use vstd::prelude::*;

use crate::error::HibiscusError;
use crate::json::json_value_of;
use crate::json::json_wf;
use crate::json::parse_structured;
use crate::json::pretty_text_of;
use crate::json::serialize_structured;
use crate::path_guard::path_error_message;
use crate::path_guard::path_ok;
use crate::path_guard::validate_path;
use crate::persist::structured_temp_of;
use crate::persist::AtomicWrite;
use crate::persist::SourceProbe;

verus! {

/// A further segment joined onto a directory path, as the filesystem's path
/// type joins them: one forward slash between the two, none doubled.
pub open spec fn joined_path(dir: Seq<char>, segment: Seq<char>) -> Seq<char> {
    if dir.len() > 0 && dir[dir.len() - 1] == '/' {
        dir + segment
    } else {
        dir + seq!['/'] + segment
    }
}

/// Joins a segment onto a directory path.
pub fn join_path(dir: &str, segment: &str) -> (r: String)
    ensures
        r@ == joined_path(dir@, segment@),
{
    let n = dir.unicode_len();
    let mut t = String::from_str(dir);
    if n > 0 && dir.get_char(n - 1) == '/' {
        t.append(segment);
    } else {
        t.append("/");
        t.append(segment);
        proof {
            reveal_strlit("/");
            assert("/"@ =~= seq!['/']);
        }
    }
    t
}

/// The fixed metadata file of a workspace root:
/// `<root>/.hibiscus/workspace.json`.
pub open spec fn metadata_path_of(root: Seq<char>) -> Seq<char> {
    joined_path(joined_path(root, ".hibiscus"@), "workspace.json"@)
}

/// The path where a root's workspace metadata file would stand.
pub fn workspace_metadata_path(root: &str) -> (r: String)
    ensures
        r@ == metadata_path_of(root@),
{
    let meta_dir = join_path(root, ".hibiscus");
    join_path(meta_dir.as_str(), "workspace.json")
}

/// The result of checking a root for a workspace: whether the metadata file
/// exists, and its path when it does.
pub struct WorkspaceDiscovery {
    pub found: bool,
    pub path: Option<String>,
}

/// Discovers whether a workspace metadata file exists under the given root.
/// A pure existence decision: the caller probes whether the expected
/// candidate path is a plain file, and the exact candidate path is reported
/// when it is.
pub fn discover_workspace(root: &str, candidate_is_file: bool) -> (r: WorkspaceDiscovery)
    ensures
        r.found == candidate_is_file,
        candidate_is_file ==> r.path is Some && r.path->0@ == metadata_path_of(root@),
        !candidate_is_file ==> r.path is None,
{
    if candidate_is_file {
        let candidate = workspace_metadata_path(root);
        WorkspaceDiscovery { found: true, path: Some(candidate) }
    } else {
        WorkspaceDiscovery { found: false, path: None }
    }
}

/// Loads the workspace document: the path must validate, exist and be a
/// plain file (probed and read by the caller), and its content must parse
/// as JSON.
pub fn load_workspace(path: &str, probe: SourceProbe) -> (r: Result<
    serde_json::Value,
    HibiscusError,
>)
    ensures
        !path_ok(path@) ==> r is Err && r->Err_0 is PathValidation
            && r->Err_0->PathValidation_0@ == path_error_message(path@),
        path_ok(path@) ==> match probe {
            SourceProbe::Missing => r is Err && r->Err_0 is FileNotFound
                && r->Err_0->FileNotFound_0@ == "workspace.json not found"@,
            SourceProbe::NotAFile => r is Err && (r->Err_0 matches HibiscusError::InvalidPathType {
                path: p,
                expected,
                actual,
            } && p@ == path@ && expected@ == "file"@ && actual@ == "directory"@),
            SourceProbe::ReadFailed(m) => r is Err && r->Err_0 is Io && r->Err_0->Io_0@
                == "Failed to read workspace.json: "@ + m@,
            SourceProbe::Content(c) => (r is Ok <==> json_wf(c@)) && (r is Ok ==> r->Ok_0
                == json_value_of(c@)) && (r is Err ==> r->Err_0 is Serialization),
        },
{
    if let Err(e) = validate_path(path) {
        return Err(e);
    }
    match probe {
        SourceProbe::Missing => Err(
            HibiscusError::FileNotFound(String::from_str("workspace.json not found")),
        ),
        SourceProbe::NotAFile => Err(
            HibiscusError::InvalidPathType {
                path: String::from_str(path),
                expected: String::from_str("file"),
                actual: String::from_str("directory"),
            },
        ),
        SourceProbe::ReadFailed(m) => {
            let mut msg = String::from_str("Failed to read workspace.json: ");
            msg.append(m.as_str());
            Err(HibiscusError::Io(msg))
        },
        SourceProbe::Content(c) => parse_structured(c.as_str()),
    }
}

/// Begins saving the workspace document: validates the path, serializes the
/// document, and sets up the atomic write whose steps the caller performs.
/// Returns the write machine and the text it must write to the temporary
/// file.
pub fn save_workspace(path: &str, workspace: &serde_json::Value) -> (r: Result<
    (AtomicWrite, String),
    HibiscusError,
>)
    ensures
        r is Ok <==> path_ok(path@),
        r is Err ==> r->Err_0 is PathValidation && r->Err_0->PathValidation_0@
            == path_error_message(path@),
        r is Ok ==> r->Ok_0.0.target@ == path@ && r->Ok_0.0.temp@ == structured_temp_of(path@)
            && r->Ok_0.0.phase is EnsureParent && r->Ok_0.1@ == pretty_text_of(*workspace),
{
    let machine = match AtomicWrite::begin_structured(path) {
        Ok(m) => m,
        Err(e) => {
            return Err(e);
        },
    };
    let text = match serialize_structured(workspace) {
        Ok(t) => t,
        Err(e) => {
            return Err(e);
        },
    };
    Ok((machine, text))
}

} // verus!
