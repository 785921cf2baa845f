//! Validation of untrusted path strings before any filesystem call touches
//! them.
//!
//! The checks are advisory defense-in-depth, not a sandbox: they reject
//! textual traversal segments and pathological nesting but do not prevent
//! symlink-based escapes. No existence check and no canonicalization is
//! performed here, since canonicalization requires the path to exist and
//! would reject legitimate not-yet-created save targets.

use vstd::prelude::*;

use crate::error::HibiscusError;
use crate::text::contains_substr;
use crate::text::decimal_of;
use crate::text::decimal_str;
use crate::text::has_substr;

verus! {

/// Maximum number of path components a path may have before validation
/// rejects it.
pub const MAX_PATH_DEPTH: usize = 50;

/// Both the forward slash and the backslash separate path components,
/// whatever platform the path text came from.
pub open spec fn is_sep_char(c: char) -> bool {
    c == '/' || c == '\\'
}

/// Counts the components of a path: maximal nonempty runs of characters
/// that are not separators. This textual notion diverges from the
/// platform's path parsing at the margin: a leading root separator opens no
/// component here, and a backslash always separates; the bound it feeds is
/// an advisory, tunable limit, not an exact filesystem measure.
pub open spec fn component_count(s: Seq<char>) -> nat
    decreases s.len(),
{
    if s.len() == 0 {
        0
    } else if is_sep_char(s[0]) {
        component_count(s.skip(1))
    } else {
        1 + component_count_in_run(s.skip(1))
    }
}

/// Counts components of the remainder of a path whose previous character
/// stood inside a component, so a further non-separator character opens no
/// new component.
pub open spec fn component_count_in_run(s: Seq<char>) -> nat
    decreases s.len(),
{
    if s.len() == 0 {
        0
    } else if is_sep_char(s[0]) {
        component_count(s.skip(1))
    } else {
        component_count_in_run(s.skip(1))
    }
}

/// A path has no more components than characters.
pub proof fn lemma_component_count_le_len(s: Seq<char>)
    ensures
        component_count(s) <= s.len(),
        component_count_in_run(s) <= s.len(),
    decreases s.len(),
{
    if s.len() > 0 {
        lemma_component_count_le_len(s.skip(1));
    }
}

fn is_sep(c: char) -> (r: bool)
    ensures
        r == is_sep_char(c),
{
    c == '/' || c == '\\'
}

/// Counts the components of a path string.
pub fn count_components(s: &str) -> (r: usize)
    ensures
        r == component_count(s@),
    decreases s@.len(),
{
    let n = s.unicode_len();
    if n == 0 {
        0
    } else {
        let rest = s.substring_char(1, n);
        proof {
            assert(rest@ =~= s@.skip(1));
        }
        if is_sep(s.get_char(0)) {
            count_components(rest)
        } else {
            proof {
                lemma_component_count_le_len(rest@);
            }
            1 + count_components_in_run(rest)
        }
    }
}

fn count_components_in_run(s: &str) -> (r: usize)
    ensures
        r == component_count_in_run(s@),
    decreases s@.len(),
{
    let n = s.unicode_len();
    if n == 0 {
        0
    } else {
        let rest = s.substring_char(1, n);
        proof {
            assert(rest@ =~= s@.skip(1));
        }
        if is_sep(s.get_char(0)) {
            count_components(rest)
        } else {
            count_components_in_run(rest)
        }
    }
}

/// A path passes validation when it holds no traversal segment and no more
/// components than the maximum depth.
pub open spec fn path_ok(s: Seq<char>) -> bool {
    !has_substr(s, ".."@) && component_count(s) <= MAX_PATH_DEPTH
}

/// The message a depth overflow reports: it names the actual depth and the
/// maximum.
pub open spec fn depth_message(depth: nat) -> Seq<char> {
    "Path depth "@ + decimal_of(depth) + " exceeds maximum "@ + decimal_of(
        MAX_PATH_DEPTH as nat,
    )
}

/// The message a failed validation reports: the traversal rejection, or the
/// depth overflow with its numbers.
pub open spec fn path_error_message(s: Seq<char>) -> Seq<char> {
    if has_substr(s, ".."@) {
        "Path traversal not allowed"@
    } else {
        depth_message(component_count(s))
    }
}

/// Validates that a path is safe to hand to the filesystem: it must not
/// contain a parent-directory traversal segment (`..`) anywhere in its text,
/// and its component count must not exceed `MAX_PATH_DEPTH`. Performs no
/// existence check; the path is returned as given.
pub fn validate_path(path: &str) -> (r: Result<String, HibiscusError>)
    ensures
        r is Ok <==> path_ok(path@),
        r is Ok ==> r->Ok_0@ == path@,
        r is Err ==> r->Err_0 is PathValidation && r->Err_0->PathValidation_0@
            == path_error_message(path@),
        has_substr(path@, ".."@) ==> r is Err
            && r->Err_0->PathValidation_0@ == "Path traversal not allowed"@,
        !has_substr(path@, ".."@) && component_count(path@) > MAX_PATH_DEPTH ==> r is Err
            && r->Err_0->PathValidation_0@ == depth_message(component_count(path@)),
{
    if contains_substr(path, "..") {
        return Err(
            HibiscusError::PathValidation(String::from_str("Path traversal not allowed")),
        );
    }
    let depth = count_components(path);
    if depth > MAX_PATH_DEPTH {
        let mut msg = String::from_str("Path depth ");
        msg.append(decimal_str(depth).as_str());
        msg.append(" exceeds maximum ");
        msg.append(decimal_str(MAX_PATH_DEPTH).as_str());
        return Err(HibiscusError::PathValidation(msg));
    }
    Ok(String::from_str(path))
}

/// A canonical path lies within a canonical root when it equals the root or
/// continues it at a component boundary.
pub open spec fn is_within(cp: Seq<char>, cr: Seq<char>) -> bool {
    ||| cp == cr
    ||| (cr.len() > 0 && is_sep_char(cr[cr.len() - 1]) && cp.len() >= cr.len() && cp.subrange(
        0,
        cr.len() as int,
    ) == cr)
    ||| (cp.len() > cr.len() && cp.subrange(0, cr.len() as int) == cr && is_sep_char(
        cp[cr.len() as int],
    ))
}

/// Whether canonical path `cp` is the canonical root `cr` or lies below it.
pub fn within_root(cp: &str, cr: &str) -> (r: bool)
    ensures
        r == is_within(cp@, cr@),
{
    let np = cp.unicode_len();
    let nr = cr.unicode_len();
    if np < nr {
        return false;
    }
    let mut i: usize = 0;
    while i < nr
        invariant
            nr == cr@.len(),
            np == cp@.len(),
            nr <= np,
            i <= nr,
            forall|k: int| 0 <= k < i ==> cp@[k] == cr@[k],
        decreases nr - i,
    {
        if cp.get_char(i) != cr.get_char(i) {
            proof {
                assert(cp@.subrange(0, nr as int)[i as int] != cr@[i as int]);
                assert(cp@ != cr@) by {
                    if cp@ == cr@ {
                        assert(cp@[i as int] == cr@[i as int]);
                    }
                }
            }
            return false;
        }
        i = i + 1;
    }
    proof {
        assert(cp@.subrange(0, nr as int) =~= cr@);
    }
    if np == nr {
        proof {
            assert(cp@ =~= cp@.subrange(0, nr as int));
        }
        return true;
    }
    if nr > 0 && is_sep(cr.get_char(nr - 1)) {
        return true;
    }
    is_sep(cp.get_char(nr))
}

/// The outcome of probing and canonicalizing a path and a root on the real
/// filesystem, handed in by the caller that performed the I/O.
pub enum CanonOutcome {
    /// At least one of the two paths does not exist, so no canonical check
    /// applies.
    NotBothPresent,
    /// Both exist and both canonicalized.
    Canonical { path: String, root: String },
    /// The path exists but could not be canonicalized; carries the
    /// operating system's message.
    PathFailed(String),
    /// The root exists but could not be canonicalized; carries the
    /// operating system's message.
    RootFailed(String),
}

/// Validates that a path is within a given root directory. The path itself
/// is validated first; when both path and root exist, their canonical forms
/// (probed by the caller) must agree at a component boundary.
pub fn validate_path_within_root(path: &str, canon: CanonOutcome) -> (r: Result<
    (),
    HibiscusError,
>)
    ensures
        !path_ok(path@) ==> r is Err && r->Err_0 is PathValidation
            && r->Err_0->PathValidation_0@ == path_error_message(path@),
        path_ok(path@) ==> match canon {
            CanonOutcome::NotBothPresent => r is Ok,
            CanonOutcome::Canonical { path: cp, root: cr } => {
                &&& r is Ok <==> is_within(cp@, cr@)
                &&& r is Err ==> r->Err_0 is PathValidation
                    && r->Err_0->PathValidation_0@ == "Path is outside workspace root"@
            },
            CanonOutcome::PathFailed(m) => r is Err && r->Err_0 is Io
                && r->Err_0->Io_0@ == "Failed to canonicalize path: "@ + m@,
            CanonOutcome::RootFailed(m) => r is Err && r->Err_0 is Io
                && r->Err_0->Io_0@ == "Failed to canonicalize root: "@ + m@,
        },
{
    if let Err(e) = validate_path(path) {
        return Err(e);
    }
    match canon {
        CanonOutcome::NotBothPresent => Ok(()),
        CanonOutcome::Canonical { path: cp, root: cr } => {
            if within_root(cp.as_str(), cr.as_str()) {
                Ok(())
            } else {
                Err(
                    HibiscusError::PathValidation(
                        String::from_str("Path is outside workspace root"),
                    ),
                )
            }
        },
        CanonOutcome::PathFailed(m) => {
            let mut msg = String::from_str("Failed to canonicalize path: ");
            msg.append(m.as_str());
            Err(HibiscusError::Io(msg))
        },
        CanonOutcome::RootFailed(m) => {
            let mut msg = String::from_str("Failed to canonicalize root: ");
            msg.append(m.as_str());
            Err(HibiscusError::Io(msg))
        },
    }
}

} // verus!
