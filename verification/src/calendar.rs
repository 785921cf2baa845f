//! Calendar persistence: the calendar document lives beside the workspace
//! metadata and falls back to a fixed default when absent.

use vstd::prelude::*;

use crate::error::HibiscusError;
use crate::json::json_value_of;
use crate::json::json_wf;
use crate::json::parse_structured;
use crate::json::pretty_text_of;
use crate::json::serialize_structured;
use crate::path_guard::path_error_message;
use crate::path_guard::path_ok;
use crate::path_guard::validate_path;
use crate::persist::structured_temp_of;
use crate::persist::AtomicWrite;
use crate::workspace_ops::joined_path;
use crate::workspace_ops::join_path;

verus! {

/// The fixed calendar file of a workspace root:
/// `<root>/.hibiscus/calendar.json`.
pub open spec fn calendar_path_of(root: Seq<char>) -> Seq<char> {
    joined_path(joined_path(root, ".hibiscus"@), "calendar.json"@)
}

/// The path where a root's calendar file stands.
pub fn calendar_file_path(root: &str) -> (r: String)
    ensures
        r@ == calendar_path_of(root@),
{
    let meta_dir = join_path(root, ".hibiscus");
    join_path(meta_dir.as_str(), "calendar.json")
}

/// The text of the default empty calendar, used when no calendar file
/// exists yet.
pub open spec fn default_calendar_text() -> Seq<char> {
    "{\"events\":[],\"tasks\":[],\"settings\":{\"view\":\"month\",\"startOfWeek\":\"monday\"}}"@
}

/// The default empty calendar document as text.
pub fn default_calendar_content() -> (r: String)
    ensures
        r@ == default_calendar_text(),
{
    String::from_str(
        "{\"events\":[],\"tasks\":[],\"settings\":{\"view\":\"month\",\"startOfWeek\":\"monday\"}}",
    )
}

/// Relies on serde_json::from_str: the fixed default empty-calendar
/// document is valid JSON, so parsing it cannot fail and yields the parser's
/// document for that text.
#[verifier::external_body]
fn parse_default_calendar(s: &str) -> (r: serde_json::Value)
    requires
        s@ == default_calendar_text(),
    ensures
        r == json_value_of(default_calendar_text()),
{
    serde_json::from_str(s).expect("the default calendar document is valid JSON")
}

/// What the caller found when it probed and read the calendar file; only
/// existence is checked, not the entry's type.
pub enum CalendarProbe {
    /// No calendar file exists; the default empty calendar applies.
    Missing,
    /// The read failed; carries the operating system's message.
    ReadFailed(String),
    /// The calendar file's text content.
    Content(String),
}

/// Reads the calendar document of a root: the derived calendar path must
/// validate; a missing file always yields the default empty calendar, and an
/// existing one must parse as JSON.
pub fn read_calendar_data(root: &str, probe: CalendarProbe) -> (r: Result<
    serde_json::Value,
    HibiscusError,
>)
    ensures
        !path_ok(calendar_path_of(root@)) ==> r is Err && r->Err_0 is PathValidation
            && r->Err_0->PathValidation_0@ == path_error_message(calendar_path_of(root@)),
        path_ok(calendar_path_of(root@)) ==> match probe {
            CalendarProbe::Missing => r is Ok && r->Ok_0 == json_value_of(
                default_calendar_text(),
            ),
            CalendarProbe::ReadFailed(m) => r is Err && r->Err_0 is Io && r->Err_0->Io_0@
                == "Failed to read calendar.json: "@ + m@,
            CalendarProbe::Content(c) => (r is Ok <==> json_wf(c@)) && (r is Ok ==> r->Ok_0
                == json_value_of(c@)) && (r is Err ==> r->Err_0 is Serialization),
        },
{
    let path = calendar_file_path(root);
    if let Err(e) = validate_path(path.as_str()) {
        return Err(e);
    }
    match probe {
        CalendarProbe::Missing => {
            let d = default_calendar_content();
            Ok(parse_default_calendar(d.as_str()))
        },
        CalendarProbe::ReadFailed(m) => {
            let mut msg = String::from_str("Failed to read calendar.json: ");
            msg.append(m.as_str());
            Err(HibiscusError::Io(msg))
        },
        CalendarProbe::Content(c) => parse_structured(c.as_str()),
    }
}

/// Begins saving the calendar document of a root: validates the derived
/// path, serializes the document — which always succeeds for a document
/// value — and sets up the atomic write whose steps the caller performs.
/// Returns the write machine and the text it must write to the temporary
/// file.
pub fn save_calendar_data(root: &str, data: &serde_json::Value) -> (r: Result<
    (AtomicWrite, String),
    HibiscusError,
>)
    ensures
        r is Ok <==> path_ok(calendar_path_of(root@)),
        r is Err ==> r->Err_0 is PathValidation && r->Err_0->PathValidation_0@
            == path_error_message(calendar_path_of(root@)),
        r is Ok ==> r->Ok_0.0.target@ == calendar_path_of(root@) && r->Ok_0.0.temp@
            == structured_temp_of(calendar_path_of(root@)) && r->Ok_0.0.phase is EnsureParent
            && r->Ok_0.1@ == pretty_text_of(*data),
{
    let path = calendar_file_path(root);
    let machine = match AtomicWrite::begin_structured(path.as_str()) {
        Ok(m) => m,
        Err(e) => {
            return Err(e);
        },
    };
    let text = match serialize_structured(data) {
        Ok(t) => t,
        Err(e) => {
            return Err(e);
        },
    };
    Ok((machine, text))
}

} // verus!
