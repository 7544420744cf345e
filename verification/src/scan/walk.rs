//! What a walk of the disk found, as plain values.
//!
//! The walk itself is done by the caller. Its findings are written down here,
//! one `Survey` per root, and every decision is then taken on that record.

use vstd::prelude::*;
use crate::config::exclude::{Reason, ReasonView};
use crate::config::path_map::PathMap;

verus! {

/// `ignore::Error`, the error that a walk yields in place of an entry. Its
/// inside is read only through the three functions below.
#[verifier::external_type_specification]
#[verifier::external_body]
pub struct ExWalkError(ignore::Error);

/// Whether an error of the walk is a denial of access: whether
/// `ignore::Error::io_error` finds an I/O error in it whose
/// `std::io::Error::kind` is `PermissionDenied`.
pub uninterp spec fn walk_denied(err: ignore::Error) -> bool;

/// The path that an error of the walk names: that of `ignore::Error::WithPath`
/// where the error is one, or is a `WithDepth` directly around one.
pub uninterp spec fn walk_error_path(err: ignore::Error) -> Option<Seq<char>>;

/// Calls `ignore::Error::io_error` and, on the I/O error that it finds,
/// `std::io::Error::kind`. The answer is a matter of the error alone, and is
/// given the name `walk_denied`.
#[verifier::external_body]
fn denied_access(err: &ignore::Error) -> (r: bool)
    ensures
        r == walk_denied(*err),
{
    match err.io_error() {
        Some(io) => io.kind() == std::io::ErrorKind::PermissionDenied,
        None => false,
    }
}

/// Reads the path out of an `ignore::Error` that is a `WithPath`, or a
/// `WithDepth` directly around a `WithPath`: the two shapes in which the walk
/// hands out an error that concerns a path. The path is turned into text as
/// `Path::to_string_lossy` does it. The result is given the name
/// `walk_error_path`.
#[verifier::external_body]
fn named_path(err: &ignore::Error) -> (r: Option<String>)
    ensures
        text_of(r) == walk_error_path(*err),
{
    match err {
        ignore::Error::WithPath { path, .. } => Some(path.to_string_lossy().into_owned()),
        ignore::Error::WithDepth { err, .. } => match &**err {
            ignore::Error::WithPath { path, .. } => Some(path.to_string_lossy().into_owned()),
            _ => None,
        },
        _ => None,
    }
}

/// Calls `to_string` on an `ignore::Error`, which formats it through its
/// `Display` impl. Nothing is promised of the text.
#[verifier::external_body]
fn describe(err: &ignore::Error) -> String {
    err.to_string()
}

/// An optional string read as an optional character sequence.
pub open spec fn text_of(s: Option<String>) -> Option<Seq<char>> {
    match s {
        Some(text) => Some(text@),
        None => None,
    }
}

/// One item that the walk of a root yielded.
#[derive(Debug)]
pub enum WalkEvent {
    /// Something was visited: its absolute path, whether it is a directory,
    /// and how many levels below the root it lies (the root itself at 0).
    Entry { path: String, is_dir: bool, depth: usize },
    /// The walk failed and went on: the path that the failure concerns, where
    /// the error names one, whether access was denied, and the error's text.
    Failure { at: Option<String>, permission_denied: bool, message: String },
}

/// A `WalkEvent` with its strings read as character sequences.
pub enum WalkEventView {
    Entry { path: Seq<char>, is_dir: bool, depth: nat },
    Failure { at: Option<Seq<char>>, permission_denied: bool, message: Seq<char> },
}

impl View for WalkEvent {
    type V = WalkEventView;

    open spec fn view(&self) -> WalkEventView {
        match *self {
            WalkEvent::Entry { path, is_dir, depth } => WalkEventView::Entry {
                path: path@,
                is_dir,
                depth: depth as nat,
            },
            WalkEvent::Failure { at, permission_denied, message } => WalkEventView::Failure {
                at: text_of(at),
                permission_denied,
                message: message@,
            },
        }
    }
}

/// The reason recorded for a failure of the walk.
pub open spec fn failure_reason(permission_denied: bool, message: Seq<char>) -> ReasonView {
    if permission_denied {
        ReasonView::PermissionDenied
    } else {
        ReasonView::Other(message)
    }
}

impl WalkEvent {
    /// Writes down an error of the walk: a failure that concerns the path
    /// which the error names, if it names one, and that is a denial of access
    /// exactly if the error is one. The message is the error's own text.
    pub fn from_walk_error(err: &ignore::Error) -> (r: WalkEvent)
        ensures
            r matches WalkEvent::Failure { at, permission_denied, .. } && text_of(at)
                == walk_error_path(*err) && permission_denied == walk_denied(*err),
    {
        WalkEvent::Failure {
            at: named_path(err),
            permission_denied: denied_access(err),
            message: describe(err),
        }
    }

    /// The reason under which a failure is recorded: a denial of access as
    /// such, anything else with its message.
    pub fn reason_for_failure(permission_denied: bool, message: &String) -> (r: Reason)
        ensures
            r@ == failure_reason(permission_denied, message@),
    {
        if permission_denied {
            Reason::PermissionDenied
        } else {
            Reason::Other(message.clone())
        }
    }
}

/// What was seen at one root: whether it is a directory, and what its walk
/// yielded, in the order of the walk.
#[derive(Debug)]
pub struct Survey {
    pub is_dir: bool,
    pub events: Vec<WalkEvent>,
}

/// A `Survey` with its events read as values.
pub struct SurveyView {
    pub is_dir: bool,
    pub events: Seq<WalkEventView>,
}

/// The views of a sequence of events.
pub open spec fn event_views(events: Seq<WalkEvent>) -> Seq<WalkEventView> {
    events.map_values(|e: WalkEvent| e@)
}

impl View for Survey {
    type V = SurveyView;

    open spec fn view(&self) -> SurveyView {
        SurveyView { is_dir: self.is_dir, events: event_views(self.events@) }
    }
}

/// The state of the disk as far as it was looked at: a survey for each root
/// that exists. A root without a survey counts as absent from the disk.
pub type Snapshot = PathMap<Survey>;

} // verus!
