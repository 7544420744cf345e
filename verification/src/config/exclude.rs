//! Verdicts on discovered directories, and the patterns excluded by default.

use vstd::prelude::*;
use std::time::SystemTime;
use crate::utilities::clock::now;
use crate::utilities::text::strings;

verus! {

/// Why a path does not contribute to the search path.
#[derive(Debug, PartialEq, Eq)]
pub enum Reason {
    /// A segment fell under this pattern of the entry itself.
    ExcludePattern(String),
    /// A segment is a version-control directory.
    GitIgnored,
    /// A segment fell under this pattern of the global defaults.
    DefaultExclude(String),
    /// The path exists but is no directory.
    NotDirectory,
    /// The path does not exist.
    DoesNotExist,
    /// The walk was denied access.
    PermissionDenied,
    /// The walk failed in another way, described by the message.
    Other(String),
}

/// A `Reason` with its strings read as character sequences.
pub enum ReasonView {
    ExcludePattern(Seq<char>),
    GitIgnored,
    DefaultExclude(Seq<char>),
    NotDirectory,
    DoesNotExist,
    PermissionDenied,
    Other(Seq<char>),
}

impl View for Reason {
    type V = ReasonView;

    open spec fn view(&self) -> ReasonView {
        match *self {
            Reason::ExcludePattern(p) => ReasonView::ExcludePattern(p@),
            Reason::GitIgnored => ReasonView::GitIgnored,
            Reason::DefaultExclude(p) => ReasonView::DefaultExclude(p@),
            Reason::NotDirectory => ReasonView::NotDirectory,
            Reason::DoesNotExist => ReasonView::DoesNotExist,
            Reason::PermissionDenied => ReasonView::PermissionDenied,
            Reason::Other(m) => ReasonView::Other(m@),
        }
    }
}

impl Clone for Reason {
    fn clone(&self) -> (r: Self)
        ensures
            r == *self,
    {
        match self {
            Reason::ExcludePattern(p) => Reason::ExcludePattern(p.clone()),
            Reason::GitIgnored => Reason::GitIgnored,
            Reason::DefaultExclude(p) => Reason::DefaultExclude(p.clone()),
            Reason::NotDirectory => Reason::NotDirectory,
            Reason::DoesNotExist => Reason::DoesNotExist,
            Reason::PermissionDenied => Reason::PermissionDenied,
            Reason::Other(m) => Reason::Other(m.clone()),
        }
    }
}

/// The verdict cached for one path.
#[derive(Debug)]
pub struct Check {
    /// When the verdict was reached.
    pub timestamp: SystemTime,
    /// Whether the path contributes to the search path.
    pub valid: bool,
    /// Why it does not; present exactly when `valid` is false.
    pub invalid_reason: Option<Reason>,
}

impl Clone for Check {
    fn clone(&self) -> (r: Self)
        ensures
            r == *self,
    {
        Check {
            timestamp: self.timestamp,
            valid: self.valid,
            invalid_reason: match &self.invalid_reason {
                Some(reason) => Some(reason.clone()),
                None => None,
            },
        }
    }
}

/// What a `Check` says, apart from when it was reached.
pub struct CheckView {
    pub valid: bool,
    pub invalid_reason: Option<ReasonView>,
}

impl CheckView {
    /// The verdict on a path that contributes.
    pub open spec fn accepted() -> CheckView {
        CheckView { valid: true, invalid_reason: None }
    }

    /// The verdict on a path that is left out for `reason`.
    pub open spec fn rejected(reason: ReasonView) -> CheckView {
        CheckView { valid: false, invalid_reason: Some(reason) }
    }

    /// A verdict carries a reason exactly when it is negative.
    pub open spec fn wf(self) -> bool {
        self.valid <==> self.invalid_reason is None
    }
}

impl View for Check {
    type V = CheckView;

    open spec fn view(&self) -> CheckView {
        CheckView {
            valid: self.valid,
            invalid_reason: match self.invalid_reason {
                Some(r) => Some(r@),
                None => None,
            },
        }
    }
}

/// The patterns that every store starts with.
pub open spec fn default_patterns() -> Seq<Seq<char>> {
    seq![
        "temp"@,
        "tmp"@,
        "*review*"@,
        "archive"@,
        "backup"@,
        "node_modules"@,
        "target"@,
        ".git"@,
    ]
}

/// The default exclusion patterns, in their fixed order.
pub fn default() -> (r: Vec<String>)
    ensures
        strings(r@) == default_patterns(),
{
    let mut r: Vec<String> = Vec::new();
    r.push("temp".to_owned());
    r.push("tmp".to_owned());
    r.push("*review*".to_owned());
    r.push("archive".to_owned());
    r.push("backup".to_owned());
    r.push("node_modules".to_owned());
    r.push("target".to_owned());
    r.push(".git".to_owned());
    assert(strings(r@) =~= default_patterns());
    r
}

impl Check {
    /// A check is well-formed when it holds a reason exactly when it is
    /// negative.
    pub open spec fn wf(&self) -> bool {
        self@.wf()
    }

    /// A positive verdict, stamped with the current time.
    pub fn new_valid() -> (r: Self)
        ensures
            r@ == CheckView::accepted(),
            r.wf(),
    {
        Self { timestamp: now(), valid: true, invalid_reason: None }
    }

    /// A negative verdict for `reason`, stamped with the current time.
    pub fn new_invalid(reason: Reason) -> (r: Self)
        ensures
            r@ == CheckView::rejected(reason@),
            r.invalid_reason == Some(reason),
            r.wf(),
    {
        Self { timestamp: now(), valid: false, invalid_reason: Some(reason) }
    }
}

} // verus!
