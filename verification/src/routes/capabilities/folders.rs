//! Opening folders and printing files on the machine the service runs on.

use vstd::prelude::*;
use vstd::string::*;
use crate::text::{contains_text, has_substring, text_equal};

verus! {

/// What to do with a folder.
#[derive(Clone, Copy, Debug, PartialEq, Eq, Structural)]
pub enum FolderAction {
    /// Open the folder.
    Open,
    /// Show the folder in the file manager.
    Reveal,
}

/// The action asked for by a mode: `"open"` or `"reveal"`; any other mode
/// is unknown.
pub fn folder_action(mode: &str) -> (r: Option<FolderAction>)
    ensures
        mode@ == "open"@ ==> r == Some(FolderAction::Open),
        mode@ == "reveal"@ ==> r == Some(FolderAction::Reveal),
        mode@ != "open"@ && mode@ != "reveal"@ ==> r is None,
{
    proof {
        reveal_strlit("open");
        reveal_strlit("reveal");
        assert("open"@.len() != "reveal"@.len());
    }
    if text_equal(mode, "open") {
        Some(FolderAction::Open)
    } else if text_equal(mode, "reveal") {
        Some(FolderAction::Reveal)
    } else {
        None
    }
}

/// How an attempt to open or reveal a folder went: done, failed with an
/// I/O error, or failed otherwise; a failure keeps the text of its error.
pub enum FolderOutcome {
    Done,
    IoFailure(String),
    OtherFailure(String),
}

/// The reply for an action on a folder: `"OK"` when it was done; when
/// opening failed with an I/O error, `"IO Error"`; otherwise the text of
/// the error.
pub open spec fn folder_reply_text(action: FolderAction, outcome: FolderOutcome) -> Seq<char> {
    match outcome {
        FolderOutcome::Done => "OK"@,
        FolderOutcome::IoFailure(e) => if action == FolderAction::Open {
            "IO Error"@
        } else {
            e@
        },
        FolderOutcome::OtherFailure(e) => e@,
    }
}

/// The reply for an action on a folder (see `folder_reply_text`).
pub fn folder_reply(action: FolderAction, outcome: FolderOutcome) -> (r: String)
    ensures
        r@ == folder_reply_text(action, outcome),
{
    match outcome {
        FolderOutcome::Done => String::from_str("OK"),
        FolderOutcome::IoFailure(e) => match action {
            FolderAction::Open => String::from_str("IO Error"),
            FolderAction::Reveal => e,
        },
        FolderOutcome::OtherFailure(e) => e,
    }
}

/// The reply for a mode that is neither `"open"` nor `"reveal"`.
pub fn unknown_mode_reply() -> (r: String)
    ensures
        r@ == "Unknown mode"@,
{
    String::from_str("Unknown mode")
}

/// The model of the office printer that files are printed on.
pub open spec fn office_printer_model() -> Seq<char> {
    "HP PageWide Color MFP E77650"@
}

/// The first printer whose name contains the office printer's model.
pub fn find_office_printer(names: &Vec<String>) -> (r: Option<usize>)
    ensures
        r matches Some(i) ==> (i < names@.len() && contains_text(names@[i as int]@, office_printer_model())
            && forall|j: int| 0 <= j < i ==> !contains_text(#[trigger] names@[j]@, office_printer_model())),
        r is None ==> forall|j: int|
            0 <= j < names@.len() ==> !contains_text(#[trigger] names@[j]@, office_printer_model()),
{
    let n = names.len();
    let mut i: usize = 0;
    while i < n
        invariant
            n == names@.len(),
            i <= n,
            forall|j: int| 0 <= j < i ==> !contains_text(#[trigger] names@[j]@, office_printer_model()),
        decreases n - i,
    {
        if has_substring(names[i].as_str(), "HP PageWide Color MFP E77650") {
            return Some(i);
        }
        i = i + 1;
    }
    None
}

} // verus!
