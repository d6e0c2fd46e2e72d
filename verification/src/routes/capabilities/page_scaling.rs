//! The page scaling option of a print ticket.

use vstd::prelude::*;
use crate::text::text_equal;

verus! {

/// Represents a predefined page scaling option.
#[derive(Debug, PartialEq, Eq, Structural, Hash, Clone, Copy)]
pub enum PredefinedPageScaling {
    /// Specifies the page scaling should not be specified (the keyword `None`).
    NotSpecified,
    /// Specifies the page scaling should fit the paper size.
    Fit,
    /// Specifies the page scaling should fill the paper size.
    Fill,
}

/// The namespace of the printing keywords that name the scaling options.
pub open spec fn ipp_namespace() -> Seq<char> {
    "http://schemas.microsoft.com/windows/2018/04/printing/printschemakeywords/Ipp"@
}

impl PredefinedPageScaling {
    /// Get the predefined page scaling from a qualified name: its namespace
    /// (if any) and its local name.
    pub fn from_name(namespace: Option<&str>, local_name: &str) -> (r: Option<Self>)
        ensures
            !(namespace matches Some(ns) && ns@ == ipp_namespace()) ==> r is None,
            (namespace matches Some(ns) && ns@ == ipp_namespace()) ==> r == if local_name@ == "None"@ {
                Some(PredefinedPageScaling::NotSpecified)
            } else if local_name@ == "Fit"@ {
                Some(PredefinedPageScaling::Fit)
            } else if local_name@ == "Fill"@ {
                Some(PredefinedPageScaling::Fill)
            } else {
                None
            },
    {
        match namespace {
            Some(ns) => {
                if text_equal(
                    ns,
                    "http://schemas.microsoft.com/windows/2018/04/printing/printschemakeywords/Ipp",
                ) {
                    if text_equal(local_name, "None") {
                        Some(PredefinedPageScaling::NotSpecified)
                    } else if text_equal(local_name, "Fit") {
                        Some(PredefinedPageScaling::Fit)
                    } else if text_equal(local_name, "Fill") {
                        Some(PredefinedPageScaling::Fill)
                    } else {
                        None
                    }
                } else {
                    None
                }
            },
            None => None,
        }
    }
}

} // verus!
