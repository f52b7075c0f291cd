//! The pages of the dashboard.

use crate::order::compare_names;
use crate::order::Placement;
use std::str::FromStr;
use vstd::prelude::*;

verus! {

/// A page of the dashboard, in the order of the tabs.
#[derive(Clone, Copy, Debug, PartialEq, Eq, Structural)]
pub enum Pages {
    Overview,
    Memory,
    Processes,
    Services,
}

/// What is left of a text when the whitespace at its start and at its end
/// is taken away, as the standard library's `str::trim` does it.
pub uninterp spec fn trimmed(text: Seq<char>) -> Seq<char>;

/// The standard library's `str::trim`: the part of `text` without leading
/// and trailing whitespace. The contract gives the result its name,
/// `trimmed`, and claims nothing else of it.
#[verifier::external_body]
fn trim(text: &str) -> (inner: &str)
    ensures
        inner@ == trimmed(text@),
{
    text.trim()
}

/// The page with the given name. The names are those of the tabs, written
/// exactly.
pub open spec fn page_named(name: Seq<char>) -> Option<Pages> {
    if name == "Overview"@ {
        Some(Pages::Overview)
    } else if name == "Memory"@ {
        Some(Pages::Memory)
    } else if name == "Processes"@ {
        Some(Pages::Processes)
    } else if name == "Services"@ {
        Some(Pages::Services)
    } else {
        None
    }
}

/// The page that a text of the command line stands for: the page named by
/// the text without the whitespace around it.
pub open spec fn page_parsed(text: Seq<char>) -> Option<Pages> {
    page_named(trimmed(text))
}

impl Pages {
    /// The position of the page's tab.
    pub open spec fn tab(self) -> usize {
        match self {
            Pages::Overview => 0,
            Pages::Memory => 1,
            Pages::Processes => 2,
            Pages::Services => 3,
        }
    }

    /// The position of the page's tab.
    pub fn index(self) -> (index: usize)
        ensures
            index == self.tab(),
    {
        match self {
            Pages::Overview => 0,
            Pages::Memory => 1,
            Pages::Processes => 2,
            Pages::Services => 3,
        }
    }

    /// The page with exactly the given name, if there is one.
    pub fn from_name(name: &str) -> (page: Option<Pages>)
        ensures
            page == page_named(name@),
    {
        if compare_names(name, "Overview") == Placement::Same {
            Some(Pages::Overview)
        } else if compare_names(name, "Memory") == Placement::Same {
            Some(Pages::Memory)
        } else if compare_names(name, "Processes") == Placement::Same {
            Some(Pages::Processes)
        } else if compare_names(name, "Services") == Placement::Same {
            Some(Pages::Services)
        } else {
            None
        }
    }

    /// Reads a page from a text of the command line: whitespace around the
    /// name is ignored, and a text that names no page is refused with a
    /// message.
    pub fn parse(text: &str) -> (page: Result<Pages, String>)
        ensures
            match page {
                Ok(p) => page_parsed(text@) == Some(p),
                Err(message) => page_parsed(text@) is None && message@
                    == "Could not parse page type!"@,
            },
    {
        match Pages::from_name(trim(text)) {
            Some(page) => Ok(page),
            None => Err("Could not parse page type!".to_owned()),
        }
    }
}

impl FromStr for Pages {
    type Err = String;
    /// The page named by `s` without the whitespace around it, or the message.
    fn from_str(s: &str) -> (page: Result<Self, String>)
        ensures
            match page {
                Ok(p) => page_parsed(s@) == Some(p),
                Err(message) => page_parsed(s@) is None && message@
                    == "Could not parse page type!"@,
            },
    {
        Pages::parse(s)
    }
}

} // verus!
