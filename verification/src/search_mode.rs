//! The search mode selector, parsed from and rendered to its stored form.

use vstd::prelude::*;
use vstd::string::StringExecFns;

use crate::text::{lower_of, to_lower};

verus! {

broadcast use vstd::string::group_string_axioms;

/// The two search modes.
#[derive(Clone, Debug, PartialEq, Eq, Structural)]
pub enum SearchMode {
    /// Plain, non-fuzzy search.
    Original,
    /// Fuzzy, incrementally cached search.
    Fluid,
}

impl SearchMode {
    /// Parse a mode name, case-insensitively; anything but the two known
    /// names is rejected, handing the input back as the error.
    pub fn from_str(s: &str) -> (r: Result<SearchMode, String>)
        ensures
            lower_of(s@) == "original"@ ==> r == Ok::<SearchMode, String>(SearchMode::Original),
            lower_of(s@) == "fluid"@ ==> r == Ok::<SearchMode, String>(SearchMode::Fluid),
            lower_of(s@) != "original"@ && lower_of(s@) != "fluid"@ ==> (r matches Err(e) && e@
                == s@),
    {
        proof {
            reveal_strlit("original");
            reveal_strlit("fluid");
            assert("original"@.len() == 8);
            assert("fluid"@.len() == 5);
            assert("original"@ != "fluid"@);
        }
        let lowered = to_lower(s);
        let orig_name = String::from_str("original");
        let fluid_name = String::from_str("fluid");
        if lowered == orig_name {
            proof {
                assert(lower_of(s@) == "original"@);
            }
            Ok(SearchMode::Original)
        } else if lowered == fluid_name {
            proof {
                assert(lower_of(s@) == "fluid"@);
            }
            Ok(SearchMode::Fluid)
        } else {
            Err(s.to_owned())
        }
    }

    /// The mode's stored name.
    pub fn as_str(&self) -> (r: &'static str)
        ensures
            *self == SearchMode::Original ==> r@ == "original"@,
            *self == SearchMode::Fluid ==> r@ == "fluid"@,
    {
        match self {
            SearchMode::Original => "original",
            SearchMode::Fluid => "fluid",
        }
    }
}

impl Default for SearchMode {
    /// Fluid search is the default mode.
    fn default() -> (r: Self)
        ensures
            r == SearchMode::Fluid,
    {
        SearchMode::Fluid
    }
}

} // verus!
