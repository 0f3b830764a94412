//! Discovery of interpreter executables on a host, and the text that the
//! inventory and validation layers derive from what was found.

use vstd::prelude::*;

pub mod paths;
pub mod text_order;
pub mod exe_search;
pub mod site_customize;
pub mod scan_report;
pub mod spin;

verus! {

/// The texts of a vector of strings.
pub open spec fn texts(v: Seq<String>) -> Seq<Seq<char>> {
    v.map_values(|s: String| s@)
}

} // verus!
