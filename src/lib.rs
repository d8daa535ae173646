//! A content-addressed media library: digests and on-disk layout, the
//! metadata rows, preview geometry and probed facts, and the ranking of a
//! classifier's output. Every operation here is pure; callers perform the
//! file-system work that the results name.

use vstd::prelude::*;

pub mod classify;
pub mod digest;
pub mod layout;
pub mod library;
pub mod store;
pub mod thumbnail;
pub mod versions;

verus! {

} // verus!
