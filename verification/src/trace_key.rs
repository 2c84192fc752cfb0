//! The key under which drained execution traces are filed.

use vstd::prelude::*;

verus! {

/// Marker type used as the lookup key for drained execution traces in a
/// caller-provided keyed map.
pub struct GethTraceKey;

} // verus!
