//! The leaves API's range query: a half-open `[start, end)` with optional
//! bounds that default to `0` and `u32::MAX`. A range with `start >= end` is
//! empty.

use vstd::prelude::*;
use crate::bytes::clone_bytes;
use crate::merkle::views;
use crate::store::{ResourceId, Store};

verus! {

/// A (half-open) range bounded inclusively below and exclusively above
/// (`start..end`). The range contains all values with `start <= x < end`; it
/// is empty if `start >= end`.
#[derive(Clone, Copy, Debug)]
pub struct OptionalRangeQuery {
    /// The lower bound of the range (inclusive); zero when absent.
    pub start: Option<u32>,
    /// The upper bound of the range (exclusive); `u32::MAX` when absent.
    pub end: Option<u32>,
}

/// The default lower bound.
pub fn default_zero() -> (r: Option<u32>)
    ensures
        r == Some(0u32),
{
    Some(0)
}

/// The default upper bound.
pub fn default_u32_max() -> (r: Option<u32>)
    ensures
        r == Some(u32::MAX),
{
    Some(u32::MAX)
}

impl Default for OptionalRangeQuery {
    /// The full range: every index from zero up.
    fn default() -> (r: Self)
        ensures
            r.start == Some(0u32),
            r.end == Some(u32::MAX),
    {
        OptionalRangeQuery { start: default_zero(), end: default_u32_max() }
    }
}

/// The effective lower bound.
pub open spec fn start_spec(q: OptionalRangeQuery) -> u32 {
    match q.start {
        Some(s) => s,
        None => 0,
    }
}

/// The effective upper bound.
pub open spec fn end_spec(q: OptionalRangeQuery) -> u32 {
    match q.end {
        Some(e) => e,
        None => u32::MAX,
    }
}

/// The concrete `start..end` range a query stands for.
pub fn resolve_range(q: OptionalRangeQuery) -> (r: (u32, u32))
    ensures
        r.0 == start_spec(q),
        r.1 == end_spec(q),
{
    let start = match q.start {
        Some(s) => s,
        None => 0,
    };
    let end = match q.end {
        Some(e) => e,
        None => u32::MAX,
    };
    (start, end)
}

impl vstd::std_specs::convert::FromSpecImpl<OptionalRangeQuery> for core::ops::Range<u32> {
    open spec fn obeys_from_spec() -> bool {
        true
    }

    open spec fn from_spec(range: OptionalRangeQuery) -> Self {
        core::ops::Range { start: start_spec(range), end: end_spec(range) }
    }
}

impl From<OptionalRangeQuery> for core::ops::Range<u32> {
    /// The query as a std range, bounds defaulted.
    fn from(range: OptionalRangeQuery) -> (r: core::ops::Range<u32>)
        ensures
            r.start == start_spec(range),
            r.end == end_spec(range),
    {
        let (start, end) = resolve_range(range);
        start..end
    }
}

/// The leaves of a resource whose indices fall in the half-open window
/// `[start, end)`, in index order. A window with `start >= end` yields
/// nothing, whatever the store holds.
pub fn leaves_in_range(store: &Store, rid: &ResourceId, q: OptionalRangeQuery) -> (r: Vec<Vec<u8>>)
    requires
        store.wf(),
    ensures
        ({
            let s = start_spec(q) as int;
            let e = end_spec(q) as int;
            let ls = store.leaves_of(*rid);
            let lo = if s <= ls.len() {
                s
            } else {
                ls.len() as int
            };
            let hi = if e <= ls.len() {
                e
            } else {
                ls.len() as int
            };
            if s >= e {
                r@.len() == 0
            } else {
                views(r@) == ls.subrange(lo, hi)
            }
        }),
{
    let (start, end) = resolve_range(q);
    if start >= end {
        return Vec::new();
    }
    let leaves = store.get_leaves(rid);
    let n = leaves.len();
    let lo: usize = if (start as usize) <= n {
        start as usize
    } else {
        n
    };
    let hi: usize = if (end as usize) <= n {
        end as usize
    } else {
        n
    };
    let mut out: Vec<Vec<u8>> = Vec::new();
    let mut i: usize = lo;
    while i < hi
        invariant
            lo <= i <= hi <= leaves@.len(),
            out@.len() == i - lo,
            forall|k: int| 0 <= k < out@.len() ==> (#[trigger] out@[k])@ == leaves@[lo + k]@,
        decreases hi - i,
    {
        out.push(clone_bytes(&leaves[i]));
        i = i + 1;
    }
    proof {
        assert(views(out@) =~= store.leaves_of(*rid).subrange(lo as int, hi as int));
    }
    out
}

} // verus!
