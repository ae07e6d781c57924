//! Visibility helpers for world rendering.
use vstd::prelude::*;

verus! {

/// Whether cell `(x, y)` is marked visible in the row-major grid `vis` with `cols` columns.
pub fn is_visible(vis: &[bool], cols: usize, x: usize, y: usize) -> (r: bool)
    requires
        y * cols + x < vis@.len(),
    ensures
        r == vis@[y * cols + x],
{
    let n = vis.len();
    assert(y * cols + x < n);
    vis[y * cols + x]
}

} // verus!
