//! World-management core of a voxel renderer: a sparse grid of terrain
//! chunks, viewport-driven mesh caching with coarse-grained invalidation,
//! world-to-chunk coordinate localization that is exact for negative
//! coordinates, and a fixed-step voxel raymarch used for block picking.

use vstd::prelude::*;

pub mod block;
pub mod chunk;
pub mod coord_map;
pub mod noise_field;
pub mod ray;
pub mod world;

verus! {

/// Relies on std's Rc::clone: the returned handle shares the same
/// allocation as the argument, so it holds the same value.
#[verifier::external_body]
pub(crate) fn rc_clone<T>(rc: &std::rc::Rc<T>) -> (r: std::rc::Rc<T>)
    ensures
        r == *rc,
{
    std::rc::Rc::clone(rc)
}

} // verus!
