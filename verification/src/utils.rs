//! Boundary predicates and startup region generation.

use crate::geom::COORD_LIMIT;
use crate::rng::rng_range;
use vstd::prelude::*;

verus! {

/// Radius of every generated spawn region.
pub const REGION_RADIUS: i64 = 60;

/// Whether a coordinate has reached the boundary at `borders`, comparing
/// magnitudes on both sides.
pub fn on_generic_borders(entity: i64, borders: i64) -> (r: bool)
    requires
        entity > i64::MIN,
        borders > i64::MIN,
    ensures
        r == (crate::geom::abs_i(entity as int) >= crate::geom::abs_i(borders as int)),
{
    let ea: i64 = if entity >= 0 {
        entity
    } else {
        -entity
    };
    let ba: i64 = if borders >= 0 {
        borders
    } else {
        -borders
    };
    ea >= ba
}

/// Whether a point has reached the arena boundary in either axis.
pub fn on_borders(entity: (i64, i64), borders: (i64, i64)) -> (r: bool)
    requires
        entity.0 > i64::MIN,
        entity.1 > i64::MIN,
        borders.0 > i64::MIN,
        borders.1 > i64::MIN,
    ensures
        r == (crate::geom::abs_i(entity.0 as int) >= crate::geom::abs_i(borders.0 as int)
            || crate::geom::abs_i(entity.1 as int) >= crate::geom::abs_i(borders.1 as int)),
{
    let (x, y) = entity;
    let (width, height) = borders;
    on_generic_borders(x, width) || on_generic_borders(y, height)
}

/// Generates `count` spawn regions of radius `REGION_RADIUS`, each center
/// sampled independently and uniformly within the rectangle inset from the
/// arena by that radius. No overlap between regions is enforced.
pub fn generate_regions(
    rng: &mut rand::rngs::StdRng,
    half_width: i64,
    half_height: i64,
    count: usize,
) -> (regions: Vec<(i64, i64, i64)>)
    requires
        REGION_RADIUS <= half_width <= COORD_LIMIT,
        REGION_RADIUS <= half_height <= COORD_LIMIT,
    ensures
        regions@.len() == count,
        forall|i: int|
            0 <= i < count ==> {
                let r = #[trigger] regions@[i];
                r.2 == REGION_RADIUS && -(half_width - REGION_RADIUS) <= r.0 <= half_width
                    - REGION_RADIUS && -(half_height - REGION_RADIUS) <= r.1 <= half_height
                    - REGION_RADIUS
            },
{
    let mut regions: Vec<(i64, i64, i64)> = Vec::new();
    let width = half_width - REGION_RADIUS;
    let height = half_height - REGION_RADIUS;
    while regions.len() < count
        invariant
            regions@.len() <= count,
            0 <= width <= COORD_LIMIT,
            0 <= height <= COORD_LIMIT,
            forall|i: int|
                0 <= i < regions@.len() ==> {
                    let r = #[trigger] regions@[i];
                    r.2 == REGION_RADIUS && -width <= r.0 <= width && -height <= r.1 <= height
                },
        decreases count - regions.len(),
    {
        let x = rng_range(rng, -width, width);
        let y = rng_range(rng, -height, height);
        regions.push((x, y, REGION_RADIUS));
    }
    regions
}

} // verus!
