//! Axis-aligned bounding boxes, offset from an entity's logical position.

use vstd::prelude::*;
use crate::math::sat_add;
use crate::math::spec_sat_add;
use crate::settings::SIZE_LIMIT;
use crate::vectors::MilliVec3;

verus! {

/// An axis-aligned bounding box: three non-negative extents in milliblocks,
/// plus the point inside the box where the owning entity's logical position
/// sits ((0, 0, 0) being the bottom corner). The corner offsets are derived
/// once and reused by every query.
#[derive(Copy, Clone, Debug)]
pub struct AABB {
    x_sz: i64,
    y_sz: i64,
    z_sz: i64,
    origin: MilliVec3,
    min_off: MilliVec3,
    max_off: MilliVec3,
}

impl AABB {
    /// The box extents.
    pub closed spec fn spec_sizes(&self) -> MilliVec3 {
        MilliVec3 { x: self.x_sz, y: self.y_sz, z: self.z_sz }
    }

    /// Where the owner's logical position sits inside the box.
    pub closed spec fn spec_origin(&self) -> MilliVec3 {
        self.origin
    }

    /// Offset from the position to the box's minimum corner.
    pub closed spec fn spec_min_off(&self) -> MilliVec3 {
        self.min_off
    }

    /// Offset from the position to the box's maximum corner.
    pub closed spec fn spec_max_off(&self) -> MilliVec3 {
        self.max_off
    }

    /// A well-formed box: the origin lies inside the extents and the corner
    /// offsets derive from them.
    pub open spec fn wf(&self) -> bool {
        &&& self.spec_sizes().x <= SIZE_LIMIT
        &&& self.spec_sizes().y <= SIZE_LIMIT
        &&& self.spec_sizes().z <= SIZE_LIMIT
        &&& 0 <= self.spec_origin().x <= self.spec_sizes().x
        &&& 0 <= self.spec_origin().y <= self.spec_sizes().y
        &&& 0 <= self.spec_origin().z <= self.spec_sizes().z
        &&& self.spec_min_off() == (MilliVec3 {
            x: (-self.spec_origin().x) as i64,
            y: (-self.spec_origin().y) as i64,
            z: (-self.spec_origin().z) as i64,
        })
        &&& self.spec_max_off() == (MilliVec3 {
            x: (self.spec_sizes().x - self.spec_origin().x) as i64,
            y: (self.spec_sizes().y - self.spec_origin().y) as i64,
            z: (self.spec_sizes().z - self.spec_origin().z) as i64,
        })
    }

    /// Creates a new box with the given extents and origin point. Returns
    /// `None` exactly when the origin lies outside the extents, which also
    /// rejects negative extents.
    pub fn new(x_sz: i64, y_sz: i64, z_sz: i64, origin: MilliVec3) -> (r: Option<AABB>)
        requires
            x_sz <= SIZE_LIMIT,
            y_sz <= SIZE_LIMIT,
            z_sz <= SIZE_LIMIT,
        ensures
            r is Some <==> (0 <= origin.x <= x_sz && 0 <= origin.y <= y_sz
                && 0 <= origin.z <= z_sz),
            r is Some ==> {
                let b = r->0;
                b.wf() && b.spec_sizes() == (MilliVec3 { x: x_sz, y: y_sz, z: z_sz })
                    && b.spec_origin() == origin
            },
    {
        if origin.x < 0 || origin.y < 0 || origin.z < 0
            || origin.x > x_sz || origin.y > y_sz || origin.z > z_sz {
            None
        } else {
            let min_off = MilliVec3 { x: -origin.x, y: -origin.y, z: -origin.z };
            let max_off = MilliVec3 {
                x: x_sz - origin.x,
                y: y_sz - origin.y,
                z: z_sz - origin.z,
            };
            Some(AABB { x_sz, y_sz, z_sz, origin, min_off, max_off })
        }
    }

    /// Computes the bounds (opposite corners) of the bounding box at the
    /// given entity position, saturating at the coordinate range.
    pub fn get_bounds(&self, position: MilliVec3) -> (r: (MilliVec3, MilliVec3))
        ensures
            r.0.x == spec_sat_add(position.x as int, self.spec_min_off().x as int),
            r.0.y == spec_sat_add(position.y as int, self.spec_min_off().y as int),
            r.0.z == spec_sat_add(position.z as int, self.spec_min_off().z as int),
            r.1.x == spec_sat_add(position.x as int, self.spec_max_off().x as int),
            r.1.y == spec_sat_add(position.y as int, self.spec_max_off().y as int),
            r.1.z == spec_sat_add(position.z as int, self.spec_max_off().z as int),
    {
        (
            MilliVec3 {
                x: sat_add(position.x, self.min_off.x),
                y: sat_add(position.y, self.min_off.y),
                z: sat_add(position.z, self.min_off.z),
            },
            MilliVec3 {
                x: sat_add(position.x, self.max_off.x),
                y: sat_add(position.y, self.max_off.y),
                z: sat_add(position.z, self.max_off.z),
            },
        )
    }
}

} // verus!
