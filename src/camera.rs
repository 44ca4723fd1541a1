//! Orbit-camera parameters, read and written by an outside controller.
use vstd::prelude::*;
use crate::geometry::Point3;

verus! {

/// Fixed-point scale of scene coordinates: one unit of length.
pub const UNIT: u32 = 1_000_000;

/// Orbit radius of a new rig: five units.
pub const DEFAULT_ORBIT_RADIUS: u32 = 5 * UNIT;

/// Where an orbit camera looks, from how far, and whether its up vector is
/// inverted. The radius stays positive.
#[derive(Clone, Copy, Debug, PartialEq, Eq, Structural)]
pub struct CameraRig {
    pub focus: Point3,
    pub radius: u32,
    pub upside_down: bool,
}

impl CameraRig {
    pub open spec fn well_formed(&self) -> bool {
        self.radius > 0
    }
}

impl Default for CameraRig {
    /// Focus at the origin, the default radius, upright.
    fn default() -> (r: CameraRig)
        ensures
            r.focus == (Point3 { x: 0, y: 0, z: 0 }),
            r.radius == DEFAULT_ORBIT_RADIUS,
            !r.upside_down,
            r.well_formed(),
    {
        CameraRig { focus: Point3 { x: 0, y: 0, z: 0 }, radius: DEFAULT_ORBIT_RADIUS, upside_down: false }
    }
}

} // verus!
