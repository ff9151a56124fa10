//! Points of the cube grid and the 24 rigid rotations that map it onto itself.

use vstd::prelude::*;

verus! {

/// A point of Cartesian space with integer coordinates (possibly negative).
#[derive(Clone, Copy, Debug, PartialEq, Eq, Structural)]
pub struct Point {
    pub x: i32,
    pub y: i32,
    pub z: i32,
}

/// The mathematical value of a point.
pub type IPoint = (int, int, int);

impl Point {
    pub open spec fn view(self) -> IPoint {
        (self.x as int, self.y as int, self.z as int)
    }
}

/// Planar rotation about the z axis by `r` quarter turns.
pub open spec fn spec_rotate_xy(x: int, y: int, r: int) -> (int, int) {
    if r == 0 {
        (x, y)
    } else if r == 1 {
        (y, -x)
    } else if r == 2 {
        (-x, -y)
    } else {
        (-y, x)
    }
}

/// One of the six axis-permuting rotations.
pub open spec fn spec_rotate_z(x: int, y: int, z: int, r: int) -> IPoint {
    if r == 0 {
        (x, y, z)
    } else if r == 1 {
        (x, z, -y)
    } else if r == 2 {
        (x, -y, -z)
    } else if r == 3 {
        (x, -z, y)
    } else if r == 4 {
        (-z, y, x)
    } else {
        (z, y, -x)
    }
}

pub open spec fn valid_xy_rot(r: int) -> bool {
    0 <= r < 4
}

pub open spec fn valid_z_rot(r: int) -> bool {
    0 <= r < 6
}

/// The orientation selected by a planar index `xr` and a spatial index `zr`:
/// the planar rotation is applied first, then the spatial one.
pub open spec fn orient(p: IPoint, xr: int, zr: int) -> IPoint {
    let q = spec_rotate_xy(p.0, p.1, xr);
    spec_rotate_z(q.0, q.1, p.2, zr)
}

/// Rotates `(x, y)` about the z axis by `rotnum` quarter turns.
pub fn rotate_xy(x: i32, y: i32, rotnum: i32) -> (r: (i32, i32))
    requires
        valid_xy_rot(rotnum as int),
        x > i32::MIN,
        y > i32::MIN,
    ensures
        (r.0 as int, r.1 as int) == spec_rotate_xy(x as int, y as int, rotnum as int),
{
    if rotnum == 0 {
        (x, y)
    } else if rotnum == 1 {
        (y, -x)
    } else if rotnum == 2 {
        (-x, -y)
    } else {
        (-y, x)
    }
}

/// Applies the spatial rotation with index `rotnum` to `(x, y, z)`.
pub fn rotate_z(x: i32, y: i32, z: i32, rotnum: i32) -> (r: (i32, i32, i32))
    requires
        valid_z_rot(rotnum as int),
        x > i32::MIN,
        y > i32::MIN,
        z > i32::MIN,
    ensures
        (r.0 as int, r.1 as int, r.2 as int) == spec_rotate_z(
            x as int,
            y as int,
            z as int,
            rotnum as int,
        ),
{
    if rotnum == 0 {
        (x, y, z)
    } else if rotnum == 1 {
        (x, z, -y)
    } else if rotnum == 2 {
        (x, -y, -z)
    } else if rotnum == 3 {
        (x, -z, y)
    } else if rotnum == 4 {
        (-z, y, x)
    } else {
        (z, y, -x)
    }
}

/// Each planar rotation is a bijection of the plane: turning by `r` and then
/// by the remaining quarter turns gives the point back.
pub proof fn lemma_rotate_xy_bijective(x: int, y: int, r: int)
    requires
        valid_xy_rot(r),
    ensures
        ({
            let q = spec_rotate_xy(x, y, r);
            spec_rotate_xy(q.0, q.1, (4 - r) % 4) == (x, y)
        }),
        forall|x2: int, y2: int|
            spec_rotate_xy(x2, y2, r) == spec_rotate_xy(x, y, r) ==> x2 == x && y2 == y,
{
}

/// The four planar rotations of a point other than the origin are four
/// distinct points.
pub proof fn lemma_rotate_xy_no_fixed_points(x: int, y: int, r1: int, r2: int)
    requires
        valid_xy_rot(r1),
        valid_xy_rot(r2),
        r1 != r2,
        x != 0 || y != 0,
    ensures
        spec_rotate_xy(x, y, r1) != spec_rotate_xy(x, y, r2),
{
}

/// Each spatial rotation is a bijection of space.
pub proof fn lemma_rotate_z_bijective(x: int, y: int, z: int, r: int)
    requires
        valid_z_rot(r),
    ensures
        forall|x2: int, y2: int, z2: int|
            spec_rotate_z(x2, y2, z2, r) == spec_rotate_z(x, y, z, r) ==> x2 == x && y2 == y && z2
                == z,
{
}

/// Planar index 0 composed with spatial index 0 is the identity.
pub proof fn lemma_orient_identity(p: IPoint)
    ensures
        orient(p, 0, 0) == p,
{
}

/// Every one of the 24 orientations is a bijection of space.
pub proof fn lemma_orient_bijective(p: IPoint, q: IPoint, xr: int, zr: int)
    requires
        valid_xy_rot(xr),
        valid_z_rot(zr),
        orient(p, xr, zr) == orient(q, xr, zr),
    ensures
        p == q,
{
}

/// The 24 index pairs give 24 different rotations: they already send the
/// point (1, 2, 3) to 24 different places.
pub proof fn lemma_orientations_distinct(xr1: int, zr1: int, xr2: int, zr2: int)
    requires
        valid_xy_rot(xr1),
        valid_z_rot(zr1),
        valid_xy_rot(xr2),
        valid_z_rot(zr2),
        orient((1, 2, 3), xr1, zr1) == orient((1, 2, 3), xr2, zr2),
    ensures
        xr1 == xr2,
        zr1 == zr2,
{
}

} // verus!
