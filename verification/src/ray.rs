//! Rays and the radiance they carry.

use vstd::prelude::*;
use vstd::arithmetic::div_mod::lemma_div_by_multiple;
use crate::fx::{SCALE, HALF, fxm, mag, lemma_fxm_zero, lemma_fxm_whole, lemma_fxm_unit, lemma_fxm_bound, fx_mul};
use crate::vector::{Vec3, V3, v3, add_v, mul_v, scale_v, normalise_v, zero_v, bounded_v, OPB, ADDB};
use crate::material::{colour01, Reflection};
use crate::object::{Scene, GeomHit, Hit, scene_ok, scene_geom, hit_matches, ray_ok, RMAX, DMAX, TMAX};

verus! {

/// A half-line: origin plus scaled direction.
#[derive(Clone, Copy, Debug, PartialEq, Eq, Structural)]
pub struct Ray {
    pub origin: Vec3,
    pub direction: Vec3,
}

/// The point at parameter `t` along a ray with the given origin and
/// direction.
pub open spec fn at_v(origin: V3, direction: V3, t: int) -> V3 {
    add_v(origin, scale_v(t, direction))
}

impl Ray {
    /// Builds a ray from its origin and direction.
    pub fn new(origin: Vec3, direction: Vec3) -> (r: Ray)
        ensures
            r.origin == origin,
            r.direction == direction,
    {
        Ray { origin, direction }
    }

    /// Returns the point at distance `t` along the ray.
    pub fn at(&self, t: i64) -> (r: Vec3)
        requires
            bounded_v(v3(self.origin), ADDB as int),
            bounded_v(v3(self.direction), OPB as int),
            mag(t as int) <= OPB as int,
        ensures
            v3(r) == at_v(v3(self.origin), v3(self.direction), t as int),
    {
        proof {
            crate::fx::lemma_fxm_bound(t as int, self.direction.x as int, OPB as int, OPB as int);
            crate::fx::lemma_fxm_bound(t as int, self.direction.y as int, OPB as int, OPB as int);
            crate::fx::lemma_fxm_bound(t as int, self.direction.z as int, OPB as int, OPB as int);
        }
        self.origin.add(&self.direction.scale(t))
    }
}

/// A ray starts at its origin: the point at parameter zero is the origin.
pub proof fn lemma_at_zero(origin: V3, direction: V3)
    ensures
        at_v(origin, direction, 0) == origin,
{
    lemma_fxm_zero(direction.x);
    lemma_fxm_zero(direction.y);
    lemma_fxm_zero(direction.z);
}

/// The point along a ray is affine in the parameter: at a whole parameter
/// `k` (in raw form `k * SCALE`) it is the origin displaced by exactly `k`
/// times the direction, with no rounding.
pub proof fn lemma_at_affine(origin: V3, direction: V3, k: int)
    ensures
        at_v(origin, direction, k * 65536) == (V3 {
            x: origin.x + k * direction.x,
            y: origin.y + k * direction.y,
            z: origin.z + k * direction.z,
        }),
{
    lemma_fxm_whole(k, direction.x);
    lemma_fxm_whole(k, direction.y);
    lemma_fxm_whole(k, direction.z);
}

/// The sky: a vertical blend from white at the horizon toward sky blue,
/// driven by the normalised direction's height.  The blend parameter is
/// clamped to the unit interval; exact normalisation keeps it there anyway.
pub open spec fn background_v(ray: Ray) -> V3 {
    let u = normalise_v(v3(ray.direction));
    let t0 = fxm(32768, 65536 + u.y);
    let t = if t0 < 0 {
        0
    } else if t0 > 65536 {
        65536
    } else {
        t0
    };
    V3 {
        x: fxm(65536 - t, 65536) + fxm(t, 32768),
        y: fxm(65536 - t, 65536) + fxm(t, 45875),
        z: fxm(65536 - t, 65536) + fxm(t, 65536),
    }
}

/// The background gradient a missing ray picks up.
pub fn background(ray: &Ray) -> (r: Vec3)
    requires
        ray_ok(*ray),
    ensures
        v3(r) == background_v(*ray),
        colour01(v3(r)),
{
    let unit = ray.direction.normalise();
    proof {
        lemma_fxm_bound(32768, (65536 + unit.y) as int, 32768, 196608);
    }
    let t0 = fx_mul(HALF, SCALE + unit.y);
    let t = if t0 < 0 {
        0
    } else if t0 > SCALE {
        SCALE
    } else {
        t0
    };
    proof {
        lemma_fxm_unit((65536 - t) as int);
        lemma_fxm_bound(t as int, 32768, t as int, 65536);
        lemma_fxm_bound(t as int, 45875, t as int, 65536);
        lemma_fxm_bound(t as int, 65536, t as int, 65536);
        lemma_div_by_multiple(t as int, 65536);
    }
    let w = fx_mul(SCALE - t, SCALE);
    Vec3 {
        x: w + fx_mul(t, HALF),
        y: w + fx_mul(t, 45875),
        z: w + fx_mul(t, SCALE),
    }
}

/// What a hit's contribution may be: for some admissible hit record of
/// the reported geometry, either the scatter was absorbed or left the
/// tracer's coordinate range and the contribution is black, or the result
/// is the scatter's attenuation componentwise times a plausible radiance
/// of the scattered ray.
pub open spec fn hit_radiance_ok(g: GeomHit, ray: Ray, r: Vec3) -> bool {
    exists|h: Hit|
        #[trigger] hit_matches(g, ray, 1, TMAX as int, h) && match h.reflection {
            Option::Some(refl) => if ray_ok(refl.reflected_ray) {
                exists|rec: Vec3|
                    colour01(v3(rec)) && v3(r) == mul_v(v3(refl.attenuation), v3(rec))
            } else {
                v3(r) == zero_v()
            },
            Option::None => v3(r) == zero_v(),
        }
}

/// Everything the radiance of a ray guarantees: a colour in the unit
/// cube; black once the bounce budget is spent; the exact background
/// gradient when every sphere is missed; and on a hit, black only for an
/// absorbed or out-of-range scatter, else an admissible attenuation times
/// a plausible radiance of the scattered ray.
pub open spec fn radiance_ok(scene: Scene, ray: Ray, depth: u8, r: Vec3) -> bool {
    colour01(v3(r)) && (depth == 0 ==> v3(r) == zero_v()) && (depth > 0
        ==> match scene_geom(scene.objects@, ray, 1, TMAX as int) {
        Option::Some(g) => hit_radiance_ok(g, ray, r),
        Option::None => v3(r) == background_v(ray),
    })
}

/// The radiance carried back along a ray: black once the bounce budget is
/// spent or the ray is absorbed, the background gradient when the scene is
/// missed, and otherwise the scatter attenuation times the radiance of the
/// scattered ray.  A scattered ray outside the tracer's coordinate range
/// is treated as absorbed.
pub fn colour(scene: &Scene, ray: &Ray, depth: u8) -> (r: Vec3)
    requires
        scene_ok(*scene),
        ray_ok(*ray),
    ensures
        radiance_ok(*scene, *ray, depth, r),
    decreases depth,
{
    if depth == 0 {
        return Vec3 { x: 0, y: 0, z: 0 };
    }
    match scene.hit(ray, (1, TMAX)) {
        Option::Some(h) => match h.reflection {
            Option::Some(reflection) => {
                let nray = reflection.reflected_ray;
                if -RMAX <= nray.origin.x && nray.origin.x <= RMAX && -RMAX <= nray.origin.y
                    && nray.origin.y <= RMAX && -RMAX <= nray.origin.z && nray.origin.z <= RMAX
                    && -DMAX <= nray.direction.x && nray.direction.x <= DMAX
                    && -DMAX <= nray.direction.y && nray.direction.y <= DMAX
                    && -DMAX <= nray.direction.z && nray.direction.z <= DMAX {
                    let rec = colour(scene, &nray, depth - 1);
                    let attenuation = reflection.attenuation;
                    proof {
                        lemma_fxm_bound(attenuation.x as int, rec.x as int, 65536, 65536);
                        lemma_fxm_bound(attenuation.y as int, rec.y as int, 65536, 65536);
                        lemma_fxm_bound(attenuation.z as int, rec.z as int, 65536, 65536);
                    }
                    let res = attenuation.mul(&rec);
                    proof {
                        assert(hit_matches(
                            scene_geom(scene.objects@, *ray, 1, TMAX as int).unwrap(),
                            *ray,
                            1,
                            TMAX as int,
                            h,
                        ));
                        assert(colour01(v3(rec)) && v3(res) == mul_v(
                            v3(reflection.attenuation),
                            v3(rec),
                        ));
                    }
                    res
                } else {
                    let res = Vec3 { x: 0, y: 0, z: 0 };
                    proof {
                        assert(!ray_ok(reflection.reflected_ray));
                        assert(hit_matches(
                            scene_geom(scene.objects@, *ray, 1, TMAX as int).unwrap(),
                            *ray,
                            1,
                            TMAX as int,
                            h,
                        ));
                    }
                    res
                }
            },
            Option::None => {
                let res = Vec3 { x: 0, y: 0, z: 0 };
                proof {
                    assert(hit_matches(
                        scene_geom(scene.objects@, *ray, 1, TMAX as int).unwrap(),
                        *ray,
                        1,
                        TMAX as int,
                        h,
                    ));
                }
                res
            },
        },
        Option::None => background(ray),
    }
}

} // verus!
