//! The thin-lens camera.
//!
//! Built once from the view parameters; `get_ray` maps normalised image
//! coordinates to a primary ray, jittering the origin over the lens disk
//! to simulate depth of field.

use vstd::prelude::*;
use crate::fx::{SCALE, HALF, fxm, lemma_fxm_bound, lemma_fxm_zero, fx_mul};
use crate::vector::{Vec3, V3, v3, add_v, sub_v, scale_v, cross_v, normalise_v, zero_v, len_v, bounded_v};
use crate::ray::Ray;
use crate::object::ray_ok;
use crate::rng::rand_sym;

verus! {

/// A camera whose precomputed frame keeps every primary ray within the
/// tracer's coordinate range.
pub open spec fn camera_ok(c: Camera) -> bool {
    bounded_v(v3(c.origin), 0x3C0_0000)
    && bounded_v(v3(c.top_left), 0x470_0000)
    && bounded_v(sub_v(v3(c.top_left), v3(c.origin)), 0xB0_0000)
    && bounded_v(v3(c.horizontal), 0x60_0000)
    && bounded_v(v3(c.vertical), 0xC0_0000)
    && bounded_v(v3(c.u), 131072)
    && bounded_v(v3(c.v), 0x8_0000)
    && 0 <= c.lens_radius <= 65536
}

/// The mathematical model of a camera frame.
pub ghost struct CameraV {
    pub origin: V3,
    pub top_left: V3,
    pub horizontal: V3,
    pub vertical: V3,
    pub u: V3,
    pub v: V3,
    pub lens_radius: int,
}

/// The frame that the view parameters construct: orthonormal-ish basis,
/// focus-scaled viewport extents, top-left corner and lens radius.
#[verifier::opaque]
pub open spec fn camera_frame(
    look_from: Vec3,
    look_at: Vec3,
    vup: Vec3,
    tan_half_fov: int,
    aspect_ratio: int,
    aperture_width: int,
    focus_distance: int,
) -> CameraV {
    let vh = 2 * tan_half_fov;
    let vw = fxm(aspect_ratio, vh);
    let w = normalise_v(sub_v(v3(look_from), v3(look_at)));
    let u = normalise_v(cross_v(v3(vup), w));
    let v = cross_v(w, u);
    let horizontal = scale_v(focus_distance, scale_v(vw, u));
    let vertical = scale_v(focus_distance, scale_v(-vh, v));
    let top_left = sub_v(
        sub_v(sub_v(v3(look_from), scale_v(32768, horizontal)), scale_v(32768, vertical)),
        scale_v(focus_distance, w),
    );
    CameraV {
        origin: v3(look_from),
        top_left,
        horizontal,
        vertical,
        u,
        v,
        lens_radius: fxm(32768, aperture_width),
    }
}

/// The concrete camera carries exactly the frame `g`.
pub open spec fn camera_is(c: Camera, g: CameraV) -> bool {
    v3(c.origin) == g.origin && v3(c.top_left) == g.top_left && v3(c.horizontal) == g.horizontal
        && v3(c.vertical) == g.vertical && v3(c.u) == g.u && v3(c.v) == g.v && c.lens_radius as int
        == g.lens_radius
}

/// The origin of a primary ray for a lens-disk sample `s`: the camera
/// origin offset along the frame's `u` and `v` by the scaled sample.
#[verifier::opaque]
pub open spec fn cam_ray_origin(c: Camera, s: V3) -> V3 {
    let rs = scale_v(c.lens_radius as int, s);
    add_v(add_v(v3(c.origin), scale_v(rs.x, v3(c.u))), scale_v(rs.y, v3(c.v)))
}

/// The viewport point that image coordinates `(i, j)` name.
#[verifier::opaque]
pub open spec fn cam_px(c: Camera, i: int, j: int) -> V3 {
    add_v(add_v(v3(c.top_left), scale_v(i, v3(c.horizontal))), scale_v(j, v3(c.vertical)))
}

/// `ray` is an admissible primary ray of the camera for image coordinates
/// `(i, j)`: within the tracer's range, from a lens-disk-offset origin
/// toward the viewport point that `(i, j)` names.
pub open spec fn primary_ray_ok(c: Camera, i: int, j: int, ray: Ray) -> bool {
    ray_ok(ray) && exists|s: V3|
        bounded_v(s, 131072) && v3(ray.origin) == cam_ray_origin(c, s) && v3(ray.direction)
            == sub_v(cam_px(c, i, j), cam_ray_origin(c, s))
}

pub struct Camera {
    pub origin: Vec3,
    pub top_left: Vec3,
    pub horizontal: Vec3,
    pub vertical: Vec3,
    pub u: Vec3,
    pub v: Vec3,
    pub lens_radius: i64,
}

impl Camera {
    /// Builds the camera frame.  The vertical field of view enters as the
    /// tangent of its half-angle, in raw units; callers with an angle in
    /// degrees convert before the call.
    #[verifier::rlimit(100)]
    #[verifier::spinoff_prover]
    pub fn new(
        look_from: Vec3,
        look_at: Vec3,
        vup: Vec3,
        tan_half_fov: i64,
        aspect_ratio: i64,
        aperture_width: i64,
        focus_distance: i64,
    ) -> (r: Camera)
        requires
            bounded_v(v3(look_from), 0x3C0_0000),
            bounded_v(v3(look_at), 0x3C0_0000),
            bounded_v(v3(vup), 131072),
            0 <= tan_half_fov <= 65536,
            0 <= aspect_ratio <= 131072,
            0 <= aperture_width <= 131072,
            1 <= focus_distance <= 0xC_0000,
        ensures
            camera_ok(r),
            camera_is(
                r,
                camera_frame(
                    look_from,
                    look_at,
                    vup,
                    tan_half_fov as int,
                    aspect_ratio as int,
                    aperture_width as int,
                    focus_distance as int,
                ),
            ),
    {
        let viewport_height = 2 * tan_half_fov;
        proof {
            lemma_fxm_bound(aspect_ratio as int, viewport_height as int, 131072, 131072);
        }
        let viewport_width = fx_mul(aspect_ratio, viewport_height);

        let w = look_from.sub(&look_at).normalise();
        proof {
            lemma_fxm_bound(vup.y as int, w.z as int, 131072, 131072);
            lemma_fxm_bound(vup.z as int, w.y as int, 131072, 131072);
            lemma_fxm_bound(vup.z as int, w.x as int, 131072, 131072);
            lemma_fxm_bound(vup.x as int, w.z as int, 131072, 131072);
            lemma_fxm_bound(vup.x as int, w.y as int, 131072, 131072);
            lemma_fxm_bound(vup.y as int, w.x as int, 131072, 131072);
        }
        let u = vup.cross(&w).normalise();
        proof {
            lemma_fxm_bound(w.y as int, u.z as int, 131072, 131072);
            lemma_fxm_bound(w.z as int, u.y as int, 131072, 131072);
            lemma_fxm_bound(w.z as int, u.x as int, 131072, 131072);
            lemma_fxm_bound(w.x as int, u.z as int, 131072, 131072);
            lemma_fxm_bound(w.x as int, u.y as int, 131072, 131072);
            lemma_fxm_bound(w.y as int, u.x as int, 131072, 131072);
        }
        let v = w.cross(&u);

        let origin = look_from;
        proof {
            lemma_fxm_bound(viewport_width as int, u.x as int, 0x4_0000, 131072);
            lemma_fxm_bound(viewport_width as int, u.y as int, 0x4_0000, 131072);
            lemma_fxm_bound(viewport_width as int, u.z as int, 0x4_0000, 131072);
        }
        let h1 = u.scale(viewport_width);
        proof {
            lemma_fxm_bound(focus_distance as int, h1.x as int, 0xC_0000, 0x8_0000);
            lemma_fxm_bound(focus_distance as int, h1.y as int, 0xC_0000, 0x8_0000);
            lemma_fxm_bound(focus_distance as int, h1.z as int, 0xC_0000, 0x8_0000);
        }
        let horizontal = h1.scale(focus_distance);
        proof {
            lemma_fxm_bound((-viewport_height) as int, v.x as int, 131072, 0x8_0000);
            lemma_fxm_bound((-viewport_height) as int, v.y as int, 131072, 0x8_0000);
            lemma_fxm_bound((-viewport_height) as int, v.z as int, 131072, 0x8_0000);
        }
        let v1 = v.scale(-viewport_height);
        proof {
            lemma_fxm_bound(focus_distance as int, v1.x as int, 0xC_0000, 0x10_0000);
            lemma_fxm_bound(focus_distance as int, v1.y as int, 0xC_0000, 0x10_0000);
            lemma_fxm_bound(focus_distance as int, v1.z as int, 0xC_0000, 0x10_0000);
        }
        let vertical = v1.scale(focus_distance);
        proof {
            lemma_fxm_bound(32768, horizontal.x as int, 32768, 0x60_0000);
            lemma_fxm_bound(32768, horizontal.y as int, 32768, 0x60_0000);
            lemma_fxm_bound(32768, horizontal.z as int, 32768, 0x60_0000);
            lemma_fxm_bound(32768, vertical.x as int, 32768, 0xC0_0000);
            lemma_fxm_bound(32768, vertical.y as int, 32768, 0xC0_0000);
            lemma_fxm_bound(32768, vertical.z as int, 32768, 0xC0_0000);
            lemma_fxm_bound(focus_distance as int, w.x as int, 0xC_0000, 131072);
            lemma_fxm_bound(focus_distance as int, w.y as int, 0xC_0000, 131072);
            lemma_fxm_bound(focus_distance as int, w.z as int, 0xC_0000, 131072);
            lemma_fxm_bound(32768, aperture_width as int, 32768, 131072);
        }
        let top_left = origin.sub(&horizontal.scale(HALF)).sub(&vertical.scale(HALF)).sub(
            &w.scale(focus_distance),
        );
        let lens_radius = fx_mul(HALF, aperture_width);
        let r = Camera { origin, top_left, horizontal, vertical, u, v, lens_radius };
        proof {
            reveal(camera_frame);
        }
        r
    }

    /// Returns the primary ray for normalised image coordinates `(i, j)`,
    /// from a lens-jittered origin toward the matching viewport point.
    /// With a zero lens radius the ray is deterministic.
    #[verifier::rlimit(100)]
    #[verifier::spinoff_prover]
    pub fn get_ray(&self, i: i64, j: i64) -> (r: Ray)
        requires
            camera_ok(*self),
            0 <= i <= 65536,
            0 <= j <= 65536,
        ensures
            primary_ray_ok(*self, i as int, j as int, r),
            self.lens_radius == 0 ==> v3(r.origin) == v3(self.origin) && v3(r.direction) == sub_v(
                cam_px(*self, i as int, j as int),
                v3(self.origin),
            ),
    {
        let origin = self.lens_origin();
        let px_pos = self.pixel_point(i, j);
        let direction = px_pos.sub(&origin);
        let r = Ray::new(origin, direction);
        proof {
            let gs = choose|gs: V3| bounded_v(gs, 131072) && v3(origin) == cam_ray_origin(*self, gs);
            assert(bounded_v(gs, 131072) && v3(r.origin) == cam_ray_origin(*self, gs) && v3(
                r.direction,
            ) == sub_v(cam_px(*self, i as int, j as int), cam_ray_origin(*self, gs)));
        }
        r
    }

    /// The jittered ray origin: the camera origin offset over the lens
    /// disk.
    #[verifier::rlimit(100)]
    #[verifier::spinoff_prover]
    fn lens_origin(&self) -> (o: Vec3)
        requires
            camera_ok(*self),
        ensures
            bounded_v(v3(o), 0x400_0000),
            bounded_v(sub_v(v3(o), v3(self.origin)), 0x14_0000),
            exists|s: V3| bounded_v(s, 131072) && v3(o) == cam_ray_origin(*self, s),
            self.lens_radius == 0 ==> v3(o) == v3(self.origin),
    {
        let circ = rand_in_unit_circle();
        proof {
            lemma_fxm_bound(self.lens_radius as int, circ.x as int, 65536, 131072);
            lemma_fxm_bound(self.lens_radius as int, circ.y as int, 65536, 131072);
            lemma_fxm_bound(self.lens_radius as int, circ.z as int, 65536, 131072);
        }
        let rand = circ.scale(self.lens_radius);
        proof {
            lemma_fxm_bound(rand.x as int, self.u.x as int, 131072, 131072);
            lemma_fxm_bound(rand.x as int, self.u.y as int, 131072, 131072);
            lemma_fxm_bound(rand.x as int, self.u.z as int, 131072, 131072);
            lemma_fxm_bound(rand.y as int, self.v.x as int, 131072, 0x8_0000);
            lemma_fxm_bound(rand.y as int, self.v.y as int, 131072, 0x8_0000);
            lemma_fxm_bound(rand.y as int, self.v.z as int, 131072, 0x8_0000);
        }
        let origin = self.origin.add(&self.u.scale(rand.x)).add(&self.v.scale(rand.y));
        proof {
            let gs = v3(circ);
            assert(v3(origin) == cam_ray_origin(*self, gs)) by {
                reveal(cam_ray_origin);
            }
            if self.lens_radius == 0 {
                assert(v3(origin) == v3(self.origin)) by {
                    lemma_fxm_zero(gs.x);
                    lemma_fxm_zero(gs.y);
                    lemma_fxm_zero(gs.z);
                    lemma_fxm_zero(v3(self.u).x);
                    lemma_fxm_zero(v3(self.u).y);
                    lemma_fxm_zero(v3(self.u).z);
                    lemma_fxm_zero(v3(self.v).x);
                    lemma_fxm_zero(v3(self.v).y);
                    lemma_fxm_zero(v3(self.v).z);
                }
            }
        }
        origin
    }

    /// The viewport point that image coordinates `(i, j)` name.
    fn pixel_point(&self, i: i64, j: i64) -> (p: Vec3)
        requires
            camera_ok(*self),
            0 <= i <= 65536,
            0 <= j <= 65536,
        ensures
            v3(p) == cam_px(*self, i as int, j as int),
            bounded_v(sub_v(v3(p), v3(self.origin)), 0x1D0_0000),
            bounded_v(v3(p), 0x5D0_0000),
    {
        proof {
            lemma_fxm_bound(i as int, self.horizontal.x as int, 65536, 0x60_0000);
            lemma_fxm_bound(i as int, self.horizontal.y as int, 65536, 0x60_0000);
            lemma_fxm_bound(i as int, self.horizontal.z as int, 65536, 0x60_0000);
            lemma_fxm_bound(j as int, self.vertical.x as int, 65536, 0xC0_0000);
            lemma_fxm_bound(j as int, self.vertical.y as int, 65536, 0xC0_0000);
            lemma_fxm_bound(j as int, self.vertical.z as int, 65536, 0xC0_0000);
        }
        let p = self.top_left.add(&self.horizontal.scale(i)).add(&self.vertical.scale(j));
        proof {
            assert(v3(p) == cam_px(*self, i as int, j as int)) by {
                reveal(cam_px);
            }
        }
        p
    }
}

/// A random vector drawn from the unit disk of the lens plane and scaled
/// to unit length as the sampler's rejection loop does, with an axis
/// vector as the (practically unreachable) fallback once the attempts run
/// out.  The result stays in the lens plane: its third component is zero.
fn rand_in_unit_circle() -> (r: Vec3)
    ensures
        bounded_v(v3(r), 131072),
        r.z == 0,
        exists|v: V3|
            v.z == 0 && bounded_v(v, 65536) && v != zero_v() && len_v(v) <= 65536 && v3(r)
                == normalise_v(v),
{
    let mut i: u8 = 0;
    while i < 64
        decreases 64 - i,
    {
        let x = rand_sym();
        let y = rand_sym();
        let v = Vec3 { x, y, z: 0 };
        let l = v.len();
        if l < SCALE && !(x == 0 && y == 0) {
            let n = v.normalise();
            proof {
                let gv = v3(v);
                lemma_in_plane_normalised(gv, l as int);
                assert(gv.z == 0 && bounded_v(gv, 65536) && gv != zero_v() && len_v(gv) <= 65536
                    && v3(n) == normalise_v(gv));
            }
            return n;
        }
        i = i + 1;
    }
    let r = Vec3 { x: SCALE, y: 0, z: 0 };
    proof {
        crate::vector::lemma_unit_axis_normalised();
        let axis = V3 { x: 65536, y: 0, z: 0 };
        assert(axis.z == 0 && bounded_v(axis, 65536) && axis != zero_v() && len_v(axis) <= 65536
            && v3(r) == normalise_v(axis));
    }
    r
}

/// Normalising a vector of the lens plane keeps it in the lens plane: the
/// third component of the scaled result is still zero.
proof fn lemma_in_plane_normalised(v: V3, l: int)
    requires
        v.z == 0,
        l == len_v(v),
    ensures
        normalise_v(v).z == 0,
{
    reveal(normalise_v);
    if l != 0 {
        assert(crate::fx::fxd(0, l) == 0) by {
            vstd::arithmetic::div_mod::lemma_div_of0(crate::fx::mag(l));
        }
    }
}

} // verus!
