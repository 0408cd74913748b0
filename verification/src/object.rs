//! Spheres, hits, and the scene aggregate.
//!
//! `Sphere::hit` solves the ray-sphere quadratic in fixed point and is
//! mirrored exactly by the spec function `sphere_geom`; `Scene::hit` scans
//! all spheres and keeps the closest hit, mirrored by `scene_geom`.

use vstd::prelude::*;
use crate::fx::{mag, fxm, fxd, fxsqrt, lemma_fxm_bound, lemma_fxd_bound, lemma_fxm_zero, lemma_fxm_unit, lemma_fxm_neg_unit, fx_mul, fx_div, fx_sqrt};
use crate::vector::{Vec3, V3, v3, sub_v, neg_v, scale_v, dot_v, normalise_v, bounded_v, lemma_normalise_bound};
use crate::ray::{Ray, at_v};
use crate::material::{Material, Reflection, material_ok, scatter_ok, colour01};

verus! {

/// Largest raw coordinate a sphere centre, radius or ray origin may carry.
pub const RMAX: i64 = 0x400_0000;

/// Largest raw component a ray direction may carry.
pub const DMAX: i64 = 0x280_0000;

/// Largest raw component a reported hit point may carry; farther
/// intersections are treated as misses.
pub const PGUARD: i64 = 0x10_0000_0000;

/// Largest raw ray parameter considered; farther roots are treated as out
/// of range.
pub const TGUARD: i64 = 0x40_0000_0000;

/// Upper ray-parameter bound that stands in for infinity.
pub const TMAX: i64 = 0x3FFF_FFFF_FFFF_FFFF;

/// A sphere with its centre, radius and surface material.
#[derive(Clone, Copy, Debug, PartialEq, Eq, Structural)]
pub struct Sphere {
    pub centre: Vec3,
    pub radius: i64,
    pub material: Material,
}

/// An intersection record: where the ray struck, the unit surface normal
/// oriented against the ray, the ray parameter, which side was struck, and
/// what the surface's material made of the incident ray.
#[derive(Clone, Copy, Debug, PartialEq, Eq, Structural)]
pub struct Hit {
    pub point: Vec3,
    pub normal: Vec3,
    pub t: i64,
    pub front_face: bool,
    pub reflection: Option<Reflection>,
}

/// The deterministic part of a hit: everything but the scattered ray.
pub ghost struct GeomHit {
    pub point: V3,
    pub normal: V3,
    pub t: int,
    pub front_face: bool,
    pub material: Material,
}

/// A sphere the tracer accepts: positive bounded radius, bounded centre,
/// plausible material.
pub open spec fn sphere_ok(s: Sphere) -> bool {
    1 <= s.radius <= RMAX && bounded_v(v3(s.centre), RMAX as int) && material_ok(s.material)
}

/// A ray the tracer accepts: bounded origin and direction.
pub open spec fn ray_ok(r: Ray) -> bool {
    bounded_v(v3(r.origin), RMAX as int) && bounded_v(v3(r.direction), DMAX as int)
}

/// The root chosen by the intersection: inside the queried interval and
/// within the parameter guard.
pub open spec fn root_in(t: int, tmin: int, tmax: int) -> bool {
    tmin <= t < tmax && mag(t) <= TGUARD as int
}

/// The geometry of the nearest intersection of a ray with one sphere, or
/// nothing: the exact mirror of `Sphere::hit`, including its defensive
/// guards against degenerate directions and out-of-range points.
pub open spec fn sphere_geom(s: Sphere, ray: Ray, tmin: int, tmax: int) -> Option<GeomHit> {
    let o = v3(ray.origin);
    let d = v3(ray.direction);
    let ce = v3(s.centre);
    let oc = sub_v(o, ce);
    let a = dot_v(d, d);
    let b = 2 * dot_v(d, oc);
    let c = dot_v(oc, oc) - fxm(s.radius as int, s.radius as int);
    if a <= 0 {
        Option::None
    } else {
        let disc = fxm(b, b) - 4 * fxm(a, c);
        if disc < 0 {
            Option::None
        } else {
            let sq = fxsqrt(disc);
            let t0 = fxd(-b - sq, 2 * a);
            let t1 = fxd(-b + sq, 2 * a);
            if !root_in(t0, tmin, tmax) && !root_in(t1, tmin, tmax) {
                Option::None
            } else {
                let root = if root_in(t0, tmin, tmax) {
                    t0
                } else {
                    t1
                };
                let p = at_v(o, d, root);
                if !bounded_v(p, PGUARD as int) {
                    Option::None
                } else {
                    let n0 = normalise_v(sub_v(p, ce));
                    let dn = dot_v(d, n0);
                    let n = if dn > 0 {
                        neg_v(n0)
                    } else {
                        n0
                    };
                    Option::Some(
                        GeomHit {
                            point: p,
                            normal: n,
                            t: root,
                            front_face: !(dn > 0),
                            material: s.material,
                        },
                    )
                }
            }
        }
    }
}

/// What `Sphere::hit` and `Scene::hit` promise of a returned hit, against
/// the geometry `g` that the mirror spec reports.
pub open spec fn hit_matches(g: GeomHit, ray: Ray, tmin: int, tmax: int, h: Hit) -> bool {
    g.point == v3(h.point) && g.normal == v3(h.normal) && g.t == h.t as int && g.front_face
        == h.front_face && bounded_v(v3(h.point), PGUARD as int) && bounded_v(v3(h.normal), 131072)
        && tmin <= h.t < tmax && scatter_ok(g.material, ray, h.point, h.normal, h.front_face, h.reflection)
        && match h.reflection {
        Option::Some(refl) => colour01(v3(refl.attenuation)) && refl.reflected_ray.origin
            == h.point,
        Option::None => true,
    }
}

impl Sphere {
    /// Tests the ray against this sphere over the parameter interval
    /// `[bounds.0, bounds.1)` and reports the nearest intersection, with
    /// the material's scatter result already attached.
    #[verifier::rlimit(100)]
    pub fn hit(&self, ray: &Ray, bounds: (i64, i64)) -> (r: Option<Hit>)
        requires
            sphere_ok(*self),
            ray_ok(*ray),
        ensures
            match r {
                Option::Some(h) => sphere_geom(*self, *ray, bounds.0 as int, bounds.1 as int)
                    matches Option::Some(g) && hit_matches(g, *ray, bounds.0 as int, bounds.1 as int, h)
                    && g.material == self.material,
                Option::None => sphere_geom(*self, *ray, bounds.0 as int, bounds.1 as int) is None,
            },
    {
        let oc = ray.origin.sub(&self.centre);
        proof {
            lemma_fxm_bound(ray.direction.x as int, ray.direction.x as int, DMAX as int, DMAX as int);
            lemma_fxm_bound(ray.direction.y as int, ray.direction.y as int, DMAX as int, DMAX as int);
            lemma_fxm_bound(ray.direction.z as int, ray.direction.z as int, DMAX as int, DMAX as int);
            lemma_fxm_bound(ray.direction.x as int, oc.x as int, DMAX as int, 0x800_0000);
            lemma_fxm_bound(ray.direction.y as int, oc.y as int, DMAX as int, 0x800_0000);
            lemma_fxm_bound(ray.direction.z as int, oc.z as int, DMAX as int, 0x800_0000);
            lemma_fxm_bound(oc.x as int, oc.x as int, 0x800_0000, 0x800_0000);
            lemma_fxm_bound(oc.y as int, oc.y as int, 0x800_0000, 0x800_0000);
            lemma_fxm_bound(oc.z as int, oc.z as int, 0x800_0000, 0x800_0000);
            lemma_fxm_bound(self.radius as int, self.radius as int, RMAX as int, RMAX as int);
        }
        let a = ray.direction.dot(&ray.direction);
        let b = 2 * ray.direction.dot(&oc);
        let rr = fx_mul(self.radius, self.radius);
        let c = oc.dot(&oc) - rr;
        if a <= 0 {
            return Option::None;
        }
        proof {
            lemma_fxm_bound(b as int, b as int, 0x78_0000_0000, 0x78_0000_0000);
            lemma_fxm_bound(a as int, c as int, 0x12_C000_0000, 0xD0_0000_0000);
        }
        let bb = fx_mul(b, b);
        let fac = fx_mul(a, c);
        let disc = bb - 4 * fac;
        if disc < 0 {
            return Option::None;
        }
        let sq = fx_sqrt(disc);
        let two_a = 2 * a;
        proof {
            lemma_fxd_bound((-b - sq) as int, two_a as int, 0x178_0000_0000);
            lemma_fxd_bound((-b + sq) as int, two_a as int, 0x178_0000_0000);
        }
        let t0 = fx_div(-b - sq, two_a);
        let t1 = fx_div(-b + sq, two_a);
        let ok0 = bounds.0 <= t0 && t0 < bounds.1 && -TGUARD <= t0 && t0 <= TGUARD;
        let ok1 = bounds.0 <= t1 && t1 < bounds.1 && -TGUARD <= t1 && t1 <= TGUARD;
        if !ok0 && !ok1 {
            return Option::None;
        }
        let root = if ok0 {
            t0
        } else {
            t1
        };
        let point = ray.at(root);
        if !(-PGUARD <= point.x && point.x <= PGUARD && -PGUARD <= point.y && point.y <= PGUARD
            && -PGUARD <= point.z && point.z <= PGUARD) {
            return Option::None;
        }
        let op = point.sub(&self.centre);
        let normal0 = op.normalise();
        proof {
            if crate::vector::len_v(v3(op)) >= 1 {
                lemma_normalise_bound(v3(op));
            }
            lemma_fxm_bound(ray.direction.x as int, normal0.x as int, DMAX as int, 131072);
            lemma_fxm_bound(ray.direction.y as int, normal0.y as int, DMAX as int, 131072);
            lemma_fxm_bound(ray.direction.z as int, normal0.z as int, DMAX as int, 131072);
        }
        let dn = ray.direction.dot(&normal0);
        let front_face = !(dn > 0);
        let normal = if dn > 0 {
            normal0.neg()
        } else {
            normal0
        };
        let mut h = Hit { point, normal, t: root, front_face, reflection: Option::None };
        let refl = self.material.scatter(ray, &h);
        h.reflection = refl;
        Option::Some(h)
    }
}

/// A ray fired from distance `D = k/256` straight at a sphere's centre,
/// from outside it, hits the front face at parameter `D - radius`, at the
/// surface point on the near side, with the unit normal pointing straight
/// back along the ray.  Stated for distances and radii in multiples of 256
/// raw units, for which every product in the quadratic is exact.
pub proof fn lemma_head_on_hit(s: Sphere, ray: Ray, k: int, m: int)
    requires
        sphere_ok(s),
        ray_ok(ray),
        s.radius as int == 256 * m,
        ray.origin.x as int == s.centre.x as int,
        ray.origin.y as int == s.centre.y as int,
        ray.origin.z as int == s.centre.z as int + 256 * k,
        ray.direction.x == 0,
        ray.direction.y == 0,
        ray.direction.z == -65536,
        m < k,
    ensures
        sphere_geom(s, ray, 1, TMAX as int) == Option::Some(
            GeomHit {
                point: V3 {
                    x: s.centre.x as int,
                    y: s.centre.y as int,
                    z: s.centre.z as int + 256 * m,
                },
                normal: V3 { x: 0, y: 0, z: 65536 },
                t: 256 * (k - m),
                front_face: true,
                material: s.material,
            },
        ),
{
    lemma_axial_geometry(s, ray, k, m);
}

/// A ray fired from an origin strictly inside a sphere leaves through the
/// back face: the reported hit has `front_face` false and its normal
/// flipped to point back toward the ray origin.  Stated for origins on
/// the sphere's axis, displaced `k/256` above the centre.
pub proof fn lemma_inside_hit(s: Sphere, ray: Ray, k: int, m: int)
    requires
        sphere_ok(s),
        ray_ok(ray),
        s.radius as int == 256 * m,
        ray.origin.x as int == s.centre.x as int,
        ray.origin.y as int == s.centre.y as int,
        ray.origin.z as int == s.centre.z as int + 256 * k,
        ray.direction.x == 0,
        ray.direction.y == 0,
        ray.direction.z == -65536,
        0 <= k < m,
    ensures
        sphere_geom(s, ray, 1, TMAX as int) == Option::Some(
            GeomHit {
                point: V3 {
                    x: s.centre.x as int,
                    y: s.centre.y as int,
                    z: s.centre.z as int - 256 * m,
                },
                normal: V3 { x: 0, y: 0, z: 65536 },
                t: 256 * (k + m),
                front_face: false,
                material: s.material,
            },
        ),
{
    lemma_axial_geometry(s, ray, k, m);
}

/// The shared geometry of an axial ray aimed down `-z` at a sphere centred
/// `k/256` below its origin: the quadratic, the chosen root, the hit point
/// and the oriented normal, computed exactly.
#[verifier::rlimit(100)]
#[verifier::spinoff_prover]
proof fn lemma_axial_geometry(s: Sphere, ray: Ray, k: int, m: int)
    requires
        sphere_ok(s),
        ray_ok(ray),
        s.radius as int == 256 * m,
        ray.origin.x as int == s.centre.x as int,
        ray.origin.y as int == s.centre.y as int,
        ray.origin.z as int == s.centre.z as int + 256 * k,
        ray.direction.x == 0,
        ray.direction.y == 0,
        ray.direction.z == -65536,
        0 <= k,
        k != m,
    ensures
        sphere_geom(s, ray, 1, TMAX as int) == Option::Some(
            GeomHit {
                point: V3 {
                    x: s.centre.x as int,
                    y: s.centre.y as int,
                    z: s.centre.z as int + 256 * k - (if k < m { 256 * (k + m) } else { 256 * (k - m) }),
                },
                normal: V3 { x: 0, y: 0, z: 65536 },
                t: if k < m { 256 * (k + m) } else { 256 * (k - m) },
                front_face: k > m,
                material: s.material,
            },
        ),
{
    reveal(crate::vector::len_v);
    reveal(crate::vector::normalise_v);
    let o = v3(ray.origin);
    let d = v3(ray.direction);
    let ce = v3(s.centre);
    let oc = sub_v(o, ce);
    assert(1 <= m) by {
        assert(s.radius as int >= 1);
    }
    lemma_fxm_zero(0);
    lemma_fxm_neg_unit(65536);
    lemma_fxm_neg_unit(256 * k);
    assert(fxm(-65536, -65536) == 65536);
    let a = dot_v(d, d);
    assert(a == 65536);
    let b = 2 * dot_v(d, oc);
    assert(dot_v(d, oc) == -(256 * k));
    assert(b == -512 * k);
    lemma_sq_of_whole(k);
    lemma_sq_of_whole(m);
    assert(dot_v(oc, oc) == k * k);
    assert(fxm(s.radius as int, s.radius as int) == m * m);
    let c = dot_v(oc, oc) - fxm(s.radius as int, s.radius as int);
    assert(c == k * k - m * m);
    lemma_sq_of_double_whole(k);
    assert(fxm(b, b) == 4 * (k * k));
    lemma_fxm_unit(c);
    assert(fxm(a, c) == k * k - m * m);
    let disc = fxm(b, b) - 4 * fxm(a, c);
    assert(disc == 4 * (m * m));
    vstd::arithmetic::mul::lemma_mul_nonnegative(m, m);
    assert(disc * 65536 == (512 * m) * (512 * m)) by (nonlinear_arith)
        requires
            disc == 4 * (m * m),
    ;
    lemma_sqrt_of_square(512 * m, disc * 65536);
    let sq = fxsqrt(disc);
    assert(sq == 512 * m);
    lemma_half_div(k - m);
    lemma_half_div(-(k + m));
    let t0 = fxd(-b - sq, 2 * a);
    let t1 = fxd(-b + sq, 2 * a);
    assert(-b - sq == (k - m) * 512 && -b + sq == (k + m) * 512);
    lemma_half_div(k + m);
    assert(t0 == 256 * (k - m));
    assert(t1 == 256 * (k + m));
    let root = if k < m { 256 * (k + m) } else { 256 * (k - m) };
    assert(256 * k <= 0x800_0000);
    if k < m {
        assert(!root_in(t0, 1, TMAX as int));
        assert(root_in(t1, 1, TMAX as int));
    } else {
        assert(root_in(t0, 1, TMAX as int));
    }
    lemma_fxm_zero(root);
    lemma_fxm_neg_unit(root);
    let p = at_v(o, d, root);
    assert(p == (V3 { x: ce.x, y: ce.y, z: ce.z + 256 * k - root }));
    assert(bounded_v(p, PGUARD as int));
    let op = sub_v(p, ce);
    let zc = 256 * k - root;
    assert(op == (V3 { x: 0, y: 0, z: zc }));
    assert(zc == if k < m { -256 * m } else { 256 * m });
    lemma_sq_of_whole_signed(zc, m);
    assert(dot_v(op, op) == m * m);
    assert((m * m) * 65536 == (256 * m) * (256 * m)) by (nonlinear_arith);
    lemma_sqrt_of_square(256 * m, (m * m) * 65536);
    assert(crate::vector::len_v(op) == 256 * m);
    lemma_unit_ratio(zc, 256 * m);
    vstd::arithmetic::div_mod::lemma_div_of0(256 * m);
    let n0 = normalise_v(op);
    assert(n0 == (V3 { x: 0, y: 0, z: if k < m { -65536 } else { 65536 } }));
    lemma_fxm_neg_unit(-65536);
    let dn = dot_v(d, n0);
    assert(dn == if k < m { 65536 } else { -65536 });
}

/// `(256x)^2` rescales to `x^2` exactly.
proof fn lemma_sq_of_whole(x: int)
    requires
        0 <= x,
    ensures
        fxm(256 * x, 256 * x) == x * x,
{
    assert((256 * x) * (256 * x) == (x * x) * 65536) by (nonlinear_arith);
    vstd::arithmetic::div_mod::lemma_div_by_multiple(x * x, 65536);
}

/// `(256x)^2` rescales to `x^2` exactly, whatever the sign of the base.
proof fn lemma_sq_of_whole_signed(z: int, m: int)
    requires
        z == 256 * m || z == -256 * m,
    ensures
        fxm(z, z) == m * m,
{
    assert(mag(z) * mag(z) == (m * m) * 65536) by (nonlinear_arith)
        requires
            z == 256 * m || z == -256 * m,
    ;
    vstd::arithmetic::div_mod::lemma_div_by_multiple(m * m, 65536);
    assert(m * m >= 0) by (nonlinear_arith);
}

/// `(512x)^2` rescales to `4 x^2` exactly.
proof fn lemma_sq_of_double_whole(x: int)
    requires
        0 <= x,
    ensures
        fxm(-512 * x, -512 * x) == 4 * (x * x),
{
    assert((512 * x) * (512 * x) == (4 * (x * x)) * 65536) by (nonlinear_arith);
    vstd::arithmetic::div_mod::lemma_div_by_multiple(4 * (x * x), 65536);
    assert(4 * (x * x) >= 0) by (nonlinear_arith);
}

/// The square root of an exact square.
proof fn lemma_sqrt_of_square(r: int, n: int)
    requires
        0 <= r,
        n == r * r,
    ensures
        crate::fx::isq(n) == r,
{
    assert(crate::fx::is_sqrt(n, r)) by (nonlinear_arith)
        requires
            0 <= r && n == r * r,
    ;
    crate::fx::lemma_sqrt_unique(n, r);
}

/// Dividing `512x` raw units by two whole units gives `256x` exactly.
proof fn lemma_half_div(x: int)
    ensures
        fxd(x * 512, 131072) == 256 * x,
{
    assert(mag(x * 512) * 65536 == mag(256 * x) * 131072) by (nonlinear_arith);
    vstd::arithmetic::div_mod::lemma_div_by_multiple(mag(256 * x), 131072);
    assert(mag(x * 512) >= 0 && ((x * 512) < 0) == ((256 * x) < 0)) by (nonlinear_arith);
}

/// A value of magnitude `l` divided by the length `l` is the signed unit.
proof fn lemma_unit_ratio(z: int, l: int)
    requires
        1 <= l,
        z == l || z == -l,
    ensures
        fxd(z, l) == if z < 0 { -65536 as int } else { 65536 as int },
{
    assert(mag(z) * 65536 == 65536 * l) by (nonlinear_arith)
        requires
            z == l || z == -l,
            1 <= l,
    ;
    vstd::arithmetic::div_mod::lemma_div_by_multiple(65536, l);
}

/// An ordered collection of spheres, hit-tested by linear scan.
#[derive(Debug)]
pub struct Scene {
    pub objects: Vec<Sphere>,
}

/// Every sphere of the scene is acceptable.
pub open spec fn scene_ok(s: Scene) -> bool {
    forall|i: int| 0 <= i < s.objects@.len() ==> sphere_ok(#[trigger] s.objects@[i])
}

/// The geometry of the closest hit over a sequence of spheres: a sphere's
/// hit replaces the best seen so far only when strictly closer, so the
/// first of equally near spheres wins.
pub open spec fn scene_geom(objs: Seq<Sphere>, ray: Ray, tmin: int, tmax: int) -> Option<GeomHit>
    decreases objs.len(),
{
    if objs.len() == 0 {
        Option::None
    } else {
        let rest = scene_geom(objs.drop_last(), ray, tmin, tmax);
        let cur = sphere_geom(objs.last(), ray, tmin, tmax);
        match cur {
            Option::Some(ch) => match rest {
                Option::Some(rh) => if ch.t < rh.t {
                    cur
                } else {
                    rest
                },
                Option::None => cur,
            },
            Option::None => rest,
        }
    }
}

impl Scene {
    /// Builds a scene from its spheres.
    pub fn new(objects: Vec<Sphere>) -> (r: Scene)
        ensures
            r.objects == objects,
    {
        Scene { objects }
    }

    /// Tests the ray against every sphere and returns the hit closest to
    /// the ray origin, or nothing when every sphere misses.
    pub fn hit(&self, ray: &Ray, bounds: (i64, i64)) -> (r: Option<Hit>)
        requires
            scene_ok(*self),
            ray_ok(*ray),
        ensures
            match r {
                Option::Some(h) => scene_geom(self.objects@, *ray, bounds.0 as int, bounds.1 as int)
                    matches Option::Some(g) && hit_matches(g, *ray, bounds.0 as int, bounds.1 as int, h),
                Option::None => scene_geom(self.objects@, *ray, bounds.0 as int, bounds.1 as int) is None,
            },
    {
        let ghost tmin = bounds.0 as int;
        let ghost tmax = bounds.1 as int;
        let mut best: Option<Hit> = Option::None;
        let mut idx: usize = 0;
        while idx < self.objects.len()
            invariant
                idx <= self.objects.len(),
                scene_ok(*self),
                ray_ok(*ray),
                tmin == bounds.0 as int,
                tmax == bounds.1 as int,
                match best {
                    Option::Some(h) => scene_geom(self.objects@.take(idx as int), *ray, tmin, tmax)
                        matches Option::Some(g) && hit_matches(g, *ray, tmin, tmax, h),
                    Option::None => scene_geom(self.objects@.take(idx as int), *ray, tmin, tmax) is None,
                },
            decreases self.objects.len() - idx,
        {
            let cur = self.objects[idx].hit(ray, bounds);
            proof {
                assert(self.objects@.take(idx as int + 1).drop_last() =~= self.objects@.take(
                    idx as int,
                ));
                assert(self.objects@.take(idx as int + 1).last() == self.objects@[idx as int]);
            }
            match cur {
                Option::Some(ch) => {
                    match &best {
                        Option::Some(bh) => {
                            if ch.t < bh.t {
                                best = Option::Some(ch);
                            }
                        },
                        Option::None => {
                            best = Option::Some(ch);
                        },
                    }
                },
                Option::None => {},
            }
            idx = idx + 1;
        }
        proof {
            assert(self.objects@.take(self.objects@.len() as int) =~= self.objects@);
        }
        best
    }
}

} // verus!
