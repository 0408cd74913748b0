//! The scattering model: diffuse, metallic and refractive surfaces.
//!
//! Each material maps an incident ray and a surface hit to an optional
//! outgoing ray plus an attenuation colour; no result means the ray was
//! absorbed.  The scatter directions depend on fresh random draws, so the
//! contracts are relational: they state, for every value the generator can
//! produce, exactly which reflection comes back.

use vstd::prelude::*;
use vstd::arithmetic::div_mod::{lemma_div_is_ordered, lemma_div_by_multiple, lemma_div_is_ordered_by_denominator};
use vstd::arithmetic::mul::lemma_mul_inequality;
use crate::fx::{SCALE, mag, fxm, fxd, fxsqrt, lemma_fxm_bound, lemma_fxd_bound, lemma_fxm_sq_nonneg, lemma_fxm_zero, lemma_isq_le, fx_mul, fx_div, fx_sqrt};
use crate::vector::{Vec3, V3, v3, add_v, sub_v, scale_v, dot_v, len_v, normalise_v, zero_v, bounded_v, OPB};
use crate::ray::Ray;
use crate::object::{Hit, DMAX};

verus! {

/// An outgoing ray together with the colour attenuation it carries.
#[derive(Clone, Copy, Debug, PartialEq, Eq, Structural)]
pub struct Reflection {
    pub reflected_ray: Ray,
    pub attenuation: Vec3,
}

/// A diffuse surface with a fixed albedo.
#[derive(Clone, Copy, Debug, PartialEq, Eq, Structural)]
pub struct Lambertian {
    pub attenuation: Vec3,
}

/// A specular surface with a fixed albedo and a roughness in `[0, 1]`.
#[derive(Clone, Copy, Debug, PartialEq, Eq, Structural)]
pub struct Metal {
    pub attenuation: Vec3,
    pub fuzz: i64,
}

/// A transparent surface with a fixed index of refraction.
#[derive(Clone, Copy, Debug, PartialEq, Eq, Structural)]
pub struct Dielectric {
    pub refraction_ratio: i64,
}

/// The closed set of materials a sphere can carry.
#[derive(Clone, Copy, Debug, PartialEq, Eq, Structural)]
pub enum Material {
    Lambertian(Lambertian),
    Metal(Metal),
    Dielectric(Dielectric),
}

/// A physically plausible colour: every component in `[0, 1]`.
pub open spec fn colour01(c: V3) -> bool {
    0 <= c.x <= 65536 && 0 <= c.y <= 65536 && 0 <= c.z <= 65536
}

pub open spec fn white_v() -> V3 {
    V3 { x: 65536, y: 65536, z: 65536 }
}

/// The parameters a material may carry: plausible albedos, roughness in
/// `[0, 1]`, and an index of refraction between one eighth and eight.
pub open spec fn material_ok(m: Material) -> bool {
    match m {
        Material::Lambertian(l) => colour01(v3(l.attenuation)),
        Material::Metal(mt) => colour01(v3(mt.attenuation)) && 0 <= mt.fuzz <= 65536,
        Material::Dielectric(d) => 8192 <= d.refraction_ratio <= 524288,
    }
}

/// Mirror reflection of `v` about the surface normal `n`.
pub open spec fn reflect_v(v: V3, n: V3) -> V3 {
    sub_v(v, scale_v(2 * dot_v(v, n), n))
}

/// The diffuse scatter direction for a unit sample `u`: normal plus sample,
/// or the normal itself when the sum cancels to nothing.
pub open spec fn lambertian_dir(n: V3, u: V3) -> V3 {
    if add_v(n, u) == zero_v() {
        n
    } else {
        add_v(n, u)
    }
}

/// The metallic scatter direction: the mirror direction perturbed by `fuzz`
/// times a unit sample.
pub open spec fn metal_dir(d: V3, n: V3, fuzz: int, u: V3) -> V3 {
    add_v(reflect_v(d, n), scale_v(fuzz, u))
}

/// Schlick's approximation of the Fresnel reflectance.
#[verifier::opaque]
pub open spec fn schlick_v(angle: int, n: int) -> int {
    let t = fxd(65536 - n, 65536 + n);
    let r0 = fxm(t, t);
    let p1 = 65536 - angle;
    let p2 = fxm(p1, p1);
    let p4 = fxm(p2, p2);
    let p5 = fxm(p4, p1);
    r0 + fxm(65536 - r0, p5)
}

/// Snell refraction of the unit direction `u` about `n` with the given
/// ratio of refraction indices.
#[verifier::opaque]
pub open spec fn refract_v(u: V3, n: V3, ratio: int) -> V3 {
    let d0 = dot_v(u, n);
    let m = if d0 < 65536 {
        d0
    } else {
        65536
    };
    let cos = -m;
    let rp = scale_v(ratio, add_v(u, scale_v(cos, n)));
    let lp = len_v(rp);
    let k = 65536 - fxm(lp, lp);
    add_v(rp, scale_v(-fxsqrt(mag(k)), n))
}

/// The refractive scatter direction for a uniform draw `rnd` in `[0, 1)`:
/// reflect on total internal reflection or when the draw falls below the
/// Schlick reflectance, refract otherwise.
#[verifier::opaque]
pub open spec fn dielectric_dir(d: V3, n: V3, front_face: bool, ior: int, rnd: int) -> V3 {
    let ratio = if front_face {
        fxd(65536, ior)
    } else {
        ior
    };
    let u = normalise_v(d);
    let d0 = dot_v(u, n);
    let m = if d0 < 65536 {
        d0
    } else {
        65536
    };
    let cos = -m;
    let c2 = 65536 - fxm(cos, cos);
    let s2 = if c2 < 0 {
        0
    } else {
        c2
    };
    let sin = fxsqrt(s2);
    if fxm(ratio, sin) > 65536 || schlick_v(cos, ratio) > rnd {
        reflect_v(u, n)
    } else {
        refract_v(u, n, ratio)
    }
}

/// What a material's scatter call guarantees, for every random draw the
/// generator can produce.
pub open spec fn scatter_ok(
    m: Material,
    incident: Ray,
    point: Vec3,
    normal: Vec3,
    front_face: bool,
    result: Option<Reflection>,
) -> bool {
    match m {
        Material::Lambertian(l) => match result {
            Option::Some(refl) => refl.attenuation == l.attenuation
                && refl.reflected_ray.origin == point && exists|u: V3|
                bounded_v(u, 131072) && v3(refl.reflected_ray.direction) == lambertian_dir(
                    v3(normal),
                    u,
                ),
            Option::None => false,
        },
        Material::Metal(mt) => match result {
            Option::Some(refl) => refl.attenuation == mt.attenuation
                && refl.reflected_ray.origin == point && dot_v(
                v3(refl.reflected_ray.direction),
                v3(normal),
            ) > 0 && exists|u: V3|
                bounded_v(u, 131072) && v3(refl.reflected_ray.direction) == metal_dir(
                    v3(incident.direction),
                    v3(normal),
                    mt.fuzz as int,
                    u,
                ),
            Option::None => exists|u: V3|
                bounded_v(u, 131072) && dot_v(
                    metal_dir(v3(incident.direction), v3(normal), mt.fuzz as int, u),
                    v3(normal),
                ) <= 0,
        },
        Material::Dielectric(di) => match result {
            Option::Some(refl) => dielectric_refl_ok(di, incident, point, normal, front_face, refl),
            Option::None => false,
        },
    }
}

/// What a dielectric reflection looks like: white attenuation, the hit
/// point as origin, and a direction the refraction rule produces for some
/// uniform draw.
pub open spec fn dielectric_refl_ok(
    di: Dielectric,
    incident: Ray,
    point: Vec3,
    normal: Vec3,
    front_face: bool,
    refl: Reflection,
) -> bool {
    v3(refl.attenuation) == white_v() && refl.reflected_ray.origin == point && exists|rnd: int|
        0 <= rnd && rnd < 65536 && v3(refl.reflected_ray.direction) == dielectric_dir(
            v3(incident.direction),
            v3(normal),
            front_face,
            di.refraction_ratio as int,
            rnd,
        )
}

/// The reflection law on exact inputs: the direction `(1, -1, 0)` mirrors
/// off the horizontal unit normal `(0, 1, 0)` to exactly `(1, 1, 0)`, so a
/// polished metal surface (zero roughness) returns the exact mirror ray.
pub proof fn lemma_metal_mirror()
    ensures
        reflect_v(V3 { x: 65536, y: -65536, z: 0 }, V3 { x: 0, y: 65536, z: 0 }) == (V3 {
            x: 65536,
            y: 65536,
            z: 0,
        }),
{
    let d = V3 { x: 65536, y: -65536, z: 0 };
    let n = V3 { x: 0, y: 65536, z: 0 };
    lemma_fxm_zero(65536);
    lemma_fxm_zero(0);
    crate::fx::lemma_fxm_neg_unit(65536);
    assert(dot_v(d, n) == -65536);
    crate::fx::lemma_fxm_unit(-131072);
    lemma_fxm_zero(-131072);
}

/// Reflects `v` about `normal`.
fn reflect(v: &Vec3, normal: &Vec3) -> (r: Vec3)
    requires
        bounded_v(v3(*v), DMAX as int),
        bounded_v(v3(*normal), 131072),
    ensures
        v3(r) == reflect_v(v3(*v), v3(*normal)),
        bounded_v(v3(r), 0x4000_0000),
{
    proof {
        lemma_fxm_bound(v.x as int, normal.x as int, DMAX as int, 131072);
        lemma_fxm_bound(v.y as int, normal.y as int, DMAX as int, 131072);
        lemma_fxm_bound(v.z as int, normal.z as int, DMAX as int, 131072);
    }
    let dn = v.dot(normal);
    proof {
        lemma_fxm_bound(2 * dn as int, normal.x as int, 0x1E00_0000, 131072);
        lemma_fxm_bound(2 * dn as int, normal.y as int, 0x1E00_0000, 131072);
        lemma_fxm_bound(2 * dn as int, normal.z as int, 0x1E00_0000, 131072);
    }
    let scaled = normal.scale(2 * dn);
    v.sub(&scaled)
}

/// Refracts the unit direction `u` about `normal` with the given ratio.
fn refract(u: &Vec3, normal: &Vec3, ratio: i64) -> (r: Vec3)
    requires
        bounded_v(v3(*u), 131072),
        bounded_v(v3(*normal), 131072),
        1 <= ratio <= 524288,
    ensures
        v3(r) == refract_v(v3(*u), v3(*normal), ratio as int),
{
    proof {
        reveal(refract_v);
        lemma_fxm_bound(u.x as int, normal.x as int, 131072, 131072);
        lemma_fxm_bound(u.y as int, normal.y as int, 131072, 131072);
        lemma_fxm_bound(u.z as int, normal.z as int, 131072, 131072);
    }
    let d0 = u.dot(normal);
    let m = if d0 < SCALE {
        d0
    } else {
        SCALE
    };
    let cos = -m;
    proof {
        lemma_fxm_bound(cos as int, normal.x as int, 0x10_0000, 131072);
        lemma_fxm_bound(cos as int, normal.y as int, 0x10_0000, 131072);
        lemma_fxm_bound(cos as int, normal.z as int, 0x10_0000, 131072);
    }
    let cn = normal.scale(cos);
    let sum = u.add(&cn);
    proof {
        lemma_fxm_bound(ratio as int, sum.x as int, 524288, 0x22_0000);
        lemma_fxm_bound(ratio as int, sum.y as int, 524288, 0x22_0000);
        lemma_fxm_bound(ratio as int, sum.z as int, 524288, 0x22_0000);
    }
    let rp = sum.scale(ratio);
    proof {
        reveal(crate::vector::len_v);
        lemma_fxm_bound(rp.x as int, rp.x as int, 0x110_0000, 0x110_0000);
        lemma_fxm_bound(rp.y as int, rp.y as int, 0x110_0000, 0x110_0000);
        lemma_fxm_bound(rp.z as int, rp.z as int, 0x110_0000, 0x110_0000);
        crate::vector::lemma_dot_self_nonneg(v3(rp));
    }
    let lp = rp.len();
    proof {
        lemma_isq_le(dot_v(v3(rp), v3(rp)), lp as int, 0x200_0000);
        lemma_fxm_bound(lp as int, lp as int, 0x200_0000, 0x200_0000);
    }
    let k = SCALE - fx_mul(lp, lp);
    let ka = if k < 0 {
        -k
    } else {
        k
    };
    let par = fx_sqrt(ka);
    proof {
        lemma_isq_le(ka as int, par as int, 0x400_0000);
        lemma_fxm_bound(-par as int, normal.x as int, 0x400_0000, 131072);
        lemma_fxm_bound(-par as int, normal.y as int, 0x400_0000, 131072);
        lemma_fxm_bound(-par as int, normal.z as int, 0x400_0000, 131072);
    }
    let rpar = normal.scale(-par);
    rp.add(&rpar)
}

/// Schlick's reflectance approximation.
fn schlick(angle: i64, n: i64) -> (r: i64)
    requires
        mag(angle as int) <= 0x10_0000,
        1 <= n <= 524288,
    ensures
        r as int == schlick_v(angle as int, n as int),
{
    proof {
        reveal(schlick_v);
        lemma_fxd_bound((65536 - n) as int, (65536 + n) as int, 589824);
        lemma_one_sided_ratio((65536 - n) as int, (65536 + n) as int);
    }
    let t = fx_div(SCALE - n, SCALE + n);
    proof {
        lemma_fxm_bound(t as int, t as int, 65536, 65536);
        lemma_fxm_sq_nonneg(t as int);
    }
    let r0 = fx_mul(t, t);
    let p1 = SCALE - angle;
    proof {
        lemma_fxm_bound(p1 as int, p1 as int, 0x11_0000, 0x11_0000);
    }
    let p2 = fx_mul(p1, p1);
    proof {
        lemma_fxm_bound(p2 as int, p2 as int, 0x121_0000, 0x121_0000);
    }
    let p4 = fx_mul(p2, p2);
    proof {
        lemma_fxm_bound(p4 as int, p1 as int, 0x1_46C1_0000, 0x11_0000);
    }
    let p5 = fx_mul(p4, p1);
    proof {
        lemma_fxm_bound((65536 - r0) as int, p5 as int, 65536, 0x15_B300_0000);
    }
    r0 + fx_mul(SCALE - r0, p5)
}

/// A ratio of the form `a / b` with `|a| <= |b|` stays within one unit.
proof fn lemma_one_sided_ratio(a: int, b: int)
    requires
        1 <= mag(b),
        mag(a) <= mag(b),
    ensures
        mag(fxd(a, b)) <= 65536,
{
    lemma_fxd_bound(a, b, mag(a));
    lemma_mul_inequality(mag(a), mag(b), 65536);
    lemma_div_is_ordered(mag(a) * 65536, mag(b) * 65536, mag(b));
    lemma_div_by_multiple(65536, mag(b));
    assert(mag(b) * 65536 == 65536 * mag(b)) by (nonlinear_arith);
}

impl Lambertian {
    /// Diffuse scattering: always returns a reflection, aimed along the
    /// normal plus a random unit sample.
    pub fn scatter(&self, _incident_ray: &Ray, hit: &Hit) -> (r: Option<Reflection>)
        requires
            bounded_v(v3(hit.normal), 131072),
        ensures
            scatter_ok(Material::Lambertian(*self), *_incident_ray, hit.point, hit.normal, hit.front_face, r),
            r is Some,
    {
        let u = Vec3::rand_unit();
        let mut scatter_direction = hit.normal.add(&u);
        if scatter_direction.near_zero() {
            scatter_direction = hit.normal;
        }
        let reflected_ray = Ray::new(hit.point, scatter_direction);
        let result = Option::Some(Reflection { reflected_ray, attenuation: self.attenuation });
        proof {
            let gu = v3(u);
            assert(bounded_v(gu, 131072) && v3(scatter_direction) == lambertian_dir(
                v3(hit.normal),
                gu,
            ));
        }
        result
    }
}

impl Metal {
    /// Specular scattering: the mirror direction perturbed by the surface
    /// roughness; the ray is absorbed when the perturbed direction crosses
    /// below the surface.
    pub fn scatter(&self, incident_ray: &Ray, hit: &Hit) -> (r: Option<Reflection>)
        requires
            bounded_v(v3(hit.normal), 131072),
            bounded_v(v3(incident_ray.direction), DMAX as int),
            0 <= self.fuzz <= 65536,
        ensures
            scatter_ok(Material::Metal(*self), *incident_ray, hit.point, hit.normal, hit.front_face, r),
            self.fuzz == 0 ==> match r {
                Option::Some(refl) => v3(refl.reflected_ray.direction) == reflect_v(
                    v3(incident_ray.direction),
                    v3(hit.normal),
                ) && dot_v(reflect_v(v3(incident_ray.direction), v3(hit.normal)), v3(hit.normal))
                    > 0,
                Option::None => dot_v(
                    reflect_v(v3(incident_ray.direction), v3(hit.normal)),
                    v3(hit.normal),
                ) <= 0,
            },
    {
        let rf = reflect(&incident_ray.direction, &hit.normal);
        let u = Vec3::rand_unit();
        proof {
            lemma_fxm_bound(self.fuzz as int, u.x as int, 65536, 131072);
            lemma_fxm_bound(self.fuzz as int, u.y as int, 65536, 131072);
            lemma_fxm_bound(self.fuzz as int, u.z as int, 65536, 131072);
        }
        let fu = u.scale(self.fuzz);
        let reflected_direction = rf.add(&fu);
        let reflected_ray = Ray::new(hit.point, reflected_direction);
        proof {
            lemma_fxm_bound(reflected_direction.x as int, hit.normal.x as int, 0x4002_0000, 131072);
            lemma_fxm_bound(reflected_direction.y as int, hit.normal.y as int, 0x4002_0000, 131072);
            lemma_fxm_bound(reflected_direction.z as int, hit.normal.z as int, 0x4002_0000, 131072);
        }
        let dn = reflected_direction.dot(&hit.normal);
        proof {
            let gu = v3(u);
            assert(v3(reflected_direction) == metal_dir(
                v3(incident_ray.direction),
                v3(hit.normal),
                self.fuzz as int,
                gu,
            ));
            if self.fuzz == 0 {
                lemma_fxm_zero(gu.x);
                lemma_fxm_zero(gu.y);
                lemma_fxm_zero(gu.z);
                assert(v3(reflected_direction) == reflect_v(
                    v3(incident_ray.direction),
                    v3(hit.normal),
                ));
            }
        }
        if dn > 0 {
            Option::Some(Reflection { reflected_ray, attenuation: self.attenuation })
        } else {
            Option::None
        }
    }
}

impl Dielectric {
    /// Refractive scattering: reflect on total internal reflection or with
    /// the Schlick probability, refract otherwise; the attenuation is
    /// always pure white.
    #[verifier::rlimit(100)]
    #[verifier::spinoff_prover]
    pub fn scatter(&self, incident_ray: &Ray, hit: &Hit) -> (r: Option<Reflection>)
        requires
            bounded_v(v3(hit.normal), 131072),
            bounded_v(v3(incident_ray.direction), OPB as int),
            8192 <= self.refraction_ratio <= 524288,
        ensures
            scatter_ok(Material::Dielectric(*self), *incident_ray, hit.point, hit.normal, hit.front_face, r),
            r is Some,
    {
        let ratio = if hit.front_face {
            proof {
                lemma_fxd_bound(65536, self.refraction_ratio as int, 65536);
                lemma_div_is_ordered_by_denominator((65536 * 65536) as int, 8192, self.refraction_ratio as int);
                lemma_div_is_ordered_by_denominator((65536 * 65536) as int, self.refraction_ratio as int, 524288);
            }
            fx_div(SCALE, self.refraction_ratio)
        } else {
            self.refraction_ratio
        };
        let unit_direction = incident_ray.direction.normalise();
        proof {
            lemma_fxm_bound(unit_direction.x as int, hit.normal.x as int, 131072, 131072);
            lemma_fxm_bound(unit_direction.y as int, hit.normal.y as int, 131072, 131072);
            lemma_fxm_bound(unit_direction.z as int, hit.normal.z as int, 131072, 131072);
        }
        let d0 = unit_direction.dot(&hit.normal);
        let m = if d0 < SCALE {
            d0
        } else {
            SCALE
        };
        let cos_theta = -m;
        proof {
            lemma_fxm_bound(cos_theta as int, cos_theta as int, 0x10_0000, 0x10_0000);
        }
        let c2 = SCALE - fx_mul(cos_theta, cos_theta);
        let s2 = if c2 < 0 {
            0
        } else {
            c2
        };
        let sin_theta = fx_sqrt(s2);
        proof {
            lemma_isq_le(s2 as int, sin_theta as int, 65536);
            lemma_fxm_bound(ratio as int, sin_theta as int, 524288, 65536);
        }
        let rnd = crate::rng::rand_01();
        let scatter_direction = if fx_mul(ratio, sin_theta) > SCALE || schlick(cos_theta, ratio)
            > rnd {
            reflect(&unit_direction, &hit.normal)
        } else {
            refract(&unit_direction, &hit.normal, ratio)
        };
        let refracted_ray = Ray::new(hit.point, scatter_direction);
        let white = Vec3 { x: SCALE, y: SCALE, z: SCALE };
        let result = Option::Some(Reflection { reflected_ray: refracted_ray, attenuation: white });
        proof {
            reveal(dielectric_dir);
            let gd = dielectric_dir(
                v3(incident_ray.direction),
                v3(hit.normal),
                hit.front_face,
                self.refraction_ratio as int,
                rnd as int,
            );
            assert(v3(scatter_direction) == gd);
            match result {
                Option::Some(refl) => {
                    assert(v3(refl.attenuation) == white_v());
                    assert(refl.reflected_ray.origin == hit.point);
                    assert(v3(refl.reflected_ray.direction) == gd);
                    assert(exists|rv: int|
                        0 <= rv && rv < 65536 && v3(refl.reflected_ray.direction)
                            == dielectric_dir(
                            v3(incident_ray.direction),
                            v3(hit.normal),
                            hit.front_face,
                            self.refraction_ratio as int,
                            rv,
                        ));
                    assert(dielectric_refl_ok(
                        *self,
                        *incident_ray,
                        hit.point,
                        hit.normal,
                        hit.front_face,
                        refl,
                    ));
                },
                Option::None => {
                    assert(false);
                },
            }
            assert(scatter_ok(
                Material::Dielectric(*self),
                *incident_ray,
                hit.point,
                hit.normal,
                hit.front_face,
                result,
            ));
        }
        result
    }
}

impl Material {
    /// Dispatches to the variant's scatter rule.
    pub fn scatter(&self, incident_ray: &Ray, hit: &Hit) -> (r: Option<Reflection>)
        requires
            material_ok(*self),
            bounded_v(v3(hit.normal), 131072),
            bounded_v(v3(incident_ray.direction), DMAX as int),
        ensures
            scatter_ok(*self, *incident_ray, hit.point, hit.normal, hit.front_face, r),
            match r {
                Option::Some(refl) => colour01(v3(refl.attenuation)) && refl.reflected_ray.origin
                    == hit.point,
                Option::None => true,
            },
    {
        match self {
            Material::Lambertian(l) => l.scatter(incident_ray, hit),
            Material::Metal(mt) => mt.scatter(incident_ray, hit),
            Material::Dielectric(d) => d.scatter(incident_ray, hit),
        }
    }
}

} // verus!
