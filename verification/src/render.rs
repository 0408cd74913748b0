//! The render driver: per-pixel sampling, averaging, gamma mapping, and
//! the classic randomised demonstration scene.

use vstd::prelude::*;
use vstd::arithmetic::div_mod::{lemma_div_is_ordered, lemma_div_by_multiple, lemma_div_pos_is_pos, lemma_fundamental_div_mod_converse};
use vstd::arithmetic::mul::lemma_mul_nonnegative;
use crate::fx::{SCALE, HALF, mag, fxm, fxd, isq, lemma_fxm_bound, lemma_fxd_bound, lemma_isq_le, fx_mul, fx_div, fx_sqrt};
use crate::vector::{Vec3, V3, v3, add_v, zero_v};
use crate::ray::{colour, radiance_ok, Ray};
use crate::camera::{Camera, camera_ok, primary_ray_ok};
use crate::object::{Scene, Sphere, scene_ok, sphere_ok};
use crate::material::{Material, Lambertian, Metal, Dielectric, colour01};
use crate::rng::rand_01;

verus! {

/// The 8-bit channel value for a raw colour component in `[0, 1]`:
/// gamma-corrected by a square root, scaled just below 256 and floored.
pub open spec fn gamma8(c: int) -> int {
    (isq(c * 65536) * 255999) / 65536000
}

/// Maps a finished pixel colour to its three 8-bit channels.
pub fn to_rgb8(c: &Vec3) -> (r: (u8, u8, u8))
    requires
        colour01(v3(*c)),
    ensures
        r.0 as int == gamma8(c.x as int),
        r.1 as int == gamma8(c.y as int),
        r.2 as int == gamma8(c.z as int),
{
    (gamma_channel(c.x), gamma_channel(c.y), gamma_channel(c.z))
}

/// One channel of the gamma mapping.
fn gamma_channel(c: i64) -> (r: u8)
    requires
        0 <= c <= 65536,
    ensures
        r as int == gamma8(c as int),
{
    let s = fx_sqrt(c);
    proof {
        lemma_isq_le(c as int, s as int, 65536);
        lemma_mul_nonnegative(s as int, 255999);
        lemma_div_pos_is_pos(s as int * 255999, 65536000);
        lemma_div_is_ordered(s as int * 255999, (65536 * 255999) as int, 65536000);
    }
    let v = (s * 255999) / 65536000;
    v as u8
}

/// `c` is an admissible radiance sample of pixel `(x, y)`: the radiance
/// of a primary ray that the camera casts through some jittered
/// coordinate of that pixel's cell.
pub open spec fn pixel_sample_ok(
    scene: Scene,
    camera: Camera,
    x: int,
    width: int,
    y: int,
    height: int,
    depth: u8,
    c: Vec3,
) -> bool {
    exists|iu: int, jv: int, ray: Ray|
        in_pixel_cell(x, width, iu) && in_pixel_cell(y, height, jv) && #[trigger] primary_ray_ok(
            camera,
            iu,
            jv,
            ray,
        ) && radiance_ok(scene, ray, depth, c)
}

/// The componentwise sum of a sequence of colours.
pub open spec fn seq_sum(cols: Seq<Vec3>) -> V3
    decreases cols.len(),
{
    if cols.len() == 0 {
        zero_v()
    } else {
        add_v(seq_sum(cols.drop_last()), v3(cols.last()))
    }
}

/// The truncated componentwise average of `n` colours.
pub open spec fn avg_of(cols: Seq<Vec3>, n: int) -> V3 {
    let t = seq_sum(cols);
    V3 { x: fxd(t.x, n * 65536), y: fxd(t.y, n * 65536), z: fxd(t.z, n * 65536) }
}

/// Renders one pixel: draws `samples` jittered rays through it, averages
/// the radiance they carry, and returns a colour with every component in
/// `[0, 1]`.  The result is pinned relationally: it is the truncated
/// average of `samples` admissible radiance samples of this pixel.
pub fn render_pixel(
    scene: &Scene,
    camera: &Camera,
    x: u32,
    y: u32,
    width: u32,
    height: u32,
    samples: u32,
    depth: u8,
) -> (r: Vec3)
    requires
        scene_ok(*scene),
        camera_ok(*camera),
        2 <= width <= 65536,
        2 <= height <= 65536,
        x < width,
        y < height,
        1 <= samples <= 65536,
    ensures
        colour01(v3(r)),
        exists|cols: Seq<Vec3>|
            cols.len() == samples as int && (forall|i: int|
                0 <= i < cols.len() ==> pixel_sample_ok(
                    *scene,
                    *camera,
                    x as int,
                    width as int,
                    y as int,
                    height as int,
                    depth,
                    #[trigger] cols[i],
                )) && v3(r) == avg_of(cols, samples as int),
{
    let mut sum = Vec3 { x: 0, y: 0, z: 0 };
    let mut s: u32 = 0;
    let ghost mut cols: Seq<Vec3> = Seq::empty();
    while s < samples
        invariant
            scene_ok(*scene),
            camera_ok(*camera),
            2 <= width <= 65536,
            2 <= height <= 65536,
            x < width,
            y < height,
            1 <= samples <= 65536,
            s <= samples,
            cols.len() == s as int,
            forall|i: int|
                0 <= i < cols.len() ==> pixel_sample_ok(
                    *scene,
                    *camera,
                    x as int,
                    width as int,
                    y as int,
                    height as int,
                    depth,
                    #[trigger] cols[i],
                ),
            v3(sum) == seq_sum(cols),
            0 <= sum.x <= s as int * 65536,
            0 <= sum.y <= s as int * 65536,
            0 <= sum.z <= s as int * 65536,
        decreases samples - s,
    {
        let u = jittered_coord(x, width);
        let v = jittered_coord(y, height);
        let ray = camera.get_ray(u, v);
        let col = colour(scene, &ray, depth);
        proof {
            assert(pixel_sample_ok(
                *scene,
                *camera,
                x as int,
                width as int,
                y as int,
                height as int,
                depth,
                col,
            )) by {
                assert(in_pixel_cell(x as int, width as int, u as int) && in_pixel_cell(
                    y as int,
                    height as int,
                    v as int,
                ) && primary_ray_ok(*camera, u as int, v as int, ray) && radiance_ok(
                    *scene,
                    ray,
                    depth,
                    col,
                ));
            }
        }
        sum = Vec3 { x: sum.x + col.x, y: sum.y + col.y, z: sum.z + col.z };
        proof {
            let prev = cols;
            cols = cols.push(col);
            assert(cols.drop_last() =~= prev);
            assert(cols.last() == col);
        }
        s = s + 1;
    }
    let sfx = (samples as i64) * SCALE;
    proof {
        lemma_fxd_bound(sum.x as int, sfx as int, 0x1_0000_0000);
        lemma_fxd_bound(sum.y as int, sfx as int, 0x1_0000_0000);
        lemma_fxd_bound(sum.z as int, sfx as int, 0x1_0000_0000);
        lemma_avg_le_one(sum.x as int, sfx as int);
        lemma_avg_le_one(sum.y as int, sfx as int);
        lemma_avg_le_one(sum.z as int, sfx as int);
    }
    let r = Vec3 { x: fx_div(sum.x, sfx), y: fx_div(sum.y, sfx), z: fx_div(sum.z, sfx) };
    proof {
        assert(v3(r) == avg_of(cols, samples as int));
    }
    r
}

/// An accumulated component of at most `n` units, divided by `n` units,
/// stays within one unit and keeps its sign.
proof fn lemma_avg_le_one(sum: int, n: int)
    requires
        65536 <= n,
        0 <= sum <= n,
    ensures
        0 <= fxd(sum, n) <= 65536,
{
    lemma_mul_nonnegative(sum, 65536);
    lemma_div_pos_is_pos(sum * 65536, n);
    crate::fx::lemma_fxd_bound(sum, n, sum);
    vstd::arithmetic::mul::lemma_mul_inequality(sum, n, 65536);
    lemma_div_is_ordered(sum * 65536, n * 65536, n);
    lemma_div_by_multiple(65536, n);
    assert(n * 65536 == 65536 * n) by (nonlinear_arith);
}

/// The normalised coordinate that pixel `p` on an axis of `extent` pixels
/// gets for the sub-pixel jitter `j`: the pixel index plus the jitter over
/// the axis span, clamped to the unit interval as the camera requires.
pub open spec fn jitter_val(p: int, extent: int, j: int) -> int {
    let q = fxd(p * 65536 + j, (extent - 1) * 65536);
    if q > 65536 {
        65536
    } else {
        q
    }
}

/// `u` is a coordinate of pixel `p`'s cell: the jittered value for some
/// sub-pixel offset in `[0, 1)`.
pub open spec fn in_pixel_cell(p: int, extent: int, u: int) -> bool {
    exists|j: int| 0 <= j < 65536 && u == #[trigger] jitter_val(p, extent, j)
}

/// The jittered normalised coordinate of pixel `p` on an axis of `extent`
/// pixels.
fn jittered_coord(p: u32, extent: u32) -> (r: i64)
    requires
        2 <= extent <= 65536,
        p < extent,
    ensures
        0 <= r <= 65536,
        in_pixel_cell(p as int, extent as int, r as int),
{
    let jit = rand_01();
    let num = (p as i64) * SCALE + jit;
    let den = ((extent - 1) as i64) * SCALE;
    proof {
        lemma_fxd_bound(num as int, den as int, 0x1_0002_0000);
        lemma_mul_nonnegative(num as int, 65536);
        lemma_div_pos_is_pos(num as int * 65536, den as int);
    }
    let c = fx_div(num, den);
    let r = if c > SCALE {
        SCALE
    } else {
        c
    };
    proof {
        assert(r as int == jitter_val(p as int, extent as int, jit as int));
    }
    r
}

/// The grey diffuse ground sphere the demonstration scene rests on.
pub open spec fn ground_sphere() -> Sphere {
    Sphere {
        centre: Vec3 { x: 0, y: -65536000i64, z: 0 },
        radius: 65536000,
        material: Material::Lambertian(
            Lambertian { attenuation: Vec3 { x: 32768, y: 32768, z: 32768 } },
        ),
    }
}

/// The three large feature spheres: glass at the centre, diffuse brown on
/// the left, polished metal on the right.
pub open spec fn feature_spheres() -> (Sphere, Sphere, Sphere) {
    (
        Sphere {
            centre: Vec3 { x: 0, y: 65536, z: 0 },
            radius: 65536,
            material: Material::Dielectric(Dielectric { refraction_ratio: 98304 }),
        },
        Sphere {
            centre: Vec3 { x: -262144i64, y: 65536, z: 0 },
            radius: 65536,
            material: Material::Lambertian(
                Lambertian { attenuation: Vec3 { x: 26214, y: 13107, z: 6554 } },
            ),
        },
        Sphere {
            centre: Vec3 { x: 262144, y: 65536, z: 0 },
            radius: 65536,
            material: Material::Metal(
                Metal { attenuation: Vec3 { x: 45875, y: 39322, z: 32768 }, fuzz: 0 },
            ),
        },
    )
}

/// A material the grid of small spheres may carry: a diffuse sphere with
/// albedo below one, a metal sphere with albedo in the upper half and
/// roughness below one half, or standard glass.
pub open spec fn grid_material_ok(m: Material) -> bool {
    match m {
        Material::Lambertian(l) => 0 <= l.attenuation.x < 65536 && 0 <= l.attenuation.y < 65536
            && 0 <= l.attenuation.z < 65536,
        Material::Metal(mt) => 32768 <= mt.attenuation.x < 65536 && 32768 <= mt.attenuation.y
            < 65536 && 32768 <= mt.attenuation.z < 65536 && 0 <= mt.fuzz < 32768,
        Material::Dielectric(d) => d.refraction_ratio == 98304,
    }
}

/// A small sphere of grid cell `(a, b)`: radius and height of one fifth
/// of a unit, centre offset into the cell by less than nine tenths, and a
/// material of one of the three grid classes.
pub open spec fn grid_sphere_ok(s: Sphere, a: int, b: int) -> bool {
    s.radius == 13107 && s.centre.y == 13107 && a * 65536 <= s.centre.x as int <= a * 65536
        + 58981 && b * 65536 <= s.centre.z as int <= b * 65536 + 58981 && grid_material_ok(
        s.material,
    )
}

/// Builds the demonstration scene: the ground sphere first, then a grid
/// of small spheres with randomised positions and materials (one per cell
/// of a 22-by-22 grid), and the three feature spheres last.  Every sphere
/// built satisfies the tracer's validity bounds.
pub fn random_scene() -> (r: Scene)
    ensures
        scene_ok(r),
        r.objects@.len() == 488,
        r.objects@[0] == ground_sphere(),
        forall|i: int|
            1 <= i < 485 ==> grid_sphere_ok(
                #[trigger] r.objects@[i],
                (i - 1) / 22 - 11,
                (i - 1) % 22 - 11,
            ),
        r.objects@[485] == feature_spheres().0,
        r.objects@[486] == feature_spheres().1,
        r.objects@[487] == feature_spheres().2,
{
    let mut objects: Vec<Sphere> = Vec::new();
    let ground = Sphere {
        centre: Vec3 { x: 0, y: -65536000, z: 0 },
        radius: 65536000,
        material: Material::Lambertian(Lambertian { attenuation: Vec3 { x: 32768, y: 32768, z: 32768 } }),
    };
    objects.push(ground);
    let mut a: i64 = -11;
    while a < 11
        invariant
            -11 <= a <= 11,
            objects@.len() == 1 + (a + 11) * 22,
            objects@[0] == ground_sphere(),
            forall|i: int| 0 <= i < objects@.len() ==> sphere_ok(#[trigger] objects@[i]),
            forall|i: int|
                1 <= i < objects@.len() ==> grid_sphere_ok(
                    #[trigger] objects@[i],
                    (i - 1) / 22 - 11,
                    (i - 1) % 22 - 11,
                ),
        decreases 11 - a,
    {
        let mut b: i64 = -11;
        while b < 11
            invariant
                -11 <= a < 11,
                -11 <= b <= 11,
                objects@.len() == 1 + (a + 11) * 22 + (b + 11),
                objects@[0] == ground_sphere(),
                forall|i: int| 0 <= i < objects@.len() ==> sphere_ok(#[trigger] objects@[i]),
                forall|i: int|
                    1 <= i < objects@.len() ==> grid_sphere_ok(
                        #[trigger] objects@[i],
                        (i - 1) / 22 - 11,
                        (i - 1) % 22 - 11,
                    ),
            decreases 11 - b,
        {
            proof {
                lemma_small_nonneg_products();
            }
            let material_choice = rand_01();
            let jx = rand_01();
            let jz = rand_01();
            proof {
                lemma_fxm_bound(58982, jx as int, 58982, 65535);
                lemma_fxm_bound(58982, jz as int, 58982, 65535);
            }
            let centre = Vec3 {
                x: a * SCALE + fx_mul(58982, jx),
                y: 13107,
                z: b * SCALE + fx_mul(58982, jz),
            };
            let material = if material_choice < 52429 {
                Material::Lambertian(Lambertian {
                    attenuation: Vec3 { x: rand_01(), y: rand_01(), z: rand_01() },
                })
            } else if material_choice < 62259 {
                let cr = rand_01();
                let cg = rand_01();
                let cb = rand_01();
                let fz = rand_01();
                proof {
                    lemma_fxm_bound(32768, cr as int, 32768, 65535);
                    lemma_fxm_bound(32768, cg as int, 32768, 65535);
                    lemma_fxm_bound(32768, cb as int, 32768, 65535);
                    lemma_fxm_bound(32768, fz as int, 32768, 65535);
                }
                Material::Metal(Metal {
                    attenuation: Vec3 {
                        x: 32768 + fx_mul(HALF, cr),
                        y: 32768 + fx_mul(HALF, cg),
                        z: 32768 + fx_mul(HALF, cb),
                    },
                    fuzz: fx_mul(HALF, fz),
                })
            } else {
                Material::Dielectric(Dielectric { refraction_ratio: 98304 })
            };
            let sphere = Sphere { centre, radius: 13107, material };
            proof {
                let idx = objects@.len() as int;
                lemma_fundamental_div_mod_converse(idx - 1, 22, a + 11, b + 11);
                assert(grid_sphere_ok(sphere, a as int, b as int));
            }
            objects.push(sphere);
            b = b + 1;
        }
        a = a + 1;
    }
    objects.push(
        Sphere {
            centre: Vec3 { x: 0, y: 65536, z: 0 },
            radius: 65536,
            material: Material::Dielectric(Dielectric { refraction_ratio: 98304 }),
        },
    );
    objects.push(
        Sphere {
            centre: Vec3 { x: -262144i64, y: 65536, z: 0 },
            radius: 65536,
            material: Material::Lambertian(Lambertian { attenuation: Vec3 { x: 26214, y: 13107, z: 6554 } }),
        },
    );
    objects.push(
        Sphere {
            centre: Vec3 { x: 262144, y: 65536, z: 0 },
            radius: 65536,
            material: Material::Metal(Metal { attenuation: Vec3 { x: 45875, y: 39322, z: 32768 }, fuzz: 0 }),
        },
    );
    Scene::new(objects)
}

/// The products the scene builder takes of nonnegative raw values stay
/// nonnegative.
proof fn lemma_small_nonneg_products()
    ensures
        forall|a: int, b: int| 0 <= a && 0 <= b ==> 0 <= #[trigger] fxm(a, b),
{
    assert forall|a: int, b: int| 0 <= a && 0 <= b implies 0 <= #[trigger] fxm(a, b) by {
        lemma_mul_nonnegative(mag(a), mag(b));
        lemma_div_pos_is_pos(mag(a) * mag(b), 65536);
    }
}

} // verus!
