use pathtracer::camera::Camera;
use pathtracer::fx::{fx_div, fx_mul, fx_sqrt, SCALE};
use pathtracer::material::{Dielectric, Lambertian, Material, Metal};
use pathtracer::object::{Hit, Scene, Sphere, TMAX};
use pathtracer::ray::{colour, Ray};
use pathtracer::render::{random_scene, render_pixel, to_rgb8};
use pathtracer::vector::Vec3;

fn v(x: i64, y: i64, z: i64) -> Vec3 {
    Vec3 { x, y, z }
}

fn bare_hit(point: Vec3, normal: Vec3, t: i64, front_face: bool) -> Hit {
    Hit { point, normal, t, front_face, reflection: None }
}

#[test]
fn fx_mul_rescales_exactly() {
    assert_eq!(fx_mul(131072, 98304), 196608);
    assert_eq!(fx_mul(-131072, 98304), -196608);
    assert_eq!(fx_mul(0, 12345), 0);
}

#[test]
fn fx_div_rescales_exactly() {
    assert_eq!(fx_div(196608, 131072), 98304);
    assert_eq!(fx_div(-65536, 131072), -32768);
}

#[test]
fn fx_sqrt_of_whole_squares() {
    assert_eq!(fx_sqrt(262144), 131072);
    assert_eq!(fx_sqrt(65536), 65536);
    assert_eq!(fx_sqrt(0), 0);
}

#[test]
fn dot_and_cross_products() {
    let a = v(65536, 131072, 0);
    let b = v(196608, 65536, 0);
    assert_eq!(a.dot(&b), 196608 + 131072);
    let x = v(65536, 0, 0);
    let y = v(0, 65536, 0);
    let c = x.cross(&y);
    assert_eq!((c.x, c.y, c.z), (0, 0, 65536));
}

#[test]
fn len_of_three_four_five_triangle() {
    let a = v(196608, 262144, 0);
    assert_eq!(a.len(), 327680);
}

#[test]
fn normalise_scales_axis_vector() {
    let a = v(196608, 0, 0);
    let n = a.normalise();
    assert_eq!((n.x, n.y, n.z), (65536, 0, 0));
}

#[test]
fn near_zero_only_for_zero_vector() {
    assert!(v(0, 0, 0).near_zero());
    assert!(!v(1, 0, 0).near_zero());
}

#[test]
fn rand_unit_stays_bounded() {
    for _ in 0..100 {
        let u = Vec3::rand_unit();
        assert!(u.x.abs() <= 131072);
        assert!(u.y.abs() <= 131072);
        assert!(u.z.abs() <= 131072);
    }
}

#[test]
fn ray_at_zero_is_origin() {
    let r = Ray::new(v(65536, 131072, 196608), v(65536, -65536, 0));
    let p = r.at(0);
    assert_eq!((p.x, p.y, p.z), (65536, 131072, 196608));
}

#[test]
fn ray_at_is_affine_in_whole_steps() {
    let r = Ray::new(v(65536, 131072, 196608), v(65536, -65536, 0));
    let p = r.at(2 * 65536);
    assert_eq!((p.x, p.y, p.z), (196608, 0, 196608));
}

#[test]
fn metal_with_no_fuzz_mirrors_exactly() {
    let m = Metal { attenuation: v(45875, 39322, 32768), fuzz: 0 };
    let incident = Ray::new(v(-65536, 65536, 0), v(65536, -65536, 0));
    let hit = bare_hit(v(0, 0, 0), v(0, 65536, 0), 65536, true);
    let refl = m.scatter(&incident, &hit).expect("mirror reflection must scatter");
    let d = refl.reflected_ray.direction;
    assert_eq!((d.x, d.y, d.z), (65536, 65536, 0));
    assert_eq!(refl.attenuation, v(45875, 39322, 32768));
    assert_eq!(refl.reflected_ray.origin, v(0, 0, 0));
}

#[test]
fn metal_absorbs_rays_reflected_below_surface() {
    let m = Metal { attenuation: v(45875, 39322, 32768), fuzz: 0 };
    let incident = Ray::new(v(0, -65536, 0), v(65536, 65536, 0));
    let hit = bare_hit(v(0, 0, 0), v(0, 65536, 0), 65536, true);
    assert!(m.scatter(&incident, &hit).is_none());
}

#[test]
fn lambertian_always_scatters() {
    let l = Lambertian { attenuation: v(32768, 32768, 32768) };
    let incident = Ray::new(v(0, 65536, 0), v(0, -65536, 0));
    let hit = bare_hit(v(0, 0, 0), v(0, 65536, 0), 65536, true);
    for _ in 0..100 {
        let refl = l.scatter(&incident, &hit).expect("diffuse scatter never absorbs");
        assert_eq!(refl.attenuation, v(32768, 32768, 32768));
        assert_eq!(refl.reflected_ray.origin, v(0, 0, 0));
    }
}

#[test]
fn dielectric_attenuation_is_always_white() {
    let d = Dielectric { refraction_ratio: 98304 };
    let incident = Ray::new(v(0, 65536, 0), v(0, -65536, 0));
    let hit = bare_hit(v(0, 0, 0), v(0, 65536, 0), 65536, true);
    for _ in 0..100 {
        let refl = d.scatter(&incident, &hit).expect("dielectric always scatters");
        assert_eq!(refl.attenuation, v(65536, 65536, 65536));
    }
}

#[test]
fn head_on_ray_hits_at_distance_minus_radius() {
    let s = Sphere {
        centre: v(0, 0, 0),
        radius: 65536,
        material: Material::Lambertian(Lambertian { attenuation: v(32768, 32768, 32768) }),
    };
    let ray = Ray::new(v(0, 0, 786432), v(0, 0, -65536));
    let h = s.hit(&ray, (1, TMAX)).expect("head-on ray must hit");
    assert_eq!(h.t, 786432 - 65536);
    assert_eq!((h.point.x, h.point.y, h.point.z), (0, 0, 65536));
    assert_eq!((h.normal.x, h.normal.y, h.normal.z), (0, 0, 65536));
    assert!(h.front_face);
}

#[test]
fn ray_from_inside_reports_back_face() {
    let s = Sphere {
        centre: v(0, 0, 0),
        radius: 65536,
        material: Material::Lambertian(Lambertian { attenuation: v(32768, 32768, 32768) }),
    };
    let ray = Ray::new(v(0, 0, 0), v(0, 0, -65536));
    let h = s.hit(&ray, (1, TMAX)).expect("ray from the centre must hit the shell");
    assert_eq!(h.t, 65536);
    assert!(!h.front_face);
    assert_eq!((h.normal.x, h.normal.y, h.normal.z), (0, 0, 65536));
    assert_eq!((h.point.x, h.point.y, h.point.z), (0, 0, -65536));
}

#[test]
fn offset_interior_ray_reports_back_face() {
    let s = Sphere {
        centre: v(0, 0, 0),
        radius: 65536,
        material: Material::Lambertian(Lambertian { attenuation: v(32768, 32768, 32768) }),
    };
    let ray = Ray::new(v(0, 0, 32768), v(0, 0, -65536));
    let h = s.hit(&ray, (1, TMAX)).expect("interior ray must hit the shell");
    assert_eq!(h.t, 98304);
    assert!(!h.front_face);
    assert_eq!((h.normal.x, h.normal.y, h.normal.z), (0, 0, 65536));
    assert_eq!((h.point.x, h.point.y, h.point.z), (0, 0, -65536));
}

#[test]
fn central_ray_scenario() {
    let s = Sphere {
        centre: v(0, 0, -65536),
        radius: 32768,
        material: Material::Lambertian(Lambertian { attenuation: v(32768, 32768, 32768) }),
    };
    let scene = Scene::new(vec![s]);
    let ray = Ray::new(v(0, 0, 0), v(0, 0, -65536));
    let h = scene.hit(&ray, (1, TMAX)).expect("central ray must hit the sphere");
    assert_eq!(h.t, 32768);
    assert_eq!((h.point.x, h.point.y, h.point.z), (0, 0, -32768));
    assert_eq!((h.normal.x, h.normal.y, h.normal.z), (0, 0, 65536));
    assert!(h.front_face);
}

#[test]
fn scene_reports_closest_hit() {
    let mat = Material::Lambertian(Lambertian { attenuation: v(32768, 32768, 32768) });
    let near = Sphere { centre: v(0, 0, -131072), radius: 32768, material: mat };
    let far = Sphere { centre: v(0, 0, -327680), radius: 32768, material: mat };
    let scene = Scene::new(vec![far, near]);
    let ray = Ray::new(v(0, 0, 0), v(0, 0, -65536));
    let h = scene.hit(&ray, (1, TMAX)).expect("one of the spheres must be hit");
    assert_eq!(h.t, 98304);
}

#[test]
fn radiance_is_black_at_depth_zero() {
    let s = Sphere {
        centre: v(0, 0, -65536),
        radius: 32768,
        material: Material::Lambertian(Lambertian { attenuation: v(32768, 32768, 32768) }),
    };
    let scene = Scene::new(vec![s]);
    let ray = Ray::new(v(0, 0, 0), v(0, 0, -65536));
    let c = colour(&scene, &ray, 0);
    assert_eq!((c.x, c.y, c.z), (0, 0, 0));
}

#[test]
fn radiance_of_missing_ray_is_background_gradient() {
    let scene = Scene::new(vec![]);
    let up = colour(&scene, &Ray::new(v(0, 0, 0), v(0, 65536, 0)), 8);
    assert_eq!((up.x, up.y, up.z), (32768, 45875, 65536));
    let down = colour(&scene, &Ray::new(v(0, 0, 0), v(0, -65536, 0)), 8);
    assert_eq!((down.x, down.y, down.z), (65536, 65536, 65536));
    let level = colour(&scene, &Ray::new(v(0, 0, 0), v(0, 0, -65536)), 8);
    assert_eq!((level.x, level.y, level.z), (49152, 55705, 65536));
}

#[test]
fn pinhole_camera_is_deterministic() {
    let cam = Camera::new(
        v(0, 0, 0),
        v(0, 0, -65536),
        v(0, 65536, 0),
        65536,
        65536,
        0,
        65536,
    );
    let r = cam.get_ray(32768, 32768);
    assert_eq!((r.origin.x, r.origin.y, r.origin.z), (0, 0, 0));
    assert_eq!((r.direction.x, r.direction.y, r.direction.z), (0, 0, -65536));
}

#[test]
fn gamma_mapping_hits_exact_channels() {
    let white = to_rgb8(&v(SCALE, SCALE, SCALE));
    assert_eq!(white, (255, 255, 255));
    let quarter = to_rgb8(&v(16384, 16384, 16384));
    assert_eq!(quarter, (127, 127, 127));
    let black = to_rgb8(&v(0, 0, 0));
    assert_eq!(black, (0, 0, 0));
}

#[test]
fn rendered_pixel_stays_plausible() {
    let s = Sphere {
        centre: v(0, 0, -131072),
        radius: 32768,
        material: Material::Lambertian(Lambertian { attenuation: v(32768, 26214, 19661) }),
    };
    let scene = Scene::new(vec![s]);
    let cam = Camera::new(
        v(0, 0, 0),
        v(0, 0, -65536),
        v(0, 65536, 0),
        65536,
        65536,
        0,
        65536,
    );
    let px = render_pixel(&scene, &cam, 1, 1, 4, 4, 8, 6);
    for c in [px.x, px.y, px.z] {
        assert!((0..=65536).contains(&c));
    }
}

#[test]
fn averaging_converges_for_a_quiet_scene() {
    let scene = Scene::new(vec![]);
    let cam = Camera::new(
        v(0, 0, 0),
        v(0, 0, -65536),
        v(0, 65536, 0),
        65536,
        65536,
        0,
        65536,
    );
    let small = render_pixel(&scene, &cam, 2, 2, 8, 8, 16, 4);
    let large = render_pixel(&scene, &cam, 2, 2, 8, 8, 1024, 4);
    for (a, b) in [(small.x, large.x), (small.y, large.y), (small.z, large.z)] {
        assert!((a - b).abs() < 8192, "sample averages drifted: {} vs {}", a, b);
    }
}

#[test]
fn demonstration_scene_is_valid() {
    let scene = random_scene();
    assert_eq!(scene.objects.len(), 488);

    let ground = &scene.objects[0];
    assert_eq!((ground.centre.x, ground.centre.y, ground.centre.z), (0, -65536000, 0));
    assert_eq!(ground.radius, 65536000);
    match ground.material {
        Material::Lambertian(l) => assert_eq!(l.attenuation, v(32768, 32768, 32768)),
        _ => panic!("ground sphere must be diffuse"),
    }

    for (i, s) in scene.objects.iter().enumerate().take(485).skip(1) {
        let a = ((i - 1) / 22) as i64 - 11;
        let b = ((i - 1) % 22) as i64 - 11;
        assert_eq!(s.radius, 13107);
        assert_eq!(s.centre.y, 13107);
        assert!(a * 65536 <= s.centre.x && s.centre.x <= a * 65536 + 58981);
        assert!(b * 65536 <= s.centre.z && s.centre.z <= b * 65536 + 58981);
        match s.material {
            Material::Lambertian(l) => {
                for c in [l.attenuation.x, l.attenuation.y, l.attenuation.z] {
                    assert!((0..65536).contains(&c));
                }
            },
            Material::Metal(m) => {
                for c in [m.attenuation.x, m.attenuation.y, m.attenuation.z] {
                    assert!((32768..65536).contains(&c));
                }
                assert!((0..32768).contains(&m.fuzz));
            },
            Material::Dielectric(d) => assert_eq!(d.refraction_ratio, 98304),
        }
    }

    let glass = &scene.objects[485];
    assert_eq!((glass.centre.x, glass.centre.y, glass.centre.z), (0, 65536, 0));
    assert_eq!(glass.radius, 65536);
    assert!(matches!(glass.material, Material::Dielectric(d) if d.refraction_ratio == 98304));

    let brown = &scene.objects[486];
    assert_eq!((brown.centre.x, brown.centre.y, brown.centre.z), (-262144, 65536, 0));
    assert!(matches!(brown.material, Material::Lambertian(l) if l.attenuation == v(26214, 13107, 6554)));

    let mirror = &scene.objects[487];
    assert_eq!((mirror.centre.x, mirror.centre.y, mirror.centre.z), (262144, 65536, 0));
    assert!(matches!(mirror.material, Material::Metal(m) if m.attenuation == v(45875, 39322, 32768) && m.fuzz == 0));
}
