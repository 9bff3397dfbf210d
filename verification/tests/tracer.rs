use raytracer::renderer::render_frame;
use raytracer::scene::{Canvas, SceneOptions};
use raytracer::tracer::{first_hit, gather_light, trace};
use raytracer::utils::rgb::RGB;
use std::cell::Cell;

const BACKGROUND: RGB = RGB { r: 178, g: 178, b: 178 };

fn options(limit: usize) -> SceneOptions {
    SceneOptions { reflections_limit: limit, background_color: BACKGROUND }
}

#[test]
fn past_the_limit_the_background_comes_back_and_nothing_is_called() {
    let calls = Cell::new(0usize);
    let find = |ray: u32| {
        calls.set(calls.get() + 1);
        Some((ray, ray, ray))
    };
    let shade = |_: u32, _: RGB, _: RGB| {
        calls.set(calls.get() + 1);
        RGB::new(1, 2, 3)
    };
    assert_eq!(trace(&options(4), &find, &shade, 0, 5), BACKGROUND);
    assert_eq!(trace(&options(0), &find, &shade, 0, 1), BACKGROUND);
    assert_eq!(trace(&options(4), &find, &shade, 0, usize::MAX), BACKGROUND);
    assert_eq!(calls.get(), 0);
}

#[test]
fn a_ray_that_hits_nothing_gets_the_background() {
    let shaded = Cell::new(0usize);
    let find = |_: u32| -> Option<(u32, u32, u32)> { None };
    let shade = |_: u32, _: RGB, _: RGB| {
        shaded.set(shaded.get() + 1);
        RGB::new(1, 2, 3)
    };
    assert_eq!(trace(&options(4), &find, &shade, 7, 0), BACKGROUND);
    assert_eq!(shaded.get(), 0);
}

#[test]
fn a_hit_is_shaded_with_what_its_two_rays_bring_back() {
    let find = |ray: u32| if ray == 0 { Some((10u32, 1u32, 2u32)) } else { None };
    let shade = |hit: u32, mirrored: RGB, bent: RGB| {
        assert_eq!(hit, 10);
        RGB::new(mirrored.r / 2, bent.g / 2 + 1, 9)
    };
    assert_eq!(trace(&options(4), &find, &shade, 0, 0), RGB::new(89, 90, 9));
}

#[test]
fn at_the_limit_both_rays_bring_back_the_background() {
    let found = Cell::new(0usize);
    let find = |ray: u32| {
        found.set(found.get() + 1);
        Some((ray, ray + 1, ray + 2))
    };
    let shade = |_: u32, mirrored: RGB, bent: RGB| {
        assert_eq!(mirrored, BACKGROUND);
        assert_eq!(bent, BACKGROUND);
        RGB::new(5, 6, 7)
    };
    assert_eq!(trace(&options(3), &find, &shade, 0, 3), RGB::new(5, 6, 7));
    assert_eq!(found.get(), 1);
    assert_eq!(trace(&options(usize::MAX), &find, &shade, 0, usize::MAX), RGB::new(5, 6, 7));
}

#[test]
fn the_recursion_stops_at_the_limit() {
    for limit in 0..6u32 {
        let found = Cell::new(0usize);
        let deepest = Cell::new(0u32);
        let find = |level: u32| {
            found.set(found.get() + 1);
            deepest.set(deepest.get().max(level));
            Some((level, level + 1, level + 1))
        };
        let shade = |_: u32, mirrored: RGB, bent: RGB| {
            RGB::new(mirrored.r.wrapping_add(1), bent.g.wrapping_add(2), 0)
        };
        let color = trace(&options(limit as usize), &find, &shade, 0, 0);
        assert_eq!(found.get(), (1usize << (limit + 1)) - 1);
        assert_eq!(deepest.get(), limit);
        assert_eq!(color, RGB::new(178 + limit as u8 + 1, 178 + 2 * (limit as u8 + 1), 0));
    }
}

#[test]
fn reflected_and_refracted_rays_are_traced_in_their_own_right() {
    let find = |ray: &'static str| match ray {
        "primary" => Some(("glass", "mirror-ray", "bent-ray")),
        "mirror-ray" => Some(("wall", "lost", "lost")),
        _ => None,
    };
    let shade = |hit: &'static str, mirrored: RGB, bent: RGB| match hit {
        "wall" => RGB::new(200, 0, 0),
        _ => RGB::new(mirrored.r, bent.g, 1),
    };
    assert_eq!(trace(&options(4), &find, &shade, "primary", 0), RGB::new(200, 178, 1));
    assert_eq!(trace(&options(0), &find, &shade, "primary", 0), RGB::new(178, 178, 1));
}

#[test]
fn first_hit_takes_the_first_candidate_that_is_hit() {
    let probe = |candidate: usize| if candidate >= 2 { Some(candidate * 10) } else { None };
    assert_eq!(first_hit(5, &probe), Some((2, 20)));
    assert_eq!(first_hit(3, &probe), Some((2, 20)));
    assert_eq!(first_hit(2, &probe), None);
    assert_eq!(first_hit(0, &probe), None);
}

#[test]
fn first_hit_asks_no_further_than_the_winner() {
    let asked = Cell::new(0usize);
    let probe = |candidate: usize| {
        asked.set(asked.get() + 1);
        if candidate == 1 { Some('x') } else { None }
    };
    assert_eq!(first_hit(10, &probe), Some((1, 'x')));
    assert_eq!(asked.get(), 2);
}

#[test]
fn gather_light_joins_the_lamps_in_turn() {
    let hidden = |_: usize| false;
    let join = |so_far: Vec<usize>, lamp: usize| {
        let mut longer = so_far;
        longer.push(lamp);
        longer
    };
    assert_eq!(gather_light(4, &hidden, &join, Vec::new()), vec![0, 1, 2, 3]);
    assert_eq!(gather_light(0, &hidden, &join, vec![9]), vec![9]);
}

#[test]
fn a_hidden_lamp_adds_nothing() {
    let intensities = [15u32, 18, 17];
    let join = |so_far: u32, lamp: usize| so_far + intensities[lamp];
    let none_hidden = |_: usize| false;
    let middle_hidden = |lamp: usize| lamp == 1;
    let all_hidden = |_: usize| true;
    assert_eq!(gather_light(3, &none_hidden, &join, 0), 50);
    assert_eq!(gather_light(3, &middle_hidden, &join, 0), 32);
    assert_eq!(gather_light(3, &all_hidden, &join, 0), 0);
    assert_eq!(gather_light(3, &all_hidden, &join, 7), 7);
}

#[test]
fn a_hidden_lamp_is_not_joined() {
    let joined = Cell::new(0usize);
    let asked = Cell::new(0usize);
    let hidden = |lamp: usize| {
        asked.set(asked.get() + 1);
        lamp % 2 == 0
    };
    let join = |so_far: u32, lamp: usize| {
        joined.set(joined.get() + 1);
        assert!(lamp % 2 == 1);
        so_far * 10 + lamp as u32
    };
    assert_eq!(gather_light(6, &hidden, &join, 0), 135);
    assert_eq!(asked.get(), 6);
    assert_eq!(joined.get(), 3);
}

#[derive(Clone, Copy)]
struct Ray {
    origin: [f32; 3],
    direction: [f32; 3],
}

fn dot(a: [f32; 3], b: [f32; 3]) -> f32 {
    a[0] * b[0] + a[1] * b[1] + a[2] * b[2]
}

fn minus(a: [f32; 3], b: [f32; 3]) -> [f32; 3] {
    [a[0] - b[0], a[1] - b[1], a[2] - b[2]]
}

fn along(origin: [f32; 3], direction: [f32; 3], t: f32) -> [f32; 3] {
    [origin[0] + direction[0] * t, origin[1] + direction[1] * t, origin[2] + direction[2] * t]
}

fn unit(v: [f32; 3]) -> [f32; 3] {
    let length = dot(v, v).sqrt();
    [v[0] / length, v[1] / length, v[2] / length]
}

fn hit_sphere(center: [f32; 3], radius: f32, ray: &Ray) -> Option<f32> {
    let to_center = minus(center, ray.origin);
    let tca = dot(to_center, ray.direction);
    if tca < 0. {
        return None;
    }
    let d2 = dot(to_center, to_center) - tca * tca;
    if d2 > radius * radius {
        return None;
    }
    let thc = (radius * radius - d2).max(0.).sqrt();
    let near = tca - thc;
    let t = if near < 0. { tca + thc } else { near };
    if t < 0. { None } else { Some(t) }
}

#[test]
fn a_lit_white_sphere_is_brighter_than_the_background_beside_it() {
    let canvas = Canvas { width: 101, height: 101 };
    let fov: f32 = 0.6;
    let center = [0., 0., -5.];
    let light = [0., 0., 0.];
    let scene = options(4);
    let find = |ray: Ray| {
        let t = hit_sphere(center, 1., &ray)?;
        let point = along(ray.origin, ray.direction, t);
        let normal = unit(minus(point, center));
        let away = Ray { origin: along(point, normal, 1e-3), direction: normal };
        Some(((point, normal), away, away))
    };
    let shade = |(point, normal): ([f32; 3], [f32; 3]), _: RGB, _: RGB| {
        let to_light = unit(minus(light, point));
        let hidden = |_: usize| {
            let shadow = Ray { origin: along(point, normal, 1e-3), direction: to_light };
            hit_sphere(center, 1., &shadow).is_some()
        };
        let join = |so_far: f32, _: usize| so_far + dot(to_light, normal).max(0.);
        let white = 255. * gather_light(1, &hidden, &join, 0.);
        RGB::from_vector(white as i64, white as i64, white as i64)
    };
    let pixel = |x: usize, y: usize| {
        let direction = unit([
            (x as f32 + 0.5) - canvas.width as f32 / 2.,
            -(y as f32 + 0.5) + canvas.height as f32 / 2.,
            -(canvas.height as f32) / (2. * (fov / 2.).tan()),
        ]);
        trace(&scene, &find, &shade, Ray { origin: [0., 0., 0.], direction }, 0)
    };
    let frame = render_frame(&canvas, 4, &pixel).unwrap();
    let middle = frame.pixel(50, 50).unwrap();
    assert_eq!(middle, RGB::new(255, 255, 255));
    let silhouette = (1.0f32 / 24.0f32.sqrt()) * (101. / (2. * (0.3f32).tan()));
    let inside = 50 + (silhouette - 2.) as u32;
    let outside = 50 + (silhouette + 2.) as u32;
    let rim = frame.pixel(inside, 50).unwrap();
    assert!(rim != BACKGROUND);
    assert!(rim.r < middle.r);
    assert_eq!(frame.pixel(outside, 50), Some(BACKGROUND));
    assert!(middle.r > BACKGROUND.r && middle.g > BACKGROUND.g && middle.b > BACKGROUND.b);
    assert_eq!(frame.pixel(0, 0), Some(BACKGROUND));
}
