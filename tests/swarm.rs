use particles::{less_than, spawn_generator, ParticleWorld, INFINITY_BITS};
use rand::Rng;

type V2 = [f32; 2];

fn himmelblau(p: V2) -> f32 {
    let (x, y) = (p[0], p[1]);
    (x * x + y - 11.0).powf(2.0) + (x + y * y - 7.0).powf(2.0)
}

fn advance(p: V2, v: V2) -> V2 {
    [p[0] + v[0], p[1] + v[1]]
}

fn score(p: V2) -> u32 {
    himmelblau(p).to_bits()
}

fn steer_with(inertia: f32, mine: f32, swarm: f32) -> impl Fn(V2, V2, V2, V2) -> V2 {
    move |v: V2, p: V2, b: V2, g: V2| {
        [
            v[0] * inertia + (b[0] - p[0]) * mine + (g[0] - p[0]) * swarm,
            v[1] * inertia + (b[1] - p[1]) * mine + (g[1] - p[1]) * swarm,
        ]
    }
}

fn default_steer() -> impl Fn(V2, V2, V2, V2) -> V2 {
    steer_with(0.7, 1.5, 1.5)
}

fn world(points: &[V2]) -> ParticleWorld<V2> {
    ParticleWorld::new(points.to_vec(), [0.0, 0.0])
}

#[test]
fn less_than_agrees_with_f32() {
    let values: Vec<f32> = vec![
        0.0,
        -0.0,
        1.0,
        -1.0,
        0.5,
        -2.75,
        170.0,
        f32::MIN_POSITIVE,
        -f32::MIN_POSITIVE,
        f32::from_bits(1),
        f32::from_bits(0x8000_0001),
        f32::MAX,
        f32::MIN,
        f32::INFINITY,
        f32::NEG_INFINITY,
        f32::NAN,
        -f32::NAN,
        f32::from_bits(0x7f80_0001),
        f32::from_bits(0xffc0_1234),
    ];
    for &a in &values {
        for &b in &values {
            assert_eq!(less_than(a.to_bits(), b.to_bits()), a < b, "{:?} < {:?}", a, b);
        }
    }
}

#[test]
fn zero_signs_are_equal() {
    assert!(!less_than((-0.0f32).to_bits(), 0.0f32.to_bits()));
    assert!(!less_than(0.0f32.to_bits(), (-0.0f32).to_bits()));
}

#[test]
fn new_world_is_at_rest_with_sentinel_best() {
    let w = world(&[[1.0, 2.0], [-3.0, 0.5]]);
    assert_eq!(w.particles().len(), 2);
    assert_eq!(w.particles()[0].position, [1.0, 2.0]);
    assert_eq!(w.particles()[1].position, [-3.0, 0.5]);
    for p in w.particles() {
        assert_eq!(p.speed, [0.0, 0.0]);
        assert_eq!(p.best_position, [0.0, 0.0]);
        assert_eq!(p.best_score, f32::INFINITY.to_bits());
    }
    assert_eq!(w.best_solution(), (INFINITY_BITS, [0.0, 0.0]));
    assert_eq!(INFINITY_BITS, f32::INFINITY.to_bits());
}

#[test]
fn one_particle_at_origin_scores_170() {
    let mut w = world(&[[0.0, 0.0]]);
    w.step(advance, score, default_steer());
    let (best, at) = w.best_solution();
    assert_eq!(f32::from_bits(best), 170.0);
    assert_eq!(at, [0.0, 0.0]);
    assert_eq!(w.particles()[0].best_score, 170.0f32.to_bits());
}

#[test]
fn empty_world_keeps_sentinel() {
    let mut w = world(&[]);
    for _ in 0..10 {
        w.step(advance, score, default_steer());
    }
    assert_eq!(w.particles().len(), 0);
    let (best, at) = w.best_solution();
    assert_eq!(f32::from_bits(best), f32::INFINITY);
    assert_eq!(at, [0.0, 0.0]);
}

#[test]
fn swarm_best_stays_lowest_and_personal_bests_never_rise() {
    let mut w = world(&[[1.0, 1.0], [-4.0, 2.5], [3.5, -1.0], [0.25, 4.0], [-2.0, -3.0]]);
    let mut previous: Vec<f32> = w.particles().iter().map(|p| f32::from_bits(p.best_score)).collect();
    for _ in 0..50 {
        w.step(advance, score, default_steer());
        let global = f32::from_bits(w.best_solution().0);
        for (k, p) in w.particles().iter().enumerate() {
            let best = f32::from_bits(p.best_score);
            assert!(global <= best);
            assert!(best <= previous[k]);
            previous[k] = best;
        }
    }
    let (best, at) = w.best_solution();
    assert_eq!(f32::from_bits(best), himmelblau(at));
}

#[test]
fn zero_weights_stop_every_particle() {
    let mut w = world(&[[1.0, 1.0], [-2.0, 3.0]]);
    w.step(advance, score, default_steer());
    w.step(advance, score, default_steer());
    assert!(w.particles().iter().any(|p| p.speed != [0.0, 0.0]));
    w.step(advance, score, steer_with(0.0, 0.0, 0.0));
    let stopped: Vec<V2> = w.particles().iter().map(|p| p.position).collect();
    for p in w.particles() {
        assert_eq!(p.speed, [0.0, 0.0]);
    }
    w.step(advance, score, steer_with(0.0, 0.0, 0.0));
    for (k, p) in w.particles().iter().enumerate() {
        assert_eq!(p.position, stopped[k]);
    }
}

#[test]
fn later_particle_sees_best_found_earlier_in_same_sweep() {
    // The second particle scores worse than the first; its velocity must
    // already pull towards the first particle's position.
    let mut w = world(&[[3.0, 2.0], [0.0, 0.0]]);
    w.step(advance, score, steer_with(0.0, 0.0, 1.0));
    assert_eq!(w.best_solution(), (0.0f32.to_bits(), [3.0, 2.0]));
    assert_eq!(w.particles()[0].speed, [0.0, 0.0]);
    assert_eq!(w.particles()[1].speed, [3.0, 2.0]);
}

#[test]
fn equal_score_does_not_replace_best() {
    let mut w = world(&[[1.0, 0.0]]);
    w.step(advance, |_p: V2| 5.0f32.to_bits(), steer_with(0.0, 0.0, 0.0));
    assert_eq!(w.best_solution(), (5.0f32.to_bits(), [1.0, 0.0]));
    // Move the particle, then score it the same: the best stays where it was.
    w.step(
        |p: V2, _v: V2| [p[0] + 1.0, p[1]],
        |_p: V2| 5.0f32.to_bits(),
        steer_with(0.0, 0.0, 0.0),
    );
    assert_eq!(w.particles()[0].position, [2.0, 0.0]);
    assert_eq!(w.particles()[0].best_position, [1.0, 0.0]);
    assert_eq!(w.best_solution(), (5.0f32.to_bits(), [1.0, 0.0]));
}

#[test]
fn nan_score_never_improves() {
    let mut w = world(&[[1.0, 0.0], [2.0, 0.0]]);
    w.step(advance, |_p: V2| f32::NAN.to_bits(), default_steer());
    for p in w.particles() {
        assert_eq!(p.best_score, f32::INFINITY.to_bits());
        assert_eq!(p.best_position, [0.0, 0.0]);
    }
    assert_eq!(w.best_solution(), (INFINITY_BITS, [0.0, 0.0]));
}

#[test]
fn lower_score_later_replaces_best() {
    let mut w = world(&[[5.0, 5.0]]);
    w.step(advance, score, steer_with(0.0, 0.0, 0.0));
    assert_eq!(w.best_solution().1, [5.0, 5.0]);
    w.step(|_p: V2, _v: V2| [3.0, 2.0], score, steer_with(0.0, 0.0, 0.0));
    assert_eq!(w.best_solution(), (0.0f32.to_bits(), [3.0, 2.0]));
    assert_eq!(w.particles()[0].best_position, [3.0, 2.0]);
}

#[test]
fn spawn_generator_is_deterministic() {
    let mut a = spawn_generator();
    let mut b = spawn_generator();
    let xs: Vec<f32> = (0..64).map(|_| a.gen_range(-5.0f32..=5.0)).collect();
    let ys: Vec<f32> = (0..64).map(|_| b.gen_range(-5.0f32..=5.0)).collect();
    assert_eq!(xs.iter().map(|x| x.to_bits()).collect::<Vec<_>>(), ys.iter().map(|y| y.to_bits()).collect::<Vec<_>>());
    assert!(xs.iter().all(|x| (-5.0..=5.0).contains(x)));
    let mut c = rand_pcg::Pcg64Mcg::new(1);
    let zs: Vec<f32> = (0..64).map(|_| c.gen_range(-5.0f32..=5.0)).collect();
    assert_ne!(xs, zs);
}
