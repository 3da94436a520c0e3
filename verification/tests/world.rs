use shooter::ext::InputState;
use shooter::obj::{DestructableObj, ThrustedObj};
use shooter::objects::Objects;
use shooter::phys::{check_and_resolve, resolve, Physics};
use shooter::tex::Sprite;
use shooter::world::World;

const DELTA: f32 = 1. / 60.;
const DDELTA: f64 = 1. / 60.;

#[derive(Clone, Copy, Debug, PartialEq)]
struct Object {
    pos: (f32, f32),
    rad: f32,
    rot: f32,
    vel: (f32, f32),
    mass: f32,
}

impl Object {
    fn new(pos: (f32, f32), rad: f32) -> Self {
        Object { pos, rad, rot: 0., vel: (0., 0.), mass: rad.powi(2) * std::f32::consts::PI }
    }

    fn moving(pos: (f32, f32), rad: f32, vel: (f32, f32)) -> Self {
        Object { vel, ..Object::new(pos, rad) }
    }
}

#[derive(Clone, Copy, Debug, PartialEq)]
struct Thruster {
    fuel: f64,
    throttle_usage: f64,
    power: bool,
    efficiency: f32,
    max_throttle: f64,
}

const ENGINE: Thruster =
    Thruster { fuel: 2e3, throttle_usage: 0., power: false, efficiency: 7.3, max_throttle: 45. };

/// The engine of the game, in single precision.
struct Newton;

impl Physics for Newton {
    type Body = Object;
    type Health = f32;
    type Accel = (f32, f32);
    type Thruster = Thruster;

    fn turn(&self, mut body: Object, hor: i8) -> Object {
        body.rot += 1.7 * hor as f32 * DELTA;
        body
    }

    fn set_power(&self, mut thruster: Thruster, on: bool) -> Thruster {
        thruster.power = on;
        thruster
    }

    fn throttle(&self, mut thruster: Thruster, dir: i8) -> Thruster {
        thruster.throttle_usage += dir as f64 * 17. * DDELTA;
        if thruster.throttle_usage < 0. {
            thruster.throttle_usage = 0.;
        } else if thruster.throttle_usage > thruster.max_throttle {
            thruster.throttle_usage = thruster.max_throttle;
        }
        thruster
    }

    fn thrust(&self, mut body: Object, mut thruster: Thruster) -> (Object, (f32, f32), Thruster) {
        let acc = if thruster.power {
            let mut usg = thruster.throttle_usage * DDELTA;
            if usg > thruster.fuel {
                thruster.power = false;
                usg = thruster.fuel;
            }
            thruster.fuel -= usg;
            let burn = thruster.efficiency * usg as f32;
            let (sin, cos) = body.rot.sin_cos();
            (burn * cos, burn * sin)
        } else {
            (0., 0.)
        };
        body.pos.0 += 0.5 * acc.0 * DELTA + body.vel.0 * DELTA;
        body.pos.1 += 0.5 * acc.1 * DELTA + body.vel.1 * DELTA;
        body.vel.0 += acc.0;
        body.vel.1 += acc.1;
        (body, acc, thruster)
    }

    fn refuel(&self, mut thruster: Thruster, pickups: usize) -> Thruster {
        thruster.fuel += 200. * pickups as f64;
        thruster
    }

    fn update(&self, mut body: Object) -> Object {
        body.pos.0 += body.vel.0 * DELTA;
        body.pos.1 += body.vel.1 * DELTA;
        body
    }

    fn collides(&self, a: &Object, b: &Object) -> bool {
        let (dx, dy) = (a.pos.0 - b.pos.0, a.pos.1 - b.pos.1);
        (dx * dx + dy * dy).sqrt() <= a.rad + b.rad
    }

    fn is_slow(&self, a: &Object, b: &Object) -> bool {
        let (dx, dy) = (a.vel.0 - b.vel.0, a.vel.1 - b.vel.1);
        (dx * dx + dy * dy).sqrt() <= 30.
    }

    fn uncollide(&self, mut a: Object, mut b: Object) -> (Object, Object) {
        let center = ((a.pos.0 + b.pos.0) / 2., (a.pos.1 + b.pos.1) / 2.);
        let diff = (a.pos.0 - b.pos.0, a.pos.1 - b.pos.1);
        let norm = (diff.0 * diff.0 + diff.1 * diff.1).sqrt();
        let dir = (diff.0 / norm, diff.1 / norm);
        let half = (a.rad + b.rad) / 2.;
        a.pos = (center.0 + half * dir.0, center.1 + half * dir.1);
        b.pos = (center.0 - half * dir.0, center.1 - half * dir.1);
        (a, b)
    }

    fn elastic_collide(&self, mut a: Object, mut b: Object) -> (Object, Object) {
        let (m1, m2) = (a.mass, b.mass);
        let mass_quotient = 2. / (m1 + m2);
        let dist = (a.pos.0 - b.pos.0, a.pos.1 - b.pos.1);
        let dist_n2 = dist.0 * dist.0 + dist.1 * dist.1;
        let dot = (a.vel.0 - b.vel.0) * dist.0 + (a.vel.1 - b.vel.1) * dist.1;
        let scale = mass_quotient * dot / dist_n2;
        let vel_diff = (scale * dist.0, scale * dist.1);
        a.vel = (a.vel.0 - m2 * vel_diff.0, a.vel.1 - m2 * vel_diff.1);
        b.vel = (b.vel.0 + m1 * vel_diff.0, b.vel.1 + m1 * vel_diff.1);
        (a, b)
    }

    fn hit(&self, health: f32) -> f32 {
        let left = health - 5.;
        if left <= 0. {
            0.
        } else {
            left
        }
    }

    fn is_dead(&self, health: &f32) -> bool {
        !(*health > 0.)
    }
}

type Ship = ThrustedObj<Object, f32, (f32, f32), Thruster>;
type Rock = DestructableObj<Object, f32>;

fn player_at(pos: (f32, f32)) -> Ship {
    ThrustedObj::new(DestructableObj::new(Object::new(pos, 20.), 40.), (0., 0.), ENGINE)
}

fn asteroid(pos: (f32, f32), health: f32) -> Rock {
    DestructableObj::new(Object::new(pos, 24.), health)
}

fn world(player: Ship, asteroids: Vec<Rock>, fuels: Vec<Object>, bullets: Vec<Object>) -> World<Newton> {
    World::new(
        player,
        Objects::new(asteroids, Sprite::Asteroid),
        Objects::new(fuels, Sprite::Fuel),
        Objects::new(bullets, Sprite::Bullet),
    )
}

fn idle() -> InputState {
    InputState::default()
}

fn distance(a: &Object, b: &Object) -> f32 {
    ((a.pos.0 - b.pos.0).powi(2) + (a.pos.1 - b.pos.1).powi(2)).sqrt()
}

#[test]
fn head_on_collision_of_equal_masses_exchanges_velocities() {
    let mut a = Object { pos: (0., 0.), rad: 10., rot: 0., vel: (5., 0.), mass: 1. };
    let mut b = Object { pos: (15., 0.), rad: 10., rot: 0., vel: (-5., 0.), mass: 1. };
    resolve(&Newton, &mut a, &mut b);
    assert_eq!(a.pos, (-2.5, 0.));
    assert_eq!(b.pos, (17.5, 0.));
    assert_eq!(distance(&a, &b), 20.);
    assert_eq!(a.vel, (-5., 0.));
    assert_eq!(b.vel, (5., 0.));
}

#[test]
fn resolve_moves_apart_before_it_exchanges_velocities() {
    // Unequal masses: the impulse depends on the positions, so the order of the two steps shows.
    let a = Object::moving((0., 0.), 10., (3., 4.));
    let b = Object::moving((6., 8.), 20., (0., 0.));
    let (mut x, mut y) = (a, b);
    resolve(&Newton, &mut x, &mut y);
    let (ua, ub) = Newton.uncollide(a, b);
    let expected = Newton.elastic_collide(ua, ub);
    assert_eq!((x, y), expected);
    assert!((distance(&x, &y) - 30.).abs() < 1e-4);
    let momentum_before = (a.mass * a.vel.0 + b.mass * b.vel.0, a.mass * a.vel.1 + b.mass * b.vel.1);
    let momentum_after = (x.mass * x.vel.0 + y.mass * y.vel.0, x.mass * x.vel.1 + y.mass * y.vel.1);
    assert!((momentum_before.0 - momentum_after.0).abs() < 1e-2);
    assert!((momentum_before.1 - momentum_after.1).abs() < 1e-2);
}

#[test]
fn check_and_resolve_leaves_distant_bodies_alone() {
    let a = Object::moving((0., 0.), 10., (5., 0.));
    let b = Object::moving((100., 0.), 10., (-5., 0.));
    let (mut x, mut y) = (a, b);
    check_and_resolve(&Newton, &mut x, &mut y);
    assert_eq!((x, y), (a, b));
}

#[test]
fn check_and_resolve_bounces_touching_bodies() {
    let mut a = Object { pos: (0., 0.), rad: 10., rot: 0., vel: (5., 0.), mass: 1. };
    let mut b = Object { pos: (20., 0.), rad: 10., rot: 0., vel: (-5., 0.), mass: 1. };
    check_and_resolve(&Newton, &mut a, &mut b);
    assert_eq!(a.vel, (-5., 0.));
    assert_eq!(b.vel, (5., 0.));
}

#[test]
fn hit_takes_health_and_leaves_the_body() {
    let mut rock = asteroid((1., 2.), 12.);
    let body = rock.obj;
    rock.hit(&Newton);
    assert_eq!(rock.health, 7.);
    assert_eq!(rock.obj, body);
    assert!(!rock.is_dead(&Newton));
    rock.hit(&Newton);
    rock.hit(&Newton);
    assert_eq!(rock.health, 0.);
    assert!(rock.is_dead(&Newton));
}

#[test]
fn nan_health_counts_as_dead() {
    let rock = asteroid((0., 0.), 0. / 0.);
    assert!(rock.is_dead(&Newton));
}

#[test]
fn update_moves_the_player_and_keeps_its_health() {
    let mut player = player_at((0., 0.));
    player.obj.obj.vel = (60., 0.);
    player.update(&Newton);
    assert_eq!(player.obj.obj.pos, (1., 0.));
    assert_eq!(player.acc, (0., 0.));
    assert_eq!(player.obj.health, 40.);
    assert_eq!(player.thruster, ENGINE);
}

#[test]
fn steer_switches_power_on_only_when_the_vertical_axis_points_up() {
    let mut up = world(player_at((0., 0.)), vec![], vec![], vec![]);
    up.steer(&InputState { hor: 0, ver: 2, throttle: 0 }, &Newton);
    assert!(up.player.thruster.power);

    let mut down = world(player_at((0., 0.)), vec![], vec![], vec![]);
    down.player.thruster.power = true;
    down.steer(&InputState { hor: 0, ver: -1, throttle: 0 }, &Newton);
    assert!(!down.player.thruster.power);

    let mut none = world(player_at((0., 0.)), vec![], vec![], vec![]);
    none.player.thruster.power = true;
    none.steer(&idle(), &Newton);
    assert!(!none.player.thruster.power);
}

#[test]
fn steer_turns_throttles_and_burns() {
    let mut w = world(player_at((0., 0.)), vec![], vec![], vec![]);
    w.steer(&InputState { hor: -4, ver: 1, throttle: 3 }, &Newton);
    assert_eq!(w.player.obj.obj.rot, 1.7 * -1. * DELTA);
    let usage = 17. * DDELTA;
    assert_eq!(w.player.thruster.throttle_usage, usage);
    assert_eq!(w.player.thruster.fuel, 2e3 - usage * DDELTA);
    let burn = 7.3 * (usage * DDELTA) as f32;
    let (sin, cos) = w.player.obj.obj.rot.sin_cos();
    assert_eq!(w.player.acc, (burn * cos, burn * sin));
    assert_eq!(w.player.obj.obj.vel, (burn * cos, burn * sin));
}

#[test]
fn slow_fuel_is_consumed() {
    let fuel = Object::moving((30., 0.), 16., (-10., 0.));
    let mut w = world(player_at((0., 0.)), vec![], vec![fuel], vec![]);
    w.physics_update(&idle(), &Newton);
    assert_eq!(w.fuels.len(), 0);
    assert_eq!(w.player.thruster.fuel, 2200.);
    assert_eq!(w.player.obj.obj.vel, (0., 0.));
    assert_eq!(w.player.obj.obj.pos, (0., 0.));
    assert_eq!(w.player.obj.health, 40.);
}

#[test]
fn fuel_at_the_threshold_speed_is_consumed() {
    let fuel = Object::moving((30., 0.), 16., (-30., 0.));
    let mut w = world(player_at((0., 0.)), vec![], vec![fuel], vec![]);
    w.fuel_pass(&Newton);
    assert_eq!(w.fuels.len(), 0);
    assert_eq!(w.player.thruster.fuel, 2200.);
}

#[test]
fn fast_fuel_bounces_off_the_player() {
    let fuel = Object::moving((30., 0.), 16., (-120., 0.));
    let mut w = world(player_at((0., 0.)), vec![], vec![fuel], vec![]);
    w.fuel_pass(&Newton);
    assert_eq!(w.fuels.len(), 1);
    assert_eq!(w.player.thruster.fuel, 2000.);
    let bounced = *w.fuels.get(0);
    assert!((distance(&w.player.obj.obj, &bounced) - 36.).abs() < 1e-4);
    assert!(w.player.obj.obj.vel.0 < 0.);
    assert!(bounced.vel.0 > -120.);
}

#[test]
fn distant_fuel_only_moves() {
    let fuel = Object::moving((300., 0.), 16., (60., 120.));
    let mut w = world(player_at((0., 0.)), vec![], vec![fuel], vec![]);
    w.fuel_pass(&Newton);
    assert_eq!(w.fuels.as_vec(), &vec![Object::moving((301., 2.), 16., (60., 120.))]);
    assert_eq!(w.player, player_at((0., 0.)));
}

#[test]
fn consumed_fuels_leave_and_the_others_keep_their_order() {
    let near = |x: f32| Object::moving((x, 0.), 16., (0., 0.));
    let far = |y: f32| Object::moving((1000., y), 16., (0., 0.));
    let fuels = vec![near(10.), far(1.), near(-10.), far(2.), far(3.), near(0.5)];
    let mut w = world(player_at((0., 0.)), vec![], fuels, vec![]);
    w.fuel_pass(&Newton);
    assert_eq!(w.fuels.as_vec(), &vec![far(1.), far(2.), far(3.)]);
    assert_eq!(w.player.thruster.fuel, 2600.);
    assert_eq!(w.fuels.sprite(), Sprite::Fuel);
}

#[test]
fn asteroids_bounce_off_the_player() {
    let mut rock = asteroid((40., 0.), 100.);
    rock.obj.vel = (-60., 0.);
    let mut w = world(player_at((0., 0.)), vec![rock, asteroid((500., 500.), 100.)], vec![], vec![]);
    w.asteroid_pass(&Newton);
    assert_eq!(w.asteroids.len(), 2);
    let bounced = *w.asteroids.get(0);
    assert!((distance(&w.player.obj.obj, &bounced.obj) - 44.).abs() < 1e-4);
    assert_eq!(bounced.health, 100.);
    assert!(w.player.obj.obj.vel.0 < 0.);
    assert_eq!(*w.asteroids.get(1), asteroid((500., 500.), 100.));
    assert_eq!(w.player.obj.health, 40.);
}

#[test]
fn bullet_kills_a_weak_asteroid_in_the_same_tick() {
    let bullet = Object::new((510., 500.), 5.);
    let mut w = world(player_at((0., 0.)), vec![asteroid((500., 500.), 5.)], vec![], vec![bullet]);
    w.physics_update(&idle(), &Newton);
    assert_eq!(w.bullets.len(), 0);
    assert_eq!(w.asteroids.len(), 0);
    assert_eq!(w.player.obj.health, 40.);
}

#[test]
fn bullet_pass_marks_and_remove_dead_removes() {
    let bullet = Object::new((510., 500.), 5.);
    let mut w = world(player_at((0., 0.)), vec![asteroid((500., 500.), 5.)], vec![], vec![bullet]);
    w.bullet_pass(&Newton);
    assert_eq!(w.bullets.len(), 0);
    assert_eq!(w.asteroids.len(), 1);
    assert_eq!(w.asteroids.get(0).health, 0.);
    assert!(w.asteroids.get(0).is_dead(&Newton));
    w.remove_dead(&Newton);
    assert_eq!(w.asteroids.len(), 0);
}

#[test]
fn bullet_wounds_a_strong_asteroid() {
    let bullet = Object::new((510., 500.), 5.);
    let mut w = world(player_at((0., 0.)), vec![asteroid((500., 500.), 100.)], vec![], vec![bullet]);
    w.physics_update(&idle(), &Newton);
    assert_eq!(w.bullets.len(), 0);
    assert_eq!(w.asteroids.len(), 1);
    assert_eq!(w.asteroids.get(0).health, 95.);
}

#[test]
fn bullet_hits_the_player_before_any_asteroid() {
    let bullet = Object::new((10., 0.), 5.);
    let mut w = world(player_at((0., 0.)), vec![asteroid((12., 0.), 100.)], vec![], vec![bullet]);
    w.bullet_pass(&Newton);
    assert_eq!(w.bullets.len(), 0);
    assert_eq!(w.player.obj.health, 35.);
    assert_eq!(w.asteroids.get(0).health, 100.);
}

#[test]
fn bullet_hits_only_the_first_asteroid_in_its_way() {
    let bullet = Object::new((500., 500.), 5.);
    let rocks =
        vec![asteroid((900., 900.), 100.), asteroid((505., 500.), 100.), asteroid((495., 500.), 100.)];
    let mut w = world(player_at((0., 0.)), rocks, vec![], vec![bullet]);
    w.bullet_pass(&Newton);
    assert_eq!(w.bullets.len(), 0);
    let health: Vec<f32> = w.asteroids.as_vec().iter().map(|rock| rock.health).collect();
    assert_eq!(health, vec![100., 95., 100.]);
}

#[test]
fn two_bullets_can_hit_the_same_asteroid() {
    let bullets = vec![Object::new((500., 500.), 5.), Object::new((501., 500.), 5.)];
    let mut w = world(player_at((0., 0.)), vec![asteroid((500., 500.), 100.)], vec![], bullets);
    w.bullet_pass(&Newton);
    assert_eq!(w.bullets.len(), 0);
    assert_eq!(w.asteroids.get(0).health, 90.);
}

#[test]
fn bullet_that_hits_nothing_flies_on() {
    let bullet = Object::moving((500., 500.), 5., (0., 600.));
    let mut w = world(player_at((0., 0.)), vec![asteroid((900., 900.), 100.)], vec![], vec![bullet]);
    w.bullet_pass(&Newton);
    assert_eq!(w.bullets.as_vec(), &vec![Object::moving((500., 510.), 5., (0., 600.))]);
    assert_eq!(w.asteroids.get(0).health, 100.);
    assert_eq!(w.bullets.sprite(), Sprite::Bullet);
}

#[test]
fn remove_dead_keeps_the_living_in_order() {
    let rocks = vec![
        asteroid((0., 0.), 0.),
        asteroid((1., 0.), 3.),
        asteroid((2., 0.), 0. / 0.),
        asteroid((3., 0.), 100.),
        asteroid((4., 0.), -1.),
    ];
    let mut w = world(player_at((900., 900.)), rocks, vec![], vec![]);
    w.remove_dead(&Newton);
    assert_eq!(w.asteroids.as_vec(), &vec![asteroid((1., 0.), 3.), asteroid((3., 0.), 100.)]);
    assert_eq!(w.asteroids.sprite(), Sprite::Asteroid);
}

#[test]
fn self_collisions_separate_overlapping_members() {
    let rocks = vec![asteroid((0., 0.), 100.), asteroid((10., 0.), 50.)];
    let fuels = vec![Object::new((500., 0.), 16.), Object::new((500., 8.), 16.)];
    let bullets = vec![Object::new((900., 0.), 5.), Object::new((903., 4.), 5.)];
    let mut w = world(player_at((-900., -900.)), rocks, fuels, bullets);
    w.self_collisions(&Newton);
    assert!((distance(&w.asteroids.get(0).obj, &w.asteroids.get(1).obj) - 48.).abs() < 1e-3);
    assert!((distance(w.fuels.get(0), w.fuels.get(1)) - 32.).abs() < 1e-3);
    assert!((distance(w.bullets.get(0), w.bullets.get(1)) - 10.).abs() < 1e-3);
    assert_eq!(w.asteroids.get(0).health, 100.);
    assert_eq!(w.asteroids.get(1).health, 50.);
    assert_eq!(w.player, player_at((-900., -900.)));
}

#[test]
fn cross_collisions_bounce_fuel_off_asteroids_and_bullets() {
    let rocks = vec![asteroid((0., 0.), 100.)];
    let fuels = vec![Object::new((30., 0.), 16.), Object::new((500., 0.), 16.)];
    let bullets = vec![Object::new((510., 0.), 5.)];
    let mut w = world(player_at((-900., -900.)), rocks, fuels, bullets);
    w.cross_collisions(&Newton);
    assert!((distance(&w.asteroids.get(0).obj, w.fuels.get(0)) - 40.).abs() < 1e-3);
    assert!((distance(w.bullets.get(0), w.fuels.get(1)) - 21.).abs() < 1e-3);
    assert_eq!(w.fuels.len(), 2);
    assert_eq!(w.asteroids.get(0).health, 100.);
    assert_eq!(w.asteroids.sprite(), Sprite::Asteroid);
    assert_eq!(w.bullets.sprite(), Sprite::Bullet);
}

#[test]
fn fuel_touching_an_asteroid_is_not_consumed() {
    let rocks = vec![asteroid((500., 0.), 100.)];
    let fuels = vec![Object::new((510., 0.), 16.)];
    let mut w = world(player_at((0., 0.)), rocks, fuels, vec![]);
    w.physics_update(&idle(), &Newton);
    assert_eq!(w.fuels.len(), 1);
    assert_eq!(w.player.thruster.fuel, 2000.);
}

#[test]
fn a_tick_of_an_empty_world_moves_only_the_player() {
    let mut player = player_at((0., 0.));
    player.obj.obj.vel = (120., -60.);
    let mut w = world(player, vec![], vec![], vec![]);
    w.physics_update(&idle(), &Newton);
    assert_eq!(w.player.obj.obj.pos, (2., -1.));
    assert_eq!((w.asteroids.len(), w.fuels.len(), w.bullets.len()), (0, 0, 0));
}

#[test]
fn burning_with_an_empty_tank_switches_the_power_off() {
    let mut player = player_at((0., 0.));
    player.thruster.fuel = 0.;
    player.thruster.throttle_usage = 45.;
    let mut w = world(player, vec![], vec![], vec![]);
    w.physics_update(&InputState { hor: 0, ver: 1, throttle: 0 }, &Newton);
    assert_eq!(w.player.thruster.fuel, 0.);
    assert!(!w.player.thruster.power);
    assert_eq!(w.player.acc, (0., 0.));
}
