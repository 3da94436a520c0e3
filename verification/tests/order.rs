use shooter::ext::InputState;
use shooter::obj::{DestructableObj, ThrustedObj};
use shooter::objects::Objects;
use shooter::phys::Physics;
use shooter::tex::Sprite;
use shooter::world::World;
use std::cell::RefCell;

/// An engine whose bodies are numbers and which writes down what it is asked.
struct Recorder {
    log: RefCell<Vec<String>>,
    touching: Vec<(u32, u32)>,
    slow: bool,
}

impl Recorder {
    fn new(touching: &[(u32, u32)], slow: bool) -> Self {
        Recorder { log: RefCell::new(Vec::new()), touching: touching.to_vec(), slow }
    }

    fn note(&self, line: String) {
        self.log.borrow_mut().push(line);
    }

    fn log_without_verdicts(&self) -> Vec<String> {
        self.log.borrow().iter().filter(|line| !line.starts_with("is_dead")).cloned().collect()
    }
}

impl Physics for Recorder {
    type Body = u32;
    type Health = u32;
    type Accel = ();
    type Thruster = usize;

    fn turn(&self, body: u32, hor: i8) -> u32 {
        self.note(format!("turn {} {}", body, hor));
        body
    }

    fn set_power(&self, thruster: usize, on: bool) -> usize {
        self.note(format!("set_power {}", on));
        thruster
    }

    fn throttle(&self, thruster: usize, dir: i8) -> usize {
        self.note(format!("throttle {}", dir));
        thruster
    }

    fn thrust(&self, body: u32, thruster: usize) -> (u32, (), usize) {
        self.note(format!("thrust {}", body));
        (body, (), thruster)
    }

    fn refuel(&self, thruster: usize, pickups: usize) -> usize {
        self.note(format!("refuel {}", pickups));
        thruster + pickups
    }

    fn update(&self, body: u32) -> u32 {
        self.note(format!("update {}", body));
        body
    }

    fn collides(&self, a: &u32, b: &u32) -> bool {
        self.note(format!("collides {} {}", a, b));
        self.touching.contains(&(*a, *b))
    }

    fn is_slow(&self, a: &u32, b: &u32) -> bool {
        self.note(format!("is_slow {} {}", a, b));
        self.slow
    }

    fn uncollide(&self, a: u32, b: u32) -> (u32, u32) {
        self.note(format!("uncollide {} {}", a, b));
        (a, b)
    }

    fn elastic_collide(&self, a: u32, b: u32) -> (u32, u32) {
        self.note(format!("elastic_collide {} {}", a, b));
        (a, b)
    }

    fn hit(&self, health: u32) -> u32 {
        self.note(format!("hit {}", health));
        health.saturating_sub(5)
    }

    fn is_dead(&self, health: &u32) -> bool {
        self.note(format!("is_dead {}", health));
        *health == 0
    }
}

fn world() -> World<Recorder> {
    let rock = |id: u32, health: u32| DestructableObj::new(id, health);
    World::new(
        ThrustedObj::new(DestructableObj::new(0, 40), (), 0),
        Objects::new(vec![rock(10, 100), rock(11, 5)], Sprite::Asteroid),
        Objects::new(vec![20, 21], Sprite::Fuel),
        Objects::new(vec![30, 31], Sprite::Bullet),
    )
}

fn lines(text: &[&str]) -> Vec<String> {
    text.iter().map(|line| line.to_string()).collect()
}

#[test]
fn a_tick_without_contact_asks_in_the_order_of_its_parts() {
    let k = Recorder::new(&[], true);
    let mut w = world();
    w.physics_update(&InputState { hor: 3, ver: 1, throttle: -2 }, &k);
    let expected = lines(&[
        "turn 0 1",
        "set_power true",
        "throttle -1",
        "thrust 0",
        "update 21",
        "collides 0 21",
        "update 20",
        "collides 0 20",
        "refuel 0",
        "update 10",
        "collides 0 10",
        "update 11",
        "collides 0 11",
        "update 31",
        "collides 0 31",
        "collides 10 31",
        "collides 11 31",
        "update 30",
        "collides 0 30",
        "collides 10 30",
        "collides 11 30",
        "collides 30 31",
        "collides 10 11",
        "collides 20 21",
        "collides 20 10",
        "collides 20 11",
        "collides 20 30",
        "collides 20 31",
        "collides 21 10",
        "collides 21 11",
        "collides 21 30",
        "collides 21 31",
    ]);
    assert_eq!(k.log_without_verdicts(), expected);
    let verdicts = k.log.borrow().iter().filter(|line| line.starts_with("is_dead")).count();
    assert_eq!(verdicts, 2);
    assert_eq!(w.asteroids.len(), 2);
    assert_eq!(w.fuels.as_vec(), &vec![20, 21]);
    assert_eq!(w.bullets.as_vec(), &vec![30, 31]);
}

#[test]
fn the_verdicts_on_the_dead_come_between_bullets_and_sweeps() {
    let k = Recorder::new(&[], true);
    let mut w = world();
    w.physics_update(&InputState::default(), &k);
    let log = k.log.borrow();
    let first = log.iter().position(|line| line.starts_with("is_dead")).unwrap();
    let last = log.iter().rposition(|line| line.starts_with("is_dead")).unwrap();
    assert_eq!(last - first, 1);
    assert_eq!(log[first - 1], "collides 11 30");
    assert_eq!(log[last + 1], "collides 30 31");
}

#[test]
fn a_caught_pickup_is_neither_moved_apart_nor_swept() {
    let k = Recorder::new(&[(0, 21)], true);
    let mut w = world();
    w.physics_update(&InputState::default(), &k);
    let log = k.log_without_verdicts();
    assert_eq!(
        log[..10].to_vec(),
        lines(&[
            "turn 0 0",
            "set_power false",
            "throttle 0",
            "thrust 0",
            "update 21",
            "collides 0 21",
            "is_slow 21 0",
            "update 20",
            "collides 0 20",
            "refuel 1",
        ])
    );
    assert!(!log.iter().any(|line| line.starts_with("uncollide")));
    assert!(!log.iter().any(|line| line.starts_with("collides 20 21")));
    assert!(!log.iter().any(|line| line.starts_with("collides 21 ")));
    assert_eq!(w.fuels.as_vec(), &vec![20]);
    assert_eq!(w.player.thruster, 1);
}

#[test]
fn a_fast_pickup_is_moved_apart_and_then_bounced() {
    let k = Recorder::new(&[(0, 21)], false);
    let mut w = world();
    w.fuel_pass(&k);
    assert_eq!(
        k.log_without_verdicts(),
        lines(&[
            "update 21",
            "collides 0 21",
            "is_slow 21 0",
            "uncollide 0 21",
            "elastic_collide 0 21",
            "update 20",
            "collides 0 20",
            "refuel 0",
        ])
    );
    assert_eq!(w.fuels.as_vec(), &vec![20, 21]);
}

#[test]
fn a_bullet_stops_at_the_first_asteroid_it_touches() {
    let k = Recorder::new(&[(10, 31), (11, 31), (11, 30)], true);
    let mut w = world();
    w.bullet_pass(&k);
    assert_eq!(
        k.log_without_verdicts(),
        lines(&[
            "update 31",
            "collides 0 31",
            "collides 10 31",
            "hit 100",
            "update 30",
            "collides 0 30",
            "collides 10 30",
            "collides 11 30",
            "hit 5",
        ])
    );
    assert_eq!(w.bullets.len(), 0);
    assert_eq!(w.asteroids.get(0).health, 95);
    assert_eq!(w.asteroids.get(1).health, 0);
    w.remove_dead(&k);
    assert_eq!(w.asteroids.len(), 1);
    assert_eq!(w.asteroids.get(0).obj, 10);
}

#[test]
fn a_bullet_that_touches_the_player_is_not_tried_on_asteroids() {
    let k = Recorder::new(&[(0, 30), (10, 30)], true);
    let mut w = world();
    w.bullet_pass(&k);
    assert_eq!(
        k.log_without_verdicts(),
        lines(&[
            "update 31",
            "collides 0 31",
            "collides 10 31",
            "collides 11 31",
            "update 30",
            "collides 0 30",
            "hit 40",
        ])
    );
    assert_eq!(w.bullets.as_vec(), &vec![31]);
    assert_eq!(w.player.obj.health, 35);
}

#[test]
fn the_sweeps_take_bullets_then_asteroids_then_fuels() {
    let k = Recorder::new(&[(10, 11)], true);
    let mut w = world();
    w.self_collisions(&k);
    assert_eq!(
        k.log_without_verdicts(),
        lines(&[
            "collides 30 31",
            "collides 10 11",
            "uncollide 10 11",
            "elastic_collide 10 11",
            "collides 20 21",
        ])
    );
}
