//! The world and its tick.

use crate::ext::{sign, InputState};
use crate::obj::{struck, thrusted, Asteroid, Player};
use crate::objects::{
    cull_trace, culls, kept, lemma_kept_len, lemma_sweeps_len, visit_trace, lemma_culls_keep, lemma_culls_through, lemma_sweeps_under, lemma_visits_keep,
    lemma_visits_through, sweeps, visits, Objects,
};
use crate::phys::{check_and_resolve, met, resolve, resolved, Physics};
use vstd::prelude::*;

verus! {

/// All the objects in the current world.
pub struct World<P: Physics> {
    /// The ship that the input steers.
    pub player: Player<P>,
    /// The asteroids.
    pub asteroids: Objects<Asteroid<P>>,
    /// The fuel pickups.
    pub fuels: Objects<P::Body>,
    /// The bullets in flight.
    pub bullets: Objects<P::Body>,
}

/// The bodies of a world, each collection in its order.
pub struct Snapshot<P: Physics> {
    /// The ship that the input steers.
    pub player: Player<P>,
    /// The asteroids.
    pub asteroids: Seq<Asteroid<P>>,
    /// The fuel pickups.
    pub fuels: Seq<P::Body>,
    /// The bullets in flight.
    pub bullets: Seq<P::Body>,
}

impl<P: Physics> View for World<P> {
    type V = Snapshot<P>;

    open spec fn view(&self) -> Snapshot<P> {
        Snapshot {
            player: self.player,
            asteroids: self.asteroids@,
            fuels: self.fuels@,
            bullets: self.bullets@,
        }
    }
}

/// The player's part of a tick: the ship turns by the horizontal axis, its
/// thruster is switched on exactly when the vertical axis points up, its
/// throttle follows the throttle axis, and then the ship moves under its
/// thruster.
pub open spec fn steered<P: Physics>(
    k: &P,
    input: InputState,
    before: Player<P>,
    after: Player<P>,
) -> bool {
    exists|turned: P::Body, switched: P::Thruster, set: P::Thruster|
        {
            &&& #[trigger] call_ensures(P::turn, (k, before.obj.obj, sign(input.hor as int) as i8), turned)
            &&& call_ensures(P::set_power, (k, before.thruster, input.ver > 0), switched)
            &&& #[trigger] call_ensures(P::throttle, (k, switched, sign(input.throttle as int) as i8), set)
            &&& thrusted(k, before.with_body(turned).with_thruster(set), after)
        }
}

/// A fuel pickup that touches the player: if it is slow enough it is caught,
/// which changes neither and marks it to go; else the two collide.
pub open spec fn fuel_taken<P: Physics>(
    k: &P,
    player: Player<P>,
    moved: P::Body,
    slow: bool,
    r: (Player<P>, P::Body, bool),
) -> bool {
    if slow {
        r == (player, moved, true)
    } else {
        exists|after: (P::Body, P::Body)|
            {
                &&& #[trigger] resolved(k, player.obj.obj, moved, after)
                &&& r == (player.with_body(after.0), after.1, false)
            }
    }
}

/// A fuel pickup that has moved: if it does not touch the player nothing
/// more happens; else the engine says whether it is slow enough to be caught.
pub open spec fn fuel_touched<P: Physics>(
    k: &P,
    player: Player<P>,
    moved: P::Body,
    touching: bool,
    r: (Player<P>, P::Body, bool),
) -> bool {
    if !touching {
        r == (player, moved, false)
    } else {
        exists|slow: bool|
            {
                &&& #[trigger] call_ensures(P::is_slow, (k, &moved, &player.obj.obj), slow)
                &&& fuel_taken(k, player, moved, slow, r)
            }
    }
}

/// What a fuel pickup and the player make of each other in a tick: the
/// pickup moves; if it then touches the player slowly enough it is caught,
/// which changes neither and marks it to go; if it touches faster the two
/// collide; if it does not touch nothing more happens.
pub open spec fn fuel_met<P: Physics>(
    k: &P,
    player: Player<P>,
    fuel: P::Body,
    r: (Player<P>, P::Body, bool),
) -> bool {
    exists|moved: P::Body, touching: bool|
        {
            &&& #[trigger] call_ensures(P::update, (k, fuel), moved)
            &&& #[trigger] call_ensures(P::collides, (k, &player.obj.obj, &moved), touching)
            &&& fuel_touched(k, player, moved, touching, r)
        }
}

/// The fuel pass of a tick, with the player as the last pickup left it
/// (`fed`) and the number of pickups that were caught.
pub open spec fn fuels_fed<P: Physics>(
    k: &P,
    before: Snapshot<P>,
    after: Snapshot<P>,
    fed: Player<P>,
    caught: usize,
) -> bool {
    &&& culls(
        |c: Player<P>, fuel: P::Body, r: (Player<P>, P::Body, bool)| fuel_met(k, c, fuel, r),
        before.player,
        before.fuels,
        fed,
        after.fuels,
        caught as nat,
    )
    &&& call_ensures(P::refuel, (k, fed.thruster, caught), after.player.thruster)
    &&& after.player == fed.with_thruster(after.player.thruster)
    &&& after.asteroids == before.asteroids
    &&& after.bullets == before.bullets
}

/// The fuel pass of a tick: the pickups meet the player from the last to
/// the first, those that were caught leave, and the player's tank takes
/// what they held.
pub open spec fn fuels_caught<P: Physics>(k: &P, before: Snapshot<P>, after: Snapshot<P>) -> bool {
    exists|fed: Player<P>, caught: usize| #[trigger] fuels_fed(k, before, after, fed, caught)
}

fn fuel_step<P: Physics>(k: &P, player: Player<P>, fuel: P::Body) -> (r: (Player<P>, P::Body, bool))
    ensures
        fuel_met(k, player, fuel, r),
{
    let moved = k.update(fuel);
    let touching = k.collides(&player.obj.obj, &moved);
    if !touching {
        return (player, moved, false);
    }
    let slow = k.is_slow(&moved, &player.obj.obj);
    if slow {
        return (player, moved, true);
    }
    let mut ship = player;
    let mut bounced = moved;
    resolve(k, &mut ship.obj.obj, &mut bounced);
    assert(resolved(k, player.obj.obj, moved, (ship.obj.obj, bounced)));
    assert(ship == player.with_body(ship.obj.obj));
    (ship, bounced, false)
}

/// What an asteroid and the player make of each other in a tick: the
/// asteroid moves, and then the two meet.
pub open spec fn rock_met<P: Physics>(
    k: &P,
    player: Player<P>,
    rock: Asteroid<P>,
    r: (Player<P>, Asteroid<P>),
) -> bool {
    exists|moved: P::Body, after: (P::Body, P::Body)|
        {
            &&& #[trigger] call_ensures(P::update, (k, rock.obj), moved)
            &&& #[trigger] met(k, player.obj.obj, moved, after)
            &&& r == (player.with_body(after.0), rock.with_obj(after.1))
        }
}

/// The asteroid pass of a tick: the asteroids meet the player from the
/// first to the last.
pub open spec fn rocks_passed<P: Physics>(k: &P, before: Snapshot<P>, after: Snapshot<P>) -> bool {
    &&& visits(
        |c: Player<P>, rock: Asteroid<P>, r: (Player<P>, Asteroid<P>)| rock_met(k, c, rock, r),
        before.player,
        before.asteroids,
        after.player,
        after.asteroids,
    )
    &&& after.fuels == before.fuels
    &&& after.bullets == before.bullets
}

fn rock_step<P: Physics>(k: &P, player: Player<P>, rock: Asteroid<P>) -> (r: (
    Player<P>,
    Asteroid<P>,
))
    ensures
        rock_met(k, player, rock, r),
{
    let moved = k.update(rock.obj);
    let mut ship = player;
    let mut stone = rock;
    stone.obj = moved;
    check_and_resolve(k, &mut ship.obj.obj, &mut stone.obj);
    assert(met(k, player.obj.obj, moved, (ship.obj.obj, stone.obj)));
    assert(ship == player.with_body(ship.obj.obj));
    assert(stone == rock.with_obj(stone.obj));
    (ship, stone)
}

/// A bullet among the asteroids, with the number `n` of asteroids that it
/// was tried on and did not touch: the asteroid after those, if there is
/// one, is touched and takes one hit, and the bullet is spent (`dead`).
pub open spec fn struck_at<P: Physics>(
    k: &P,
    rocks: Seq<Asteroid<P>>,
    bullet: P::Body,
    after: Seq<Asteroid<P>>,
    dead: bool,
    n: int,
) -> bool {
    &&& 0 <= n <= rocks.len()
    &&& forall|j: int|
        0 <= j < n ==> #[trigger] call_ensures(P::collides, (k, &rocks[j].obj, &bullet), false)
    &&& if n < rocks.len() {
        &&& call_ensures(P::collides, (k, &rocks[n].obj, &bullet), true)
        &&& after.len() == rocks.len()
        &&& struck(k, rocks[n], after[n])
        &&& after == rocks.update(n, after[n])
        &&& dead
    } else {
        after == rocks && !dead
    }
}

/// A bullet among the asteroids: the first asteroid that it touches takes
/// one hit and the bullet is spent; the asteroids after that one are not
/// tried. If it touches none, nothing changes.
pub open spec fn first_struck<P: Physics>(
    k: &P,
    rocks: Seq<Asteroid<P>>,
    bullet: P::Body,
    after: Seq<Asteroid<P>>,
    dead: bool,
) -> bool {
    exists|n: int| #[trigger] struck_at(k, rocks, bullet, after, dead, n)
}

/// A bullet that has moved: if it touches the player, the player takes one
/// hit and the bullet is spent; else it goes among the asteroids.
pub open spec fn shot_on<P: Physics>(
    k: &P,
    c: (Player<P>, Seq<Asteroid<P>>),
    moved: P::Body,
    at_player: bool,
    r: ((Player<P>, Seq<Asteroid<P>>), P::Body, bool),
) -> bool {
    &&& r.1 == moved
    &&& if at_player {
        &&& call_ensures(P::hit, (k, c.0.obj.health), r.0.0.obj.health)
        &&& r.0.0 == c.0.with_health(r.0.0.obj.health)
        &&& r.0.1 == c.1
        &&& r.2
    } else {
        &&& r.0.0 == c.0
        &&& first_struck(k, c.1, moved, r.0.1, r.2)
    }
}

/// What a bullet does in a tick, the context being the player and the
/// asteroids: the bullet moves; if it then touches the player, the player
/// takes one hit and the bullet is spent; else it goes among the asteroids.
pub open spec fn shot<P: Physics>(
    k: &P,
    c: (Player<P>, Seq<Asteroid<P>>),
    bullet: P::Body,
    r: ((Player<P>, Seq<Asteroid<P>>), P::Body, bool),
) -> bool {
    exists|moved: P::Body, at_player: bool|
        {
            &&& #[trigger] call_ensures(P::update, (k, bullet), moved)
            &&& #[trigger] call_ensures(P::collides, (k, &c.0.obj.obj, &moved), at_player)
            &&& shot_on(k, c, moved, at_player, r)
        }
}

/// The bullet pass of a tick, with the number of bullets that were spent.
pub open spec fn bullets_spent<P: Physics>(
    k: &P,
    before: Snapshot<P>,
    after: Snapshot<P>,
    spent: nat,
) -> bool {
    &&& culls(
        |
            c: (Player<P>, Seq<Asteroid<P>>),
            bullet: P::Body,
            r: ((Player<P>, Seq<Asteroid<P>>), P::Body, bool),
        |
            shot(k, c, bullet, r),
        (before.player, before.asteroids),
        before.bullets,
        (after.player, after.asteroids),
        after.bullets,
        spent,
    )
    &&& after.fuels == before.fuels
}

/// The bullet pass of a tick: the bullets fly from the last to the first,
/// each against the player and the asteroids as the bullets before it left
/// them, and those that were spent leave.
pub open spec fn bullets_flown<P: Physics>(k: &P, before: Snapshot<P>, after: Snapshot<P>) -> bool {
    exists|spent: nat| #[trigger] bullets_spent(k, before, after, spent)
}

fn bullet_step<P: Physics>(
    k: &P,
    player: Player<P>,
    rocks: Objects<Asteroid<P>>,
    bullet: P::Body,
) -> (r: ((Player<P>, Objects<Asteroid<P>>), P::Body, bool))
    ensures
        shot(k, (player, rocks@), bullet, ((r.0.0, r.0.1@), r.1, r.2)),
        r.0.1.face() == rocks.face(),
{
    let moved = k.update(bullet);
    let at_player = k.collides(&player.obj.obj, &moved);
    if at_player {
        let mut ship = player;
        ship.obj.hit(k);
        assert(ship == player.with_health(ship.obj.health));
        return ((ship, rocks), moved, true);
    }
    let mut stones = rocks;
    let n = stones.len();
    let mut i: usize = 0;
    while i < n
        invariant
            i <= n,
            n == stones@.len(),
            stones@ == rocks@,
            stones.face() == rocks.face(),
            call_ensures(P::update, (k, bullet), moved),
            call_ensures(P::collides, (k, &player.obj.obj, &moved), false),
            forall|j: int|
                0 <= j < i ==> #[trigger] call_ensures(
                    P::collides,
                    (k, &rocks@[j].obj, &moved),
                    false,
                ),
        decreases n - i,
    {
        let mut rock = *stones.get(i);
        if k.collides(&rock.obj, &moved) {
            rock.hit(k);
            stones.set(i, rock);
            assert(struck_at(k, rocks@, moved, stones@, true, i as int));
            return ((player, stones), moved, true);
        }
        i += 1;
    }
    assert(struck_at(k, rocks@, moved, stones@, false, n as int));
    ((player, stones), moved, false)
}

/// `gone` says of each asteroid whether the engine finds it dead.
pub open spec fn dead_marked<P: Physics>(k: &P, rocks: Seq<Asteroid<P>>, gone: Seq<bool>) -> bool {
    &&& gone.len() == rocks.len()
    &&& forall|i: int|
        0 <= i < rocks.len() ==> #[trigger] call_ensures(P::is_dead, (k, &rocks[i].health), gone[i])
}

/// The removal of the dead, with the verdict on each asteroid.
pub open spec fn dead_sifted<P: Physics>(
    k: &P,
    before: Snapshot<P>,
    after: Snapshot<P>,
    gone: Seq<bool>,
) -> bool {
    &&& dead_marked(k, before.asteroids, gone)
    &&& after.asteroids == kept(before.asteroids, gone)
    &&& after.player == before.player
    &&& after.fuels == before.fuels
    &&& after.bullets == before.bullets
}

/// The removal of the dead: every asteroid that the engine finds dead
/// leaves, all at once; the others stay as they are, in their order.
pub open spec fn dead_removed<P: Physics>(k: &P, before: Snapshot<P>, after: Snapshot<P>) -> bool {
    exists|gone: Seq<bool>| #[trigger] dead_sifted(k, before, after, gone)
}

/// What two asteroids make of each other when they meet: their bodies
/// meet, their health stays.
pub open spec fn rocks_met<P: Physics>(
    k: &P,
    a: Asteroid<P>,
    b: Asteroid<P>,
    r: (Asteroid<P>, Asteroid<P>),
) -> bool {
    exists|after: (P::Body, P::Body)|
        {
            &&& #[trigger] met(k, a.obj, b.obj, after)
            &&& r == (a.with_obj(after.0), b.with_obj(after.1))
        }
}

/// The sweeps of a tick within each collection: the bullets among
/// themselves, the asteroids among themselves, the fuel pickups among
/// themselves.
pub open spec fn swept<P: Physics>(k: &P, before: Snapshot<P>, after: Snapshot<P>) -> bool {
    &&& after.player == before.player
    &&& sweeps(
        |a: P::Body, b: P::Body, r: (P::Body, P::Body)| met(k, a, b, r),
        before.bullets,
        after.bullets,
    )
    &&& sweeps(
        |a: Asteroid<P>, b: Asteroid<P>, r: (Asteroid<P>, Asteroid<P>)| rocks_met(k, a, b, r),
        before.asteroids,
        after.asteroids,
    )
    &&& sweeps(
        |a: P::Body, b: P::Body, r: (P::Body, P::Body)| met(k, a, b, r),
        before.fuels,
        after.fuels,
    )
}

fn sweep_bodies<P: Physics>(k: &P, bodies: &mut Objects<P::Body>)
    ensures
        sweeps(
            |a: P::Body, b: P::Body, r: (P::Body, P::Body)| met(k, a, b, r),
            old(bodies)@,
            final(bodies)@,
        ),
        final(bodies).face() == old(bodies).face(),
{
    let step = |a: P::Body, b: P::Body| -> (r: (P::Body, P::Body))
        ensures
            met(k, a, b, r),
        {
            let mut o1 = a;
            let mut o2 = b;
            check_and_resolve(k, &mut o1, &mut o2);
            (o1, o2)
        };
    bodies.self_collision(&step);
    proof {
        lemma_sweeps_under(
            |a: P::Body, b: P::Body, r: (P::Body, P::Body)| call_ensures(step, (a, b), r),
            |a: P::Body, b: P::Body, r: (P::Body, P::Body)| met(k, a, b, r),
            old(bodies)@,
            bodies@,
        );
    }
}

fn sweep_rocks<P: Physics>(k: &P, rocks: &mut Objects<Asteroid<P>>)
    ensures
        sweeps(
            |a: Asteroid<P>, b: Asteroid<P>, r: (Asteroid<P>, Asteroid<P>)| rocks_met(k, a, b, r),
            old(rocks)@,
            final(rocks)@,
        ),
        final(rocks).face() == old(rocks).face(),
{
    let step = |a: Asteroid<P>, b: Asteroid<P>| -> (r: (Asteroid<P>, Asteroid<P>))
        ensures
            rocks_met(k, a, b, r),
        {
            let mut o1 = a;
            let mut o2 = b;
            check_and_resolve(k, &mut o1.obj, &mut o2.obj);
            assert(met(k, a.obj, b.obj, (o1.obj, o2.obj)));
            assert(o1 == a.with_obj(o1.obj) && o2 == b.with_obj(o2.obj));
            (o1, o2)
        };
    rocks.self_collision(&step);
    proof {
        lemma_sweeps_under(
            |a: Asteroid<P>, b: Asteroid<P>, r: (Asteroid<P>, Asteroid<P>)|
                call_ensures(step, (a, b), r),
            |a: Asteroid<P>, b: Asteroid<P>, r: (Asteroid<P>, Asteroid<P>)| rocks_met(k, a, b, r),
            old(rocks)@,
            rocks@,
        );
    }
}

/// What a fuel pickup and an asteroid make of each other when they meet.
pub open spec fn fuel_rock_met<P: Physics>(
    k: &P,
    fuel: P::Body,
    rock: Asteroid<P>,
    r: (P::Body, Asteroid<P>),
) -> bool {
    exists|after: (P::Body, P::Body)|
        {
            &&& #[trigger] met(k, fuel, rock.obj, after)
            &&& r == (after.0, rock.with_obj(after.1))
        }
}

/// One fuel pickup against the asteroids and then the bullets, with the
/// pickup as the asteroids left it (`mid`).
pub open spec fn crossed_via<P: Physics>(
    k: &P,
    c: (Seq<Asteroid<P>>, Seq<P::Body>),
    fuel: P::Body,
    r: ((Seq<Asteroid<P>>, Seq<P::Body>), P::Body),
    mid: P::Body,
) -> bool {
    &&& visits(
        |f: P::Body, rock: Asteroid<P>, x: (P::Body, Asteroid<P>)| fuel_rock_met(k, f, rock, x),
        fuel,
        c.0,
        mid,
        r.0.0,
    )
    &&& visits(
        |f: P::Body, bullet: P::Body, x: (P::Body, P::Body)| met(k, f, bullet, x),
        mid,
        c.1,
        r.1,
        r.0.1,
    )
}

/// What one fuel pickup does in the sweep across collections, the context
/// being the asteroids and the bullets: it meets every asteroid, from the
/// first to the last, and then every bullet.
pub open spec fn crossed<P: Physics>(
    k: &P,
    c: (Seq<Asteroid<P>>, Seq<P::Body>),
    fuel: P::Body,
    r: ((Seq<Asteroid<P>>, Seq<P::Body>), P::Body),
) -> bool {
    exists|mid: P::Body| #[trigger] crossed_via(k, c, fuel, r, mid)
}

/// The sweep across collections: every fuel pickup, from the first to the
/// last, meets every asteroid and every bullet.
pub open spec fn cross_swept<P: Physics>(k: &P, before: Snapshot<P>, after: Snapshot<P>) -> bool {
    &&& after.player == before.player
    &&& visits(
        |
            c: (Seq<Asteroid<P>>, Seq<P::Body>),
            fuel: P::Body,
            r: ((Seq<Asteroid<P>>, Seq<P::Body>), P::Body),
        |
            crossed(k, c, fuel, r),
        (before.asteroids, before.bullets),
        before.fuels,
        (after.asteroids, after.bullets),
        after.fuels,
    )
}

fn cross_step<P: Physics>(
    k: &P,
    rocks: Objects<Asteroid<P>>,
    bullets: Objects<P::Body>,
    fuel: P::Body,
) -> (r: ((Objects<Asteroid<P>>, Objects<P::Body>), P::Body))
    ensures
        crossed(k, (rocks@, bullets@), fuel, ((r.0.0@, r.0.1@), r.1)),
        r.0.0.face() == rocks.face(),
        r.0.1.face() == bullets.face(),
{
    let on_rock = |f: P::Body, rock: Asteroid<P>| -> (x: (P::Body, Asteroid<P>))
        ensures
            fuel_rock_met(k, f, rock, x),
        {
            let mut o1 = f;
            let mut o2 = rock;
            check_and_resolve(k, &mut o1, &mut o2.obj);
            assert(met(k, f, rock.obj, (o1, o2.obj)));
            assert(o2 == rock.with_obj(o2.obj));
            (o1, o2)
        };
    let on_bullet = |f: P::Body, bullet: P::Body| -> (x: (P::Body, P::Body))
        ensures
            met(k, f, bullet, x),
        {
            let mut o1 = f;
            let mut o2 = bullet;
            check_and_resolve(k, &mut o1, &mut o2);
            (o1, o2)
        };
    let mut stones = rocks;
    let mut shots = bullets;
    let mid = stones.iterate(fuel, &on_rock);
    let last = shots.iterate(mid, &on_bullet);
    proof {
        lemma_visits_through(
            |f: P::Body, rock: Asteroid<P>, x: (P::Body, Asteroid<P>)|
                call_ensures(on_rock, (f, rock), x),
            |f: P::Body, rock: Asteroid<P>, x: (P::Body, Asteroid<P>)| fuel_rock_met(k, f, rock, x),
            |f: P::Body| f,
            fuel,
            rocks@,
            mid,
            stones@,
        );
        lemma_visits_through(
            |f: P::Body, bullet: P::Body, x: (P::Body, P::Body)|
                call_ensures(on_bullet, (f, bullet), x),
            |f: P::Body, bullet: P::Body, x: (P::Body, P::Body)| met(k, f, bullet, x),
            |f: P::Body| f,
            mid,
            bullets@,
            last,
            shots@,
        );
        assert(crossed_via(k, (rocks@, bullets@), fuel, ((stones@, shots@), last), mid));
    }
    ((stones, shots), last)
}

/// The first part of a tick: the player is steered and moves; nothing
/// else changes.
pub open spec fn player_steered<P: Physics>(
    k: &P,
    input: InputState,
    before: Snapshot<P>,
    after: Snapshot<P>,
) -> bool {
    &&& steered(k, input, before.player, after.player)
    &&& after.asteroids == before.asteroids
    &&& after.fuels == before.fuels
    &&& after.bullets == before.bullets
}

/// One tick, with the world as each part of it left it.
pub open spec fn tick_parts<P: Physics>(
    k: &P,
    input: InputState,
    before: Snapshot<P>,
    steered: Snapshot<P>,
    fed: Snapshot<P>,
    passed: Snapshot<P>,
    shot: Snapshot<P>,
    sifted: Snapshot<P>,
    swept_within: Snapshot<P>,
    after: Snapshot<P>,
) -> bool {
    &&& player_steered(k, input, before, steered)
    &&& fuels_caught(k, steered, fed)
    &&& rocks_passed(k, fed, passed)
    &&& bullets_flown(k, passed, shot)
    &&& dead_removed(k, shot, sifted)
    &&& swept(k, sifted, swept_within)
    &&& cross_swept(k, swept_within, after)
}

/// One tick of the world. In this order: the player is steered and moves;
/// the fuel pickups move and are caught by the player or bounce off it; the
/// asteroids move and bounce off the player; the bullets move and hit the
/// player or the first asteroid in their way; the dead asteroids leave;
/// each collection is swept against itself, the bullets first, then the
/// asteroids, then the fuel pickups; and the fuel pickups are swept against
/// the asteroids and the bullets.
pub open spec fn ticked<P: Physics>(
    k: &P,
    input: InputState,
    before: Snapshot<P>,
    after: Snapshot<P>,
) -> bool {
    exists|
        steered: Snapshot<P>,
        fed: Snapshot<P>,
        passed: Snapshot<P>,
        shot: Snapshot<P>,
        sifted: Snapshot<P>,
        swept_within: Snapshot<P>,
    | #[trigger]
        tick_parts(k, input, before, steered, fed, passed, shot, sifted, swept_within, after)
}

/// A tick makes no body: when it is over, no collection holds more
/// members than before. Only the fuel pass, the bullet pass and the removal
/// of the dead take members away.
pub proof fn lemma_tick_adds_nothing<P: Physics>(
    k: &P,
    input: InputState,
    before: Snapshot<P>,
    after: Snapshot<P>,
)
    requires
        ticked(k, input, before, after),
        before.asteroids.len() <= usize::MAX,
        before.fuels.len() <= usize::MAX,
        before.bullets.len() <= usize::MAX,
    ensures
        after.asteroids.len() <= before.asteroids.len(),
        after.fuels.len() <= before.fuels.len(),
        after.bullets.len() <= before.bullets.len(),
{
    let (steered, fed, passed, shot, sifted, swept_within) = choose|
        steered: Snapshot<P>,
        fed: Snapshot<P>,
        passed: Snapshot<P>,
        shot: Snapshot<P>,
        sifted: Snapshot<P>,
        swept_within: Snapshot<P>,
    | #[trigger]
        tick_parts(k, input, before, steered, fed, passed, shot, sifted, swept_within, after);
    lemma_fuel_pass_len(k, steered, fed);
    lemma_asteroid_pass_len(k, fed, passed);
    lemma_bullet_pass_len(k, passed, shot);
    lemma_remove_dead_len(k, shot, sifted);
    lemma_sweeps_len(
        |a: P::Body, b: P::Body, r: (P::Body, P::Body)| met(k, a, b, r),
        sifted.bullets,
        swept_within.bullets,
    );
    lemma_sweeps_len(
        |a: Asteroid<P>, b: Asteroid<P>, r: (Asteroid<P>, Asteroid<P>)| rocks_met(k, a, b, r),
        sifted.asteroids,
        swept_within.asteroids,
    );
    lemma_sweeps_len(
        |a: P::Body, b: P::Body, r: (P::Body, P::Body)| met(k, a, b, r),
        sifted.fuels,
        swept_within.fuels,
    );
    lemma_cross_len(k, swept_within, after);
}

proof fn lemma_fuel_pass_len<P: Physics>(k: &P, before: Snapshot<P>, after: Snapshot<P>)
    requires
        fuels_caught(k, before, after),
    ensures
        after.fuels.len() <= before.fuels.len(),
        after.asteroids == before.asteroids,
        after.bullets == before.bullets,
{
    let (fed, caught) = choose|fed: Player<P>, caught: usize| #[trigger]
        fuels_fed(k, before, after, fed, caught);
    let step = |c: Player<P>, fuel: P::Body, r: (Player<P>, P::Body, bool)| fuel_met(k, c, fuel, r);
    let (cs, stepped, gone) = choose|cs: Seq<Player<P>>, stepped: Seq<P::Body>, gone: Seq<bool>|
     #[trigger]
        cull_trace(
            step,
            before.player,
            before.fuels,
            fed,
            after.fuels,
            caught as nat,
            cs,
            stepped,
            gone,
        );
    lemma_kept_len(stepped, gone);
}

proof fn lemma_asteroid_pass_len<P: Physics>(k: &P, before: Snapshot<P>, after: Snapshot<P>)
    requires
        rocks_passed(k, before, after),
    ensures
        after.asteroids.len() == before.asteroids.len(),
        after.fuels == before.fuels,
        after.bullets == before.bullets,
{
    let step = |c: Player<P>, rock: Asteroid<P>, r: (Player<P>, Asteroid<P>)| rock_met(k, c, rock, r);
    let cs = choose|cs: Seq<Player<P>>| #[trigger]
        visit_trace(step, before.player, before.asteroids, after.player, after.asteroids, cs);
}

proof fn lemma_bullet_pass_len<P: Physics>(k: &P, before: Snapshot<P>, after: Snapshot<P>)
    requires
        bullets_flown(k, before, after),
    ensures
        after.asteroids.len() == before.asteroids.len(),
        after.bullets.len() <= before.bullets.len(),
        after.fuels == before.fuels,
{
    let spent = choose|spent: nat| #[trigger] bullets_spent(k, before, after, spent);
    let step = |
        c: (Player<P>, Seq<Asteroid<P>>),
        bullet: P::Body,
        r: ((Player<P>, Seq<Asteroid<P>>), P::Body, bool),
    |
        shot(k, c, bullet, r);
    let ctx = (before.player, before.asteroids);
    let out = (after.player, after.asteroids);
    let (cs, stepped, gone) = choose|
        cs: Seq<(Player<P>, Seq<Asteroid<P>>)>,
        stepped: Seq<P::Body>,
        gone: Seq<bool>,
    | #[trigger]
        cull_trace(step, ctx, before.bullets, out, after.bullets, spent, cs, stepped, gone);
    lemma_kept_len(stepped, gone);
    let n = before.asteroids.len();
    assert forall|
        c: (Player<P>, Seq<Asteroid<P>>),
        bullet: P::Body,
        r: ((Player<P>, Seq<Asteroid<P>>), P::Body, bool),
    | c.1.len() == n && #[trigger] step(c, bullet, r) implies r.0.1.len() == n by {
        let (moved, at_player) = choose|moved: P::Body, at_player: bool|
            {
                &&& #[trigger] call_ensures(P::update, (k, bullet), moved)
                &&& #[trigger] call_ensures(P::collides, (k, &c.0.obj.obj, &moved), at_player)
                &&& shot_on(k, c, moved, at_player, r)
            };
        if !at_player {
            let i = choose|i: int| #[trigger] struck_at(k, c.1, moved, r.0.1, r.2, i);
        }
    }
    lemma_culls_keep(
        step,
        |c: (Player<P>, Seq<Asteroid<P>>)| c.1.len() == n,
        ctx,
        before.bullets,
        out,
        after.bullets,
        spent,
    );
}

proof fn lemma_remove_dead_len<P: Physics>(k: &P, before: Snapshot<P>, after: Snapshot<P>)
    requires
        dead_removed(k, before, after),
    ensures
        after.asteroids.len() <= before.asteroids.len(),
        after.fuels == before.fuels,
        after.bullets == before.bullets,
{
    let gone = choose|gone: Seq<bool>| #[trigger] dead_sifted(k, before, after, gone);
    lemma_kept_len(before.asteroids, gone);
}

proof fn lemma_cross_len<P: Physics>(k: &P, before: Snapshot<P>, after: Snapshot<P>)
    requires
        cross_swept(k, before, after),
    ensures
        after.asteroids.len() == before.asteroids.len(),
        after.fuels.len() == before.fuels.len(),
        after.bullets.len() == before.bullets.len(),
{
    let step = |
        c: (Seq<Asteroid<P>>, Seq<P::Body>),
        fuel: P::Body,
        r: ((Seq<Asteroid<P>>, Seq<P::Body>), P::Body),
    |
        crossed(k, c, fuel, r);
    let ctx = (before.asteroids, before.bullets);
    let out = (after.asteroids, after.bullets);
    let cs = choose|cs: Seq<(Seq<Asteroid<P>>, Seq<P::Body>)>| #[trigger]
        visit_trace(step, ctx, before.fuels, out, after.fuels, cs);
    let rocks = before.asteroids.len();
    let shots = before.bullets.len();
    assert forall|
        c: (Seq<Asteroid<P>>, Seq<P::Body>),
        fuel: P::Body,
        r: ((Seq<Asteroid<P>>, Seq<P::Body>), P::Body),
    | c.0.len() == rocks && c.1.len() == shots && #[trigger] step(c, fuel, r) implies r.0.0.len()
        == rocks && r.0.1.len() == shots by {
        let mid = choose|mid: P::Body| #[trigger] crossed_via(k, c, fuel, r, mid);
        let on_rock = |f: P::Body, rock: Asteroid<P>, x: (P::Body, Asteroid<P>)|
            fuel_rock_met(k, f, rock, x);
        let on_bullet = |f: P::Body, bullet: P::Body, x: (P::Body, P::Body)| met(k, f, bullet, x);
        let fs = choose|fs: Seq<P::Body>| #[trigger] visit_trace(on_rock, fuel, c.0, mid, r.0.0, fs);
        let gs = choose|gs: Seq<P::Body>| #[trigger] visit_trace(on_bullet, mid, c.1, r.1, r.0.1, gs);
    }
    lemma_visits_keep(
        step,
        |c: (Seq<Asteroid<P>>, Seq<P::Body>)| c.0.len() == rocks && c.1.len() == shots,
        ctx,
        before.fuels,
        out,
        after.fuels,
    );
}

impl<P: Physics> World<P> {
    /// A world of these bodies.
    pub fn new(
        player: Player<P>,
        asteroids: Objects<Asteroid<P>>,
        fuels: Objects<P::Body>,
        bullets: Objects<P::Body>,
    ) -> (world: Self)
        ensures
            world.player == player,
            world.asteroids == asteroids,
            world.fuels == fuels,
            world.bullets == bullets,
    {
        World { player, asteroids, fuels, bullets }
    }

    /// The player's part of a tick.
    pub fn steer(&mut self, input_state: &InputState, k: &P)
        ensures
            player_steered(k, *input_state, old(self)@, final(self)@),
            final(self).asteroids == old(self).asteroids,
            final(self).fuels == old(self).fuels,
            final(self).bullets == old(self).bullets,
    {
        let turned = k.turn(self.player.obj.obj, input_state.hor());
        let switched = k.set_power(self.player.thruster, input_state.ver() == 1);
        let set = k.throttle(switched, input_state.throttle());
        self.player.obj.obj = turned;
        self.player.thruster = set;
        self.player.update(k);
        proof {
            assert(call_ensures(P::turn, (k, old(self).player.obj.obj, sign(input_state.hor as int) as i8), turned));
            assert(call_ensures(P::set_power, (k, old(self).player.thruster, input_state.ver > 0), switched));
            assert(call_ensures(P::throttle, (k, switched, sign(input_state.throttle as int) as i8), set));
        }
    }

    /// The fuel pass of a tick.
    pub fn fuel_pass(&mut self, k: &P)
        ensures
            fuels_caught(k, old(self)@, final(self)@),
            final(self).fuels.face() == old(self).fuels.face(),
            final(self).asteroids == old(self).asteroids,
            final(self).bullets == old(self).bullets,
    {
        let step = |c: Player<P>, fuel: P::Body| -> (r: (Player<P>, P::Body, bool))
            ensures
                fuel_met(k, c, fuel, r),
            { fuel_step(k, c, fuel) };
        let (fed, caught) = self.fuels.iterate_rmv_indices(self.player, &step);
        let tank = k.refuel(fed.thruster, caught);
        proof {
            lemma_culls_through(
                |c: Player<P>, fuel: P::Body, r: (Player<P>, P::Body, bool)|
                    call_ensures(step, (c, fuel), r),
                |c: Player<P>, fuel: P::Body, r: (Player<P>, P::Body, bool)| fuel_met(k, c, fuel, r),
                |c: Player<P>| c,
                old(self).player,
                old(self).fuels@,
                fed,
                self.fuels@,
                caught as nat,
            );
        }
        self.player = fed;
        self.player.thruster = tank;
        proof {
            assert(fuels_fed(k, old(self)@, self@, fed, caught));
        }
    }

    /// The asteroid pass of a tick.
    pub fn asteroid_pass(&mut self, k: &P)
        ensures
            rocks_passed(k, old(self)@, final(self)@),
            final(self).asteroids.face() == old(self).asteroids.face(),
            final(self).fuels == old(self).fuels,
            final(self).bullets == old(self).bullets,
    {
        let step = |c: Player<P>, rock: Asteroid<P>| -> (r: (Player<P>, Asteroid<P>))
            ensures
                rock_met(k, c, rock, r),
            { rock_step(k, c, rock) };
        let ship = self.asteroids.iterate(self.player, &step);
        proof {
            lemma_visits_through(
                |c: Player<P>, rock: Asteroid<P>, r: (Player<P>, Asteroid<P>)|
                    call_ensures(step, (c, rock), r),
                |c: Player<P>, rock: Asteroid<P>, r: (Player<P>, Asteroid<P>)| rock_met(k, c, rock, r),
                |c: Player<P>| c,
                old(self).player,
                old(self).asteroids@,
                ship,
                self.asteroids@,
            );
        }
        self.player = ship;
    }

    /// The bullet pass of a tick.
    pub fn bullet_pass(&mut self, k: &P)
        ensures
            bullets_flown(k, old(self)@, final(self)@),
            final(self).asteroids.face() == old(self).asteroids.face(),
            final(self).bullets.face() == old(self).bullets.face(),
            final(self).fuels == old(self).fuels,
    {
        let step = |c: (Player<P>, Objects<Asteroid<P>>), bullet: P::Body| -> (r: (
            (Player<P>, Objects<Asteroid<P>>),
            P::Body,
            bool,
        ))
            ensures
                shot(k, (c.0, c.1@), bullet, ((r.0.0, r.0.1@), r.1, r.2)),
                r.0.1.face() == c.1.face(),
            { bullet_step(k, c.0, c.1, bullet) };
        let ghost face = self.asteroids.face();
        let mut rocks = Objects::new(Vec::new(), self.asteroids.sprite());
        std::mem::swap(&mut rocks, &mut self.asteroids);
        let ghost ctx = (self.player, rocks);
        let (out, spent) = self.bullets.iterate_rmv_indices((self.player, rocks), &step);
        proof {
            let called = |
                c: (Player<P>, Objects<Asteroid<P>>),
                bullet: P::Body,
                r: ((Player<P>, Objects<Asteroid<P>>), P::Body, bool),
            |
                call_ensures(step, (c, bullet), r);
            lemma_culls_through(
                called,
                |
                    c: (Player<P>, Seq<Asteroid<P>>),
                    bullet: P::Body,
                    r: ((Player<P>, Seq<Asteroid<P>>), P::Body, bool),
                |
                    shot(k, c, bullet, r),
                |c: (Player<P>, Objects<Asteroid<P>>)| (c.0, c.1@),
                ctx,
                old(self).bullets@,
                out,
                self.bullets@,
                spent as nat,
            );
            lemma_culls_keep(
                called,
                |c: (Player<P>, Objects<Asteroid<P>>)| c.1.face() == face,
                ctx,
                old(self).bullets@,
                out,
                self.bullets@,
                spent as nat,
            );
        }
        self.player = out.0;
        self.asteroids = out.1;
        proof {
            assert(bullets_spent(k, old(self)@, self@, spent as nat));
        }
    }

    /// Removes the asteroids that are dead.
    pub fn remove_dead(&mut self, k: &P)
        ensures
            dead_removed(k, old(self)@, final(self)@),
            final(self).asteroids.face() == old(self).asteroids.face(),
            final(self).player == old(self).player,
            final(self).fuels == old(self).fuels,
            final(self).bullets == old(self).bullets,
    {
        let step = |c: (), rock: Asteroid<P>| -> (r: ((), Asteroid<P>, bool))
            ensures
                r.1 == rock,
                call_ensures(P::is_dead, (k, &rock.health), r.2),
            { ((), rock, rock.is_dead(k)) };
        let (_, buried) = self.asteroids.iterate_rmv_indices((), &step);
        proof {
            let called = |c: (), rock: Asteroid<P>, r: ((), Asteroid<P>, bool)|
                call_ensures(step, (c, rock), r);
            let before = old(self).asteroids@;
            let (cs, stepped, gone) = choose|cs: Seq<()>, stepped: Seq<Asteroid<P>>, gone: Seq<bool>|
             #[trigger]
                cull_trace(called, (), before, (), self.asteroids@, buried as nat, cs, stepped, gone);
            assert forall|i: int| 0 <= i < before.len() implies #[trigger] stepped[i] == before[i] by {
                assert(called(cs[i + 1], before[i], (cs[i], stepped[i], gone[i])));
            }
            assert forall|i: int| 0 <= i < before.len() implies #[trigger] call_ensures(
                P::is_dead,
                (k, &before[i].health),
                gone[i],
            ) by {
                assert(called(cs[i + 1], before[i], (cs[i], stepped[i], gone[i])));
            }
            assert(stepped =~= before);
            assert(dead_sifted(k, old(self)@, self@, gone));
        }
    }

    /// The sweeps of a tick within each collection.
    pub fn self_collisions(&mut self, k: &P)
        ensures
            swept(k, old(self)@, final(self)@),
            final(self).asteroids.face() == old(self).asteroids.face(),
            final(self).fuels.face() == old(self).fuels.face(),
            final(self).bullets.face() == old(self).bullets.face(),
    {
        sweep_bodies(k, &mut self.bullets);
        sweep_rocks(k, &mut self.asteroids);
        sweep_bodies(k, &mut self.fuels);
    }

    /// The sweep of a tick across collections.
    pub fn cross_collisions(&mut self, k: &P)
        ensures
            cross_swept(k, old(self)@, final(self)@),
            final(self).asteroids.face() == old(self).asteroids.face(),
            final(self).fuels.face() == old(self).fuels.face(),
            final(self).bullets.face() == old(self).bullets.face(),
    {
        let step = |c: (Objects<Asteroid<P>>, Objects<P::Body>), fuel: P::Body| -> (r: (
            (Objects<Asteroid<P>>, Objects<P::Body>),
            P::Body,
        ))
            ensures
                crossed(k, (c.0@, c.1@), fuel, ((r.0.0@, r.0.1@), r.1)),
                r.0.0.face() == c.0.face(),
                r.0.1.face() == c.1.face(),
            { cross_step(k, c.0, c.1, fuel) };
        let ghost rock_face = self.asteroids.face();
        let ghost shot_face = self.bullets.face();
        let mut rocks = Objects::new(Vec::new(), self.asteroids.sprite());
        let mut shots = Objects::new(Vec::new(), self.bullets.sprite());
        std::mem::swap(&mut rocks, &mut self.asteroids);
        std::mem::swap(&mut shots, &mut self.bullets);
        let ghost ctx = (rocks, shots);
        let out = self.fuels.iterate((rocks, shots), &step);
        proof {
            let called = |
                c: (Objects<Asteroid<P>>, Objects<P::Body>),
                fuel: P::Body,
                r: ((Objects<Asteroid<P>>, Objects<P::Body>), P::Body),
            |
                call_ensures(step, (c, fuel), r);
            lemma_visits_through(
                called,
                |
                    c: (Seq<Asteroid<P>>, Seq<P::Body>),
                    fuel: P::Body,
                    r: ((Seq<Asteroid<P>>, Seq<P::Body>), P::Body),
                |
                    crossed(k, c, fuel, r),
                |c: (Objects<Asteroid<P>>, Objects<P::Body>)| (c.0@, c.1@),
                ctx,
                old(self).fuels@,
                out,
                self.fuels@,
            );
            lemma_visits_keep(
                called,
                |c: (Objects<Asteroid<P>>, Objects<P::Body>)|
                    c.0.face() == rock_face && c.1.face() == shot_face,
                ctx,
                old(self).fuels@,
                out,
                self.fuels@,
            );
        }
        self.asteroids = out.0;
        self.bullets = out.1;
    }

    /// Advances the world by one tick.
    pub fn physics_update(&mut self, input_state: &InputState, k: &P)
        ensures
            ticked(k, *input_state, old(self)@, final(self)@),
            final(self).asteroids.face() == old(self).asteroids.face(),
            final(self).fuels.face() == old(self).fuels.face(),
            final(self).bullets.face() == old(self).bullets.face(),
    {
        self.steer(input_state, k);
        let ghost steered = self@;
        self.fuel_pass(k);
        let ghost fed = self@;
        self.asteroid_pass(k);
        let ghost passed = self@;
        self.bullet_pass(k);
        let ghost shot = self@;
        self.remove_dead(k);
        let ghost sifted = self@;
        self.self_collisions(k);
        let ghost swept_within = self@;
        self.cross_collisions(k);
        proof {
            assert(tick_parts(
                k,
                *input_state,
                old(self)@,
                steered,
                fed,
                passed,
                shot,
                sifted,
                swept_within,
                self@,
            ));
        }
    }
}

} // verus!
