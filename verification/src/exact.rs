//! What follows when the engine is exact: a tick has one outcome.
//!
//! The contracts of the world speak of what the engine's operations allow.
//! Where every operation allows one result only, as arithmetic does, they
//! fix what a tick makes of a world.

use crate::ext::{sign, InputState};
use crate::obj::{thrusted, Asteroid, Player};
use crate::objects::{lemma_culls_one, lemma_sweeps_one, lemma_visits_one};
use crate::phys::{met, resolved, Physics};
use crate::world::{
    bullets_flown, bullets_spent, cross_swept, crossed, crossed_via, dead_removed,
    dead_sifted, first_struck, fuel_met, fuel_taken, fuel_touched, fuel_rock_met, fuels_caught, fuels_fed,
    rock_met, rocks_met, rocks_passed, shot, shot_on, steered, struck_at, swept, tick_parts, ticked,
    Snapshot,
};
use vstd::prelude::*;

verus! {

/// The engine is exact: each of its operations allows one result only for
/// what it is given.
pub open spec fn exact<P: Physics>(k: &P) -> bool {
    &&& forall|body: P::Body, hor: i8, r: P::Body, s: P::Body| #[trigger]
        call_ensures(P::turn, (k, body, hor), r) && #[trigger] call_ensures(
            P::turn,
            (k, body, hor),
            s,
        ) ==> r == s
    &&& forall|thruster: P::Thruster, on: bool, r: P::Thruster, s: P::Thruster| #[trigger]
        call_ensures(P::set_power, (k, thruster, on), r) && #[trigger] call_ensures(
            P::set_power,
            (k, thruster, on),
            s,
        ) ==> r == s
    &&& forall|thruster: P::Thruster, dir: i8, r: P::Thruster, s: P::Thruster| #[trigger]
        call_ensures(P::throttle, (k, thruster, dir), r) && #[trigger] call_ensures(
            P::throttle,
            (k, thruster, dir),
            s,
        ) ==> r == s
    &&& forall|
        body: P::Body,
        thruster: P::Thruster,
        r: (P::Body, P::Accel, P::Thruster),
        s: (P::Body, P::Accel, P::Thruster),
    | #[trigger]
        call_ensures(P::thrust, (k, body, thruster), r) && #[trigger] call_ensures(
            P::thrust,
            (k, body, thruster),
            s,
        ) ==> r == s
    &&& forall|thruster: P::Thruster, pickups: usize, r: P::Thruster, s: P::Thruster| #[trigger]
        call_ensures(P::refuel, (k, thruster, pickups), r) && #[trigger] call_ensures(
            P::refuel,
            (k, thruster, pickups),
            s,
        ) ==> r == s
    &&& forall|body: P::Body, r: P::Body, s: P::Body| #[trigger]
        call_ensures(P::update, (k, body), r) && #[trigger] call_ensures(P::update, (k, body), s)
            ==> r == s
    &&& forall|a: P::Body, b: P::Body, r: bool, s: bool| #[trigger]
        call_ensures(P::collides, (k, &a, &b), r) && #[trigger] call_ensures(
            P::collides,
            (k, &a, &b),
            s,
        ) ==> r == s
    &&& forall|a: P::Body, b: P::Body, r: bool, s: bool| #[trigger]
        call_ensures(P::is_slow, (k, &a, &b), r) && #[trigger] call_ensures(
            P::is_slow,
            (k, &a, &b),
            s,
        ) ==> r == s
    &&& forall|a: P::Body, b: P::Body, r: (P::Body, P::Body), s: (P::Body, P::Body)| #[trigger]
        call_ensures(P::uncollide, (k, a, b), r) && #[trigger] call_ensures(
            P::uncollide,
            (k, a, b),
            s,
        ) ==> r == s
    &&& forall|a: P::Body, b: P::Body, r: (P::Body, P::Body), s: (P::Body, P::Body)| #[trigger]
        call_ensures(P::elastic_collide, (k, a, b), r) && #[trigger] call_ensures(
            P::elastic_collide,
            (k, a, b),
            s,
        ) ==> r == s
    &&& forall|health: P::Health, r: P::Health, s: P::Health| #[trigger]
        call_ensures(P::hit, (k, health), r) && #[trigger] call_ensures(P::hit, (k, health), s)
            ==> r == s
    &&& forall|health: P::Health, r: bool, s: bool| #[trigger]
        call_ensures(P::is_dead, (k, &health), r) && #[trigger] call_ensures(
            P::is_dead,
            (k, &health),
            s,
        ) ==> r == s
}

/// With an exact engine, a collision has one outcome.
pub proof fn lemma_resolved_one<P: Physics>(
    k: &P,
    a: P::Body,
    b: P::Body,
    r: (P::Body, P::Body),
    s: (P::Body, P::Body),
)
    requires
        exact(k),
        resolved(k, a, b, r),
        resolved(k, a, b, s),
    ensures
        r == s,
{
    let x = choose|x: (P::Body, P::Body)|
        {
            &&& #[trigger] call_ensures(P::uncollide, (k, a, b), x)
            &&& call_ensures(P::elastic_collide, (k, x.0, x.1), r)
        };
    let y = choose|y: (P::Body, P::Body)|
        {
            &&& #[trigger] call_ensures(P::uncollide, (k, a, b), y)
            &&& call_ensures(P::elastic_collide, (k, y.0, y.1), s)
        };
    assert(x == y);
}

/// With an exact engine, a meeting has one outcome.
pub proof fn lemma_met_one<P: Physics>(
    k: &P,
    a: P::Body,
    b: P::Body,
    r: (P::Body, P::Body),
    s: (P::Body, P::Body),
)
    requires
        exact(k),
        met(k, a, b, r),
        met(k, a, b, s),
    ensures
        r == s,
{
    let x = choose|x: bool|
        {
            &&& #[trigger] call_ensures(P::collides, (k, &a, &b), x)
            &&& if x {
                resolved(k, a, b, r)
            } else {
                r == (a, b)
            }
        };
    let y = choose|y: bool|
        {
            &&& #[trigger] call_ensures(P::collides, (k, &a, &b), y)
            &&& if y {
                resolved(k, a, b, s)
            } else {
                s == (a, b)
            }
        };
    assert(x == y);
    if x {
        lemma_resolved_one(k, a, b, r, s);
    }
}

/// With an exact engine, the player's part of a tick has one outcome.
pub proof fn lemma_steered_one<P: Physics>(
    k: &P,
    input: InputState,
    before: Player<P>,
    r: Player<P>,
    s: Player<P>,
)
    requires
        exact(k),
        steered(k, input, before, r),
        steered(k, input, before, s),
    ensures
        r == s,
{
    let (ta, sa, ha) = choose|turned: P::Body, switched: P::Thruster, set: P::Thruster|
        {
            &&& #[trigger] call_ensures(
                P::turn,
                (k, before.obj.obj, sign(input.hor as int) as i8),
                turned,
            )
            &&& call_ensures(P::set_power, (k, before.thruster, input.ver > 0), switched)
            &&& #[trigger] call_ensures(
                P::throttle,
                (k, switched, sign(input.throttle as int) as i8),
                set,
            )
            &&& thrusted(k, before.with_body(turned).with_thruster(set), r)
        };
    let (tb, sb, hb) = choose|turned: P::Body, switched: P::Thruster, set: P::Thruster|
        {
            &&& #[trigger] call_ensures(
                P::turn,
                (k, before.obj.obj, sign(input.hor as int) as i8),
                turned,
            )
            &&& call_ensures(P::set_power, (k, before.thruster, input.ver > 0), switched)
            &&& #[trigger] call_ensures(
                P::throttle,
                (k, switched, sign(input.throttle as int) as i8),
                set,
            )
            &&& thrusted(k, before.with_body(turned).with_thruster(set), s)
        };
    assert(ta == tb);
    assert(sa == sb);
    assert(ha == hb);
    assert((r.obj.obj, r.acc, r.thruster) == (s.obj.obj, s.acc, s.thruster));
}

/// With an exact engine, a fuel pickup and the player make one thing of
/// each other.
pub proof fn lemma_fuel_met_one<P: Physics>(
    k: &P,
    player: Player<P>,
    fuel: P::Body,
    r: (Player<P>, P::Body, bool),
    s: (Player<P>, P::Body, bool),
)
    requires
        exact(k),
        fuel_met(k, player, fuel, r),
        fuel_met(k, player, fuel, s),
    ensures
        r == s,
{
    let (m1, t1) = choose|moved: P::Body, touching: bool|
        {
            &&& #[trigger] call_ensures(P::update, (k, fuel), moved)
            &&& #[trigger] call_ensures(P::collides, (k, &player.obj.obj, &moved), touching)
            &&& fuel_touched(k, player, moved, touching, r)
        };
    let (m2, t2) = choose|moved: P::Body, touching: bool|
        {
            &&& #[trigger] call_ensures(P::update, (k, fuel), moved)
            &&& #[trigger] call_ensures(P::collides, (k, &player.obj.obj, &moved), touching)
            &&& fuel_touched(k, player, moved, touching, s)
        };
    assert(m1 == m2);
    assert(t1 == t2);
    if t1 {
        let w1 = choose|slow: bool|
            {
                &&& #[trigger] call_ensures(P::is_slow, (k, &m1, &player.obj.obj), slow)
                &&& fuel_taken(k, player, m1, slow, r)
            };
        let w2 = choose|slow: bool|
            {
                &&& #[trigger] call_ensures(P::is_slow, (k, &m1, &player.obj.obj), slow)
                &&& fuel_taken(k, player, m1, slow, s)
            };
        assert(w1 == w2);
        if !w1 {
            let a1 = choose|after: (P::Body, P::Body)|
                {
                    &&& #[trigger] resolved(k, player.obj.obj, m1, after)
                    &&& r == (player.with_body(after.0), after.1, false)
                };
            let a2 = choose|after: (P::Body, P::Body)|
                {
                    &&& #[trigger] resolved(k, player.obj.obj, m1, after)
                    &&& s == (player.with_body(after.0), after.1, false)
                };
            lemma_resolved_one(k, player.obj.obj, m1, a1, a2);
        }
    }
}

/// With an exact engine, an asteroid and the player make one thing of each
/// other.
pub proof fn lemma_rock_met_one<P: Physics>(
    k: &P,
    player: Player<P>,
    rock: Asteroid<P>,
    r: (Player<P>, Asteroid<P>),
    s: (Player<P>, Asteroid<P>),
)
    requires
        exact(k),
        rock_met(k, player, rock, r),
        rock_met(k, player, rock, s),
    ensures
        r == s,
{
    let (m1, a1) = choose|moved: P::Body, after: (P::Body, P::Body)|
        {
            &&& #[trigger] call_ensures(P::update, (k, rock.obj), moved)
            &&& #[trigger] met(k, player.obj.obj, moved, after)
            &&& r == (player.with_body(after.0), rock.with_obj(after.1))
        };
    let (m2, a2) = choose|moved: P::Body, after: (P::Body, P::Body)|
        {
            &&& #[trigger] call_ensures(P::update, (k, rock.obj), moved)
            &&& #[trigger] met(k, player.obj.obj, moved, after)
            &&& s == (player.with_body(after.0), rock.with_obj(after.1))
        };
    assert(m1 == m2);
    lemma_met_one(k, player.obj.obj, m1, a1, a2);
}

/// With an exact engine, two asteroids make one thing of each other.
pub proof fn lemma_rocks_met_one<P: Physics>(
    k: &P,
    a: Asteroid<P>,
    b: Asteroid<P>,
    r: (Asteroid<P>, Asteroid<P>),
    s: (Asteroid<P>, Asteroid<P>),
)
    requires
        exact(k),
        rocks_met(k, a, b, r),
        rocks_met(k, a, b, s),
    ensures
        r == s,
{
    let x = choose|after: (P::Body, P::Body)|
        {
            &&& #[trigger] met(k, a.obj, b.obj, after)
            &&& r == (a.with_obj(after.0), b.with_obj(after.1))
        };
    let y = choose|after: (P::Body, P::Body)|
        {
            &&& #[trigger] met(k, a.obj, b.obj, after)
            &&& s == (a.with_obj(after.0), b.with_obj(after.1))
        };
    lemma_met_one(k, a.obj, b.obj, x, y);
}

/// With an exact engine, a fuel pickup and an asteroid make one thing of
/// each other.
pub proof fn lemma_fuel_rock_met_one<P: Physics>(
    k: &P,
    fuel: P::Body,
    rock: Asteroid<P>,
    r: (P::Body, Asteroid<P>),
    s: (P::Body, Asteroid<P>),
)
    requires
        exact(k),
        fuel_rock_met(k, fuel, rock, r),
        fuel_rock_met(k, fuel, rock, s),
    ensures
        r == s,
{
    let x = choose|after: (P::Body, P::Body)|
        {
            &&& #[trigger] met(k, fuel, rock.obj, after)
            &&& r == (after.0, rock.with_obj(after.1))
        };
    let y = choose|after: (P::Body, P::Body)|
        {
            &&& #[trigger] met(k, fuel, rock.obj, after)
            &&& s == (after.0, rock.with_obj(after.1))
        };
    lemma_met_one(k, fuel, rock.obj, x, y);
}

/// With an exact engine, a bullet among the asteroids has one outcome.
pub proof fn lemma_first_struck_one<P: Physics>(
    k: &P,
    rocks: Seq<Asteroid<P>>,
    bullet: P::Body,
    r: Seq<Asteroid<P>>,
    dead: bool,
    s: Seq<Asteroid<P>>,
    other_dead: bool,
)
    requires
        exact(k),
        first_struck(k, rocks, bullet, r, dead),
        first_struck(k, rocks, bullet, s, other_dead),
    ensures
        r == s,
        dead == other_dead,
{
    let n = choose|n: int| #[trigger] struck_at(k, rocks, bullet, r, dead, n);
    let m = choose|m: int| #[trigger] struck_at(k, rocks, bullet, s, other_dead, m);
    if n < m {
        assert(call_ensures(P::collides, (k, &rocks[n].obj, &bullet), false));
    }
    if m < n {
        assert(call_ensures(P::collides, (k, &rocks[m].obj, &bullet), false));
    }
    assert(n == m);
    if n < rocks.len() {
        assert(r[n].health == s[n].health);
        assert(r[n] == s[n]);
    }
}

/// With an exact engine, a bullet has one outcome.
pub proof fn lemma_shot_one<P: Physics>(
    k: &P,
    c: (Player<P>, Seq<Asteroid<P>>),
    bullet: P::Body,
    r: ((Player<P>, Seq<Asteroid<P>>), P::Body, bool),
    s: ((Player<P>, Seq<Asteroid<P>>), P::Body, bool),
)
    requires
        exact(k),
        shot(k, c, bullet, r),
        shot(k, c, bullet, s),
    ensures
        r == s,
{
    let (ma, pa) = choose|moved: P::Body, at_player: bool|
        {
            &&& #[trigger] call_ensures(P::update, (k, bullet), moved)
            &&& #[trigger] call_ensures(P::collides, (k, &c.0.obj.obj, &moved), at_player)
            &&& shot_on(k, c, moved, at_player, r)
        };
    let (mb, pb) = choose|moved: P::Body, at_player: bool|
        {
            &&& #[trigger] call_ensures(P::update, (k, bullet), moved)
            &&& #[trigger] call_ensures(P::collides, (k, &c.0.obj.obj, &moved), at_player)
            &&& shot_on(k, c, moved, at_player, s)
        };
    assert(ma == mb);
    assert(pa == pb);
    if !pa {
        lemma_first_struck_one(k, c.1, ma, r.0.1, r.2, s.0.1, s.2);
    }
}

/// With an exact engine, one fuel pickup's sweep across the collections has
/// one outcome.
pub proof fn lemma_crossed_one<P: Physics>(
    k: &P,
    c: (Seq<Asteroid<P>>, Seq<P::Body>),
    fuel: P::Body,
    r: ((Seq<Asteroid<P>>, Seq<P::Body>), P::Body),
    s: ((Seq<Asteroid<P>>, Seq<P::Body>), P::Body),
)
    requires
        exact(k),
        crossed(k, c, fuel, r),
        crossed(k, c, fuel, s),
    ensures
        r == s,
{
    let x = choose|mid: P::Body| #[trigger] crossed_via(k, c, fuel, r, mid);
    let y = choose|mid: P::Body| #[trigger] crossed_via(k, c, fuel, s, mid);
    let on_rock = |f: P::Body, rock: Asteroid<P>, x: (P::Body, Asteroid<P>)|
        fuel_rock_met(k, f, rock, x);
    let on_bullet = |f: P::Body, bullet: P::Body, x: (P::Body, P::Body)| met(k, f, bullet, x);
    assert forall|f: P::Body, rock: Asteroid<P>, u: (P::Body, Asteroid<P>), v: (P::Body, Asteroid<P>)|
     #[trigger]
        on_rock(f, rock, u) && #[trigger] on_rock(f, rock, v) implies u == v by {
        lemma_fuel_rock_met_one(k, f, rock, u, v);
    }
    assert forall|f: P::Body, bullet: P::Body, u: (P::Body, P::Body), v: (P::Body, P::Body)|
     #[trigger]
        on_bullet(f, bullet, u) && #[trigger] on_bullet(f, bullet, v) implies u == v by {
        lemma_met_one(k, f, bullet, u, v);
    }
    lemma_visits_one(on_rock, fuel, c.0, x, r.0.0, y, s.0.0);
    lemma_visits_one(on_bullet, x, c.1, r.1, r.0.1, s.1, s.0.1);
}

proof fn lemma_fuel_pass_one<P: Physics>(
    k: &P,
    before: Snapshot<P>,
    r: Snapshot<P>,
    s: Snapshot<P>,
)
    requires
        exact(k),
        fuels_caught(k, before, r),
        fuels_caught(k, before, s),
    ensures
        r == s,
{
    let (fed, caught) = choose|fed: Player<P>, caught: usize| #[trigger]
        fuels_fed(k, before, r, fed, caught);
    let (other_fed, other_caught) = choose|fed: Player<P>, caught: usize| #[trigger]
        fuels_fed(k, before, s, fed, caught);
    let step = |c: Player<P>, fuel: P::Body, x: (Player<P>, P::Body, bool)| fuel_met(k, c, fuel, x);
    assert forall|
        c: Player<P>,
        fuel: P::Body,
        u: (Player<P>, P::Body, bool),
        v: (Player<P>, P::Body, bool),
    | #[trigger] step(c, fuel, u) && #[trigger] step(c, fuel, v) implies u == v by {
        lemma_fuel_met_one(k, c, fuel, u, v);
    }
    lemma_culls_one(
        step,
        before.player,
        before.fuels,
        fed,
        r.fuels,
        caught as nat,
        other_fed,
        s.fuels,
        other_caught as nat,
    );
}

proof fn lemma_asteroid_pass_one<P: Physics>(
    k: &P,
    before: Snapshot<P>,
    r: Snapshot<P>,
    s: Snapshot<P>,
)
    requires
        exact(k),
        rocks_passed(k, before, r),
        rocks_passed(k, before, s),
    ensures
        r == s,
{
    let step = |c: Player<P>, rock: Asteroid<P>, x: (Player<P>, Asteroid<P>)| rock_met(k, c, rock, x);
    assert forall|
        c: Player<P>,
        rock: Asteroid<P>,
        u: (Player<P>, Asteroid<P>),
        v: (Player<P>, Asteroid<P>),
    | #[trigger] step(c, rock, u) && #[trigger] step(c, rock, v) implies u == v by {
        lemma_rock_met_one(k, c, rock, u, v);
    }
    lemma_visits_one(step, before.player, before.asteroids, r.player, r.asteroids, s.player, s.asteroids);
}

proof fn lemma_bullet_pass_one<P: Physics>(
    k: &P,
    before: Snapshot<P>,
    r: Snapshot<P>,
    s: Snapshot<P>,
)
    requires
        exact(k),
        bullets_flown(k, before, r),
        bullets_flown(k, before, s),
    ensures
        r == s,
{
    let spent = choose|spent: nat| #[trigger] bullets_spent(k, before, r, spent);
    let other_spent = choose|spent: nat| #[trigger] bullets_spent(k, before, s, spent);
    let step = |
        c: (Player<P>, Seq<Asteroid<P>>),
        bullet: P::Body,
        x: ((Player<P>, Seq<Asteroid<P>>), P::Body, bool),
    |
        shot(k, c, bullet, x);
    assert forall|
        c: (Player<P>, Seq<Asteroid<P>>),
        bullet: P::Body,
        u: ((Player<P>, Seq<Asteroid<P>>), P::Body, bool),
        v: ((Player<P>, Seq<Asteroid<P>>), P::Body, bool),
    | #[trigger] step(c, bullet, u) && #[trigger] step(c, bullet, v) implies u == v by {
        lemma_shot_one(k, c, bullet, u, v);
    }
    lemma_culls_one(
        step,
        (before.player, before.asteroids),
        before.bullets,
        (r.player, r.asteroids),
        r.bullets,
        spent,
        (s.player, s.asteroids),
        s.bullets,
        other_spent,
    );
}

proof fn lemma_remove_dead_one<P: Physics>(
    k: &P,
    before: Snapshot<P>,
    r: Snapshot<P>,
    s: Snapshot<P>,
)
    requires
        exact(k),
        dead_removed(k, before, r),
        dead_removed(k, before, s),
    ensures
        r == s,
{
    let gone = choose|gone: Seq<bool>| #[trigger] dead_sifted(k, before, r, gone);
    let other = choose|gone: Seq<bool>| #[trigger] dead_sifted(k, before, s, gone);
    assert forall|i: int| 0 <= i < gone.len() implies gone[i] == other[i] by {
        assert(call_ensures(P::is_dead, (k, &before.asteroids[i].health), gone[i]));
        assert(call_ensures(P::is_dead, (k, &before.asteroids[i].health), other[i]));
    }
    assert(gone =~= other);
}

proof fn lemma_swept_one<P: Physics>(k: &P, before: Snapshot<P>, r: Snapshot<P>, s: Snapshot<P>)
    requires
        exact(k),
        swept(k, before, r),
        swept(k, before, s),
    ensures
        r == s,
{
    let bodies = |a: P::Body, b: P::Body, x: (P::Body, P::Body)| met(k, a, b, x);
    let rocks = |a: Asteroid<P>, b: Asteroid<P>, x: (Asteroid<P>, Asteroid<P>)| rocks_met(k, a, b, x);
    assert forall|a: P::Body, b: P::Body, u: (P::Body, P::Body), v: (P::Body, P::Body)| #[trigger]
        bodies(a, b, u) && #[trigger] bodies(a, b, v) implies u == v by {
        lemma_met_one(k, a, b, u, v);
    }
    assert forall|
        a: Asteroid<P>,
        b: Asteroid<P>,
        u: (Asteroid<P>, Asteroid<P>),
        v: (Asteroid<P>, Asteroid<P>),
    | #[trigger] rocks(a, b, u) && #[trigger] rocks(a, b, v) implies u == v by {
        lemma_rocks_met_one(k, a, b, u, v);
    }
    lemma_sweeps_one(bodies, before.bullets, r.bullets, s.bullets);
    lemma_sweeps_one(rocks, before.asteroids, r.asteroids, s.asteroids);
    lemma_sweeps_one(bodies, before.fuels, r.fuels, s.fuels);
}

proof fn lemma_cross_swept_one<P: Physics>(
    k: &P,
    before: Snapshot<P>,
    r: Snapshot<P>,
    s: Snapshot<P>,
)
    requires
        exact(k),
        cross_swept(k, before, r),
        cross_swept(k, before, s),
    ensures
        r == s,
{
    let step = |
        c: (Seq<Asteroid<P>>, Seq<P::Body>),
        fuel: P::Body,
        x: ((Seq<Asteroid<P>>, Seq<P::Body>), P::Body),
    |
        crossed(k, c, fuel, x);
    assert forall|
        c: (Seq<Asteroid<P>>, Seq<P::Body>),
        fuel: P::Body,
        u: ((Seq<Asteroid<P>>, Seq<P::Body>), P::Body),
        v: ((Seq<Asteroid<P>>, Seq<P::Body>), P::Body),
    | #[trigger] step(c, fuel, u) && #[trigger] step(c, fuel, v) implies u == v by {
        lemma_crossed_one(k, c, fuel, u, v);
    }
    lemma_visits_one(
        step,
        (before.asteroids, before.bullets),
        before.fuels,
        (r.asteroids, r.bullets),
        r.fuels,
        (s.asteroids, s.bullets),
        s.fuels,
    );
}

/// A tick is a function of the world, the input and an exact engine: two
/// ticks from the same world under the same input end in the same world.
pub proof fn lemma_tick_one<P: Physics>(
    k: &P,
    input: InputState,
    before: Snapshot<P>,
    after: Snapshot<P>,
    other: Snapshot<P>,
)
    requires
        exact(k),
        ticked(k, input, before, after),
        ticked(k, input, before, other),
    ensures
        after == other,
{
    let (a1, a2, a3, a4, a5, a6) = choose|
        steered: Snapshot<P>,
        fed: Snapshot<P>,
        passed: Snapshot<P>,
        shot: Snapshot<P>,
        sifted: Snapshot<P>,
        swept_within: Snapshot<P>,
    | #[trigger]
        tick_parts(k, input, before, steered, fed, passed, shot, sifted, swept_within, after);
    let (b1, b2, b3, b4, b5, b6) = choose|
        steered: Snapshot<P>,
        fed: Snapshot<P>,
        passed: Snapshot<P>,
        shot: Snapshot<P>,
        sifted: Snapshot<P>,
        swept_within: Snapshot<P>,
    | #[trigger]
        tick_parts(k, input, before, steered, fed, passed, shot, sifted, swept_within, other);
    lemma_steered_one(k, input, before.player, a1.player, b1.player);
    assert(a1 == b1);
    lemma_fuel_pass_one(k, a1, a2, b2);
    lemma_asteroid_pass_one(k, a2, a3, b3);
    lemma_bullet_pass_one(k, a3, a4, b4);
    lemma_remove_dead_one(k, a4, a5, b5);
    lemma_swept_one(k, a5, a6, b6);
    lemma_cross_swept_one(k, a6, after, other);
}

} // verus!
