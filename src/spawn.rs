//! Periodic timers, and the creation of rockets and shots.

use vstd::prelude::*;

use crate::arena::Arena;
use crate::config::{
    MAX_TICK_MS, PLAYER_FIRE_MS, ROCKET_FIRE_MS, ROCKET_MAX_HP, ROCKET_SPAWN_MS,
    ROCKET_SPAWN_OFFSET,
};
use crate::entity::{
    player_placed, projectiles_sorted, projectiles_wf, rockets_sorted, rockets_wf, EntityId, HealthBar,
    Player, Position, Projectile, Rocket, PLAYER_ID,
};

verus! {

/// Time accumulated toward the next firing of each periodic timer, in milliseconds.
#[derive(Clone, Copy, Debug, PartialEq, Eq, Structural)]
pub struct Timers {
    pub rocket_spawn_ms: u64,
    pub player_fire_ms: u64,
    pub rocket_fire_ms: u64,
}

/// A timer that has accumulated `elapsed` fires when `dt` more brings it to its interval.
pub open spec fn fires(elapsed: u64, dt: u64, interval: u64) -> bool {
    elapsed + dt >= interval
}

/// What a timer has accumulated after `dt` more: on firing it keeps only the
/// remainder past whole intervals.
pub open spec fn after(elapsed: u64, dt: u64, interval: u64) -> u64 {
    if fires(elapsed, dt, interval) {
        ((elapsed + dt) % (interval as int)) as u64
    } else {
        (elapsed + dt) as u64
    }
}

impl Timers {
    /// Each timer is short of its interval.
    pub open spec fn wf(self) -> bool {
        &&& self.rocket_spawn_ms < ROCKET_SPAWN_MS
        &&& self.player_fire_ms < PLAYER_FIRE_MS
        &&& self.rocket_fire_ms < ROCKET_FIRE_MS
    }

    /// All timers at zero.
    pub fn new() -> (r: Timers)
        ensures
            r.wf(),
            r.rocket_spawn_ms == 0 && r.player_fire_ms == 0 && r.rocket_fire_ms == 0,
    {
        Timers { rocket_spawn_ms: 0, player_fire_ms: 0, rocket_fire_ms: 0 }
    }
}

/// Advances a timer by `dt` milliseconds; `true` when it fires.
pub fn poll_timer(elapsed: &mut u64, dt: u64, interval: u64) -> (fired: bool)
    requires
        0 < interval <= MAX_TICK_MS,
        *old(elapsed) < interval,
        dt <= MAX_TICK_MS,
    ensures
        fired == fires(*old(elapsed), dt, interval),
        *final(elapsed) == after(*old(elapsed), dt, interval),
        *final(elapsed) < interval,
{
    let total: u64 = *elapsed + dt;
    if total >= interval {
        *elapsed = total % interval;
        true
    } else {
        *elapsed = total;
        false
    }
}

/// A player's shot, fired from the ship's position.
pub open spec fn player_shot(q: Player, id: int) -> Projectile {
    Projectile { id: id as u64, pos: q.pos, is_player_projectile: true }
}

/// The shots of a volley: one from each armed rocket, in the rockets' order,
/// with identifiers counting up by two from `first_id`.
pub open spec fn volley(rockets: Seq<Rocket>, first_id: int) -> Seq<Projectile>
    decreases rockets.len(),
{
    if rockets.len() == 0 {
        Seq::empty()
    } else {
        let r = rockets[0];
        if r.is_shooting {
            seq![Projectile { id: first_id as u64, pos: r.pos, is_player_projectile: false }]
                + volley(rockets.drop_first(), first_id + 2)
        } else {
            volley(rockets.drop_first(), first_id)
        }
    }
}

/// A new rocket just right of the arena at height `y`, with full health.
pub open spec fn new_rocket(a: Arena, y: i64, armed: bool, id: int) -> Rocket {
    Rocket {
        id: id as u64,
        pos: Position { x: (a.half_width + ROCKET_SPAWN_OFFSET) as i64, y },
        is_shooting: armed,
        health: HealthBar {
            id: (id + 2) as u64,
            max_health: ROCKET_MAX_HP,
            current_health: ROCKET_MAX_HP,
        },
    }
}

/// Fires the player's pending shot, if there is one, and clears the request.
/// The shot takes identifier `next_id`, and the next shot's is two more.
pub fn shoot_projectile_player(
    player: &mut Option<Player>,
    shots: &mut Vec<Projectile>,
    next_id: &mut EntityId,
    Ghost(a): Ghost<Arena>,
)
    requires
        *old(next_id) + 2 <= u64::MAX,
        *old(next_id) % 2 == 1,
        a.wf(),
        player_placed(*old(player), a, 4),
        projectiles_wf(old(shots)@, a, *old(next_id) as int),
        projectiles_sorted(old(shots)@),
    ensures
        old(player).is_some() && old(player).unwrap().is_shooting ==> {
            &&& *final(player) == Some(Player { is_shooting: false, ..old(player).unwrap() })
            &&& final(shots)@ == old(shots)@.push(player_shot(old(player).unwrap(), *old(next_id) as int))
            &&& *final(next_id) == *old(next_id) + 2
        },
        !(old(player).is_some() && old(player).unwrap().is_shooting) ==> {
            &&& *final(player) == *old(player)
            &&& final(shots)@ == old(shots)@
            &&& *final(next_id) == *old(next_id)
        },
        *final(next_id) % 2 == 1,
        projectiles_wf(final(shots)@, a, *final(next_id) as int),
        projectiles_sorted(final(shots)@),
{
    let ghost before = shots@;
    if let Some(q) = player {
        if q.is_shooting {
            let p = Projectile { id: *next_id, pos: q.pos, is_player_projectile: true };
            shots.push(p);
            q.is_shooting = false;
            *next_id = *next_id + 2;
            assert forall|j: int| 0 <= j < shots@.len() implies #[trigger] shots@[j].wf(
                a,
                *next_id as int,
            ) by {
                if j < before.len() {
                    assert(shots@[j] == before[j]);
                    assert(before[j].wf(a, *next_id - 2));
                }
            }
            assert forall|i: int, j: int| 0 <= i < j < shots@.len() implies #[trigger] shots@[i].id
                < #[trigger] shots@[j].id by {
                assert(shots@[i] == before[i]);
                assert(before[i].wf(a, *next_id - 2));
                if j < before.len() {
                    assert(shots@[j] == before[j]);
                }
            }
        }
    }
}

/// Every armed rocket fires one shot from where it is.
pub fn shoot_projectile_rocket(
    rockets: &Vec<Rocket>,
    shots: &mut Vec<Projectile>,
    next_id: &mut EntityId,
    Ghost(a): Ghost<Arena>,
    Ghost(ship_id): Ghost<int>,
)
    requires
        *old(next_id) + 2 * rockets@.len() <= u64::MAX,
        *old(next_id) % 2 == 1,
        rockets_wf(rockets@, a, ship_id),
        projectiles_wf(old(shots)@, a, *old(next_id) as int),
        projectiles_sorted(old(shots)@),
    ensures
        final(shots)@ == old(shots)@ + volley(rockets@, *old(next_id) as int),
        *final(next_id) == *old(next_id) + 2 * volley(rockets@, *old(next_id) as int).len(),
        volley(rockets@, *old(next_id) as int).len() <= rockets@.len(),
        *final(next_id) % 2 == 1,
        projectiles_wf(final(shots)@, a, *final(next_id) as int),
        projectiles_sorted(final(shots)@),
{
    let ghost s = rockets@;
    let ghost n = s.len() as int;
    let ghost id0 = *next_id as int;
    let ghost shots0 = shots@;
    let mut i: usize = 0;
    assert(s.subrange(0, n) =~= s);
    assert(shots@ + volley(s, id0) =~= shots0 + volley(s, id0));
    while i < rockets.len()
        invariant
            rockets@ == s,
            n == s.len(),
            i <= n,
            *next_id - id0 <= 2 * i,
            (*next_id - id0) % 2 == 0,
            *next_id % 2 == 1,
            *next_id <= u64::MAX,
            id0 + 2 * n <= u64::MAX,
            rockets_wf(s, a, ship_id),
            shots@.len() == shots0.len() + (*next_id - id0) / 2,
            projectiles_wf(shots@, a, *next_id as int),
            projectiles_sorted(shots@),
            shots0 + volley(s, id0) == shots@ + volley(s.subrange(i as int, n), *next_id as int),
        decreases n - i,
    {
        let r = rockets[i];
        let ghost t = s.subrange(i as int, n);
        assert(t[0] == r);
        assert(t.drop_first() =~= s.subrange(i + 1, n));
        assert(s[i as int].wf(a, ship_id));
        if r.is_shooting {
            let ghost before = shots@;
            let p = Projectile { id: *next_id, pos: r.pos, is_player_projectile: false };
            shots.push(p);
            *next_id = *next_id + 2;
            assert(before.push(p) + volley(s.subrange(i + 1, n), *next_id as int) =~= before + (
            seq![p] + volley(s.subrange(i + 1, n), *next_id as int)));
            assert forall|j: int| 0 <= j < shots@.len() implies #[trigger] shots@[j].wf(
                a,
                *next_id as int,
            ) by {
                if j < before.len() {
                    assert(shots@[j] == before[j]);
                    assert(before[j].wf(a, *next_id - 2));
                } else {
                    assert(shots@[j] == p);
                }
            }
            assert forall|x: int, y: int| 0 <= x < y < shots@.len() implies #[trigger] shots@[x].id
                < #[trigger] shots@[y].id by {
                assert(shots@[x] == before[x]);
                assert(before[x].wf(a, *next_id - 2));
                if y < before.len() {
                    assert(shots@[y] == before[y]);
                }
            }
        }
        i = i + 1;
    }
    assert(s.subrange(n, n) =~= Seq::<Rocket>::empty());
    assert(shots@ + Seq::<Projectile>::empty() =~= shots@);
    assert(shots0 + volley(s, id0) =~= shots@);
}

/// Brings in a new rocket just right of the arena at height `y`; it takes
/// identifier `next_id` and its health bar the next even one.
pub fn spawn_rocket(
    rockets: &mut Vec<Rocket>,
    a: &Arena,
    y: i64,
    armed: bool,
    next_id: &mut EntityId,
)
    requires
        a.wf(),
        -a.half_height <= y <= a.half_height,
        *old(next_id) + 4 <= u64::MAX,
        *old(next_id) % 2 == 0,
        PLAYER_ID + 4 <= *old(next_id),
        rockets_wf(old(rockets)@, *a, *old(next_id) as int),
        rockets_sorted(old(rockets)@),
    ensures
        final(rockets)@ == old(rockets)@.push(new_rocket(*a, y, armed, *old(next_id) as int)),
        *final(next_id) == *old(next_id) + 4,
        rockets_wf(final(rockets)@, *a, *final(next_id) as int),
        rockets_sorted(final(rockets)@),
{
    let ghost before = rockets@;
    let id = *next_id;
    let r = Rocket {
        id,
        pos: Position { x: a.half_width + ROCKET_SPAWN_OFFSET, y },
        is_shooting: armed,
        health: HealthBar::new(id + 2, ROCKET_MAX_HP),
    };
    rockets.push(r);
    *next_id = id + 4;
    assert forall|j: int| 0 <= j < rockets@.len() implies #[trigger] rockets@[j].wf(
        *a,
        *next_id as int,
    ) by {
        if j < before.len() {
            assert(rockets@[j] == before[j]);
            assert(before[j].wf(*a, id as int));
        } else {
            assert(rockets@[j] == r);
        }
    }
    assert forall|x: int, y: int| 0 <= x < y < rockets@.len() implies #[trigger] rockets@[x].health.id
        < #[trigger] rockets@[y].id by {
        assert(rockets@[x] == before[x]);
        assert(before[x].wf(*a, id as int));
        if y < before.len() {
            assert(rockets@[y] == before[y]);
        }
    }
}

} // verus!
