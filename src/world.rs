//! The entity store and the tick that drives it.

use vstd::prelude::*;

use crate::arena::Arena;
use crate::combat::{
    cancelled, player_projectile_rocket_collision, player_rocket_projectile_collision, player_shots,
    rammed, rocket_player_collision, rocket_projectile_player_collision, rocket_shots, survivors,
};
use crate::config::{
    ARMED_DIE_FACE, ARMED_DIE_FACES, MAX_TICK_MS, PLAYER_FIRE_MS, PLAYER_MAX_HP, ROCKET_FIRE_MS,
    ROCKET_MAX_HP, ROCKET_SPAWN_MS,
};
use crate::entity::{
    lemma_projectiles_sorted_push, lemma_rockets_sorted_push, projectiles_precede,
    projectiles_sorted, rockets_precede, rockets_sorted, PLAYER_ID, player_wf, projectiles_wf, rockets_wf, DirectionX, DirectionY, EntityId, HealthBar, Intent, Player,
    Position, Projectile, Rocket,
};
use crate::movement::{
    drifted_projectiles, drifted_rockets, moved_player, player_movement, projectile_movement,
    rocket_movement,
};
use crate::random::random_in;
use crate::spawn::{
    after, fires, new_rocket, player_shot, poll_timer, shoot_projectile_player,
    shoot_projectile_rocket, spawn_rocket, volley, Timers,
};

verus! {

/// The numbers that the spawner draws at random for one tick: the height of
/// a new rocket, and a die that arms it on one face.
#[derive(Clone, Copy, Debug, PartialEq, Eq, Structural)]
pub struct SpawnRoll {
    pub y_offset: i64,
    pub armed_die: i64,
}

impl SpawnRoll {
    /// Values that the draws can give in arena `a`.
    pub open spec fn valid(self, a: Arena) -> bool {
        &&& a.spawn_y_low() <= self.y_offset < a.spawn_y_high()
        &&& 0 <= self.armed_die < ARMED_DIE_FACES
    }
}

/// The entity store: every live ship and shot, the spawn timers, and the
/// count of rockets destroyed by damage.
#[derive(Debug)]
pub struct World {
    pub arena: Arena,
    pub player: Option<Player>,
    pub rockets: Vec<Rocket>,
    pub projectiles: Vec<Projectile>,
    pub timers: Timers,
    pub next_id: EntityId,
    pub next_shot_id: EntityId,
    pub enemies_destroyed: u64,
    pub projectile_cancellation: bool,
}

/// The mathematical value of a `World`.
pub struct WorldModel {
    pub arena: Arena,
    pub player: Option<Player>,
    pub rockets: Seq<Rocket>,
    pub projectiles: Seq<Projectile>,
    pub timers: Timers,
    pub next_id: EntityId,
    pub next_shot_id: EntityId,
    pub enemies_destroyed: u64,
    pub projectile_cancellation: bool,
}

impl View for World {
    type V = WorldModel;

    open spec fn view(&self) -> WorldModel {
        WorldModel {
            arena: self.arena,
            player: self.player,
            rockets: self.rockets@,
            projectiles: self.projectiles@,
            timers: self.timers,
            next_id: self.next_id,
            next_shot_id: self.next_shot_id,
            enemies_destroyed: self.enemies_destroyed,
            projectile_cancellation: self.projectile_cancellation,
        }
    }
}

/// Rockets removed by identifier, the others kept in order.
pub open spec fn without_rocket(s: Seq<Rocket>, id: EntityId) -> Seq<Rocket>
    decreases s.len(),
{
    if s.len() == 0 {
        s
    } else if s[0].id == id {
        without_rocket(s.drop_first(), id)
    } else {
        seq![s[0]] + without_rocket(s.drop_first(), id)
    }
}

/// Projectiles removed by identifier, the others kept in order.
pub open spec fn without_projectile(s: Seq<Projectile>, id: EntityId) -> Seq<Projectile>
    decreases s.len(),
{
    if s.len() == 0 {
        s
    } else if s[0].id == id {
        without_projectile(s.drop_first(), id)
    } else {
        seq![s[0]] + without_projectile(s.drop_first(), id)
    }
}

/// The ship, among `s`, that owns health bar `bar`: the first one whose bar it is.
pub open spec fn rocket_bar_owner(s: Seq<Rocket>, bar: EntityId) -> Option<EntityId>
    decreases s.len(),
{
    if s.len() == 0 {
        None
    } else if s[0].health.id == bar {
        Some(s[0].id)
    } else {
        rocket_bar_owner(s.drop_first(), bar)
    }
}

impl WorldModel {
    /// Every ship alive and within its bounds, every shot in the field, every
    /// identifier issued and unique (see `lemma_ids_distinct`), every timer
    /// short of its interval.
    pub open spec fn wf(self) -> bool {
        &&& self.arena.wf()
        &&& player_wf(self.player, self.arena, self.next_id as int)
        &&& rockets_wf(self.rockets, self.arena, self.next_id as int)
        &&& projectiles_wf(self.projectiles, self.arena, self.next_shot_id as int)
        &&& rockets_sorted(self.rockets)
        &&& projectiles_sorted(self.projectiles)
        &&& self.next_id % 2 == 0
        &&& PLAYER_ID + 4 <= self.next_id
        &&& self.next_shot_id % 2 == 1
        &&& self.timers.wf()
    }

    /// Every live ship has some health left and no more than its maximum:
    /// a ship whose health reaches zero is gone, with its health bar.
    pub open spec fn healths_in_bounds(self) -> bool {
        &&& self.player.is_some() ==> self.player.unwrap().health.wf()
        &&& forall|i: int| 0 <= i < self.rockets.len() ==> (#[trigger] self.rockets[i]).health.wf()
    }

    /// No two live entities (ships, health bars, shots) share an identifier.
    pub open spec fn ids_distinct(self) -> bool {
        &&& forall|i: int, j: int|
            0 <= i < self.rockets.len() && 0 <= j < self.rockets.len() ==> {
                &&& #[trigger] self.rockets[i].id != #[trigger] self.rockets[j].health.id
                &&& (i != j ==> self.rockets[i].id != self.rockets[j].id
                    && self.rockets[i].health.id != self.rockets[j].health.id)
            }
        &&& forall|i: int, j: int|
            0 <= i < self.projectiles.len() && 0 <= j < self.projectiles.len() && i != j
                ==> #[trigger] self.projectiles[i].id != #[trigger] self.projectiles[j].id
        &&& forall|i: int, j: int|
            0 <= i < self.projectiles.len() && 0 <= j < self.rockets.len() ==> {
                &&& #[trigger] self.projectiles[i].id != #[trigger] self.rockets[j].id
                &&& self.projectiles[i].id != self.rockets[j].health.id
            }
        &&& self.player.is_some() ==> {
            let q = self.player.unwrap();
            &&& q.id != q.health.id
            &&& forall|j: int|
                0 <= j < self.rockets.len() ==> {
                    &&& q.id != #[trigger] self.rockets[j].id
                    &&& q.id != self.rockets[j].health.id
                    &&& q.health.id != self.rockets[j].id
                    &&& q.health.id != self.rockets[j].health.id
                }
            &&& forall|j: int|
                0 <= j < self.projectiles.len() ==> q.id != #[trigger] self.projectiles[j].id
                    && q.health.id != self.projectiles[j].id
        }
    }

    /// Room for the identifiers and kills that one tick can use up.
    pub open spec fn has_room(self) -> bool {
        &&& self.next_id + 4 <= u64::MAX
        &&& self.next_shot_id + 2 * self.rockets.len() + 2 <= u64::MAX
        &&& self.enemies_destroyed + self.rockets.len() + 1 <= u64::MAX
    }

    /// The player takes on the tick's intent; a fire request stays pending
    /// until the player's fire timer serves it.
    pub open spec fn with_intent(self, i: Intent) -> WorldModel {
        WorldModel {
            player: match self.player {
                Some(q) => Some(
                    Player {
                        direction_x: i.x,
                        direction_y: i.y,
                        is_shooting: q.is_shooting || i.fire,
                        ..q
                    },
                ),
                None => None,
            },
            ..self
        }
    }

    /// Every ship and shot after one movement step.
    pub open spec fn moved(self) -> WorldModel {
        WorldModel {
            player: match self.player {
                Some(q) => Some(moved_player(q, self.arena)),
                None => None,
            },
            rockets: drifted_rockets(self.rockets, self.arena),
            projectiles: drifted_projectiles(self.projectiles, self.arena),
            ..self
        }
    }

    /// The player's pending shot is fired, if there is one.
    pub open spec fn player_fired(self) -> WorldModel {
        match self.player {
            Some(q) => if q.is_shooting {
                WorldModel {
                    player: Some(Player { is_shooting: false, ..q }),
                    projectiles: self.projectiles.push(player_shot(q, self.next_shot_id as int)),
                    next_shot_id: (self.next_shot_id + 2) as u64,
                    ..self
                }
            } else {
                self
            },
            None => self,
        }
    }

    /// Every armed rocket fires.
    pub open spec fn rockets_fired(self) -> WorldModel {
        let v = volley(self.rockets, self.next_shot_id as int);
        WorldModel {
            projectiles: self.projectiles + v,
            next_shot_id: (self.next_shot_id + 2 * v.len()) as u64,
            ..self
        }
    }

    /// A new rocket enters at the drawn height, armed when the die shows its face.
    pub open spec fn rocket_spawned(self, roll: SpawnRoll) -> WorldModel {
        WorldModel {
            rockets: self.rockets.push(
                new_rocket(
                    self.arena,
                    roll.y_offset,
                    roll.armed_die == ARMED_DIE_FACE,
                    self.next_id as int,
                ),
            ),
            next_id: (self.next_id + 4) as u64,
            ..self
        }
    }

    /// The timers advance by `dt`; the player's fire timer, the rockets' fire
    /// timer and the spawn timer, in that order, each act when they fire.
    pub open spec fn spawned(self, dt: u64, roll: SpawnRoll) -> WorldModel {
        let t = self.timers;
        let w0 = WorldModel {
            timers: Timers {
                rocket_spawn_ms: after(t.rocket_spawn_ms, dt, ROCKET_SPAWN_MS),
                player_fire_ms: after(t.player_fire_ms, dt, PLAYER_FIRE_MS),
                rocket_fire_ms: after(t.rocket_fire_ms, dt, ROCKET_FIRE_MS),
            },
            ..self
        };
        let w1 = if fires(t.player_fire_ms, dt, PLAYER_FIRE_MS) {
            w0.player_fired()
        } else {
            w0
        };
        let w2 = if fires(t.rocket_fire_ms, dt, ROCKET_FIRE_MS) {
            w1.rockets_fired()
        } else {
            w1
        };
        if fires(t.rocket_spawn_ms, dt, ROCKET_SPAWN_MS) {
            w2.rocket_spawned(roll)
        } else {
            w2
        }
    }

    /// The collision passes, in order: interception of opposite shots (when
    /// enabled), the player's shots against the rockets (the rockets killed
    /// leave, and are counted), the rockets' shots against the player, and
    /// rockets ramming the player; a player killed in the last two leaves
    /// at the end.
    pub open spec fn resolved(self) -> WorldModel {
        let w1 = if self.projectile_cancellation {
            WorldModel { projectiles: cancelled(self.projectiles), ..self }
        } else {
            self
        };
        let r2 = player_shots(w1.rockets, w1.projectiles);
        let left = survivors(r2.0);
        let w2 = WorldModel {
            rockets: left,
            projectiles: r2.1,
            enemies_destroyed: (w1.enemies_destroyed + (w1.rockets.len() - left.len())) as u64,
            ..w1
        };
        let r3 = rocket_shots(w2.player, w2.projectiles);
        let r4 = rammed(r3.0, w2.rockets);
        WorldModel { player: living(r4.0), rockets: r4.1, projectiles: r3.1, ..w2 }
    }

    /// One whole tick of `dt` milliseconds.
    pub open spec fn ticked(self, dt: u64, intent: Intent, roll: SpawnRoll) -> WorldModel {
        self.with_intent(intent).moved().spawned(dt, roll).resolved()
    }

    /// The ship that owns health bar `bar`, if it is live.
    pub open spec fn bar_owner(self, bar: EntityId) -> Option<EntityId> {
        match self.player {
            Some(q) => if q.health.id == bar {
                Some(q.id)
            } else {
                rocket_bar_owner(self.rockets, bar)
            },
            None => rocket_bar_owner(self.rockets, bar),
        }
    }

    /// The store without the ship or shot that `id` names; a ship's health
    /// bar goes with it.
    pub open spec fn destroyed(self, id: EntityId) -> WorldModel {
        WorldModel {
            player: match self.player {
                Some(q) => if q.id == id {
                    None
                } else {
                    self.player
                },
                None => None,
            },
            rockets: without_rocket(self.rockets, id),
            projectiles: without_projectile(self.projectiles, id),
            ..self
        }
    }
}

/// The player, unless it has no health left.
pub open spec fn living(pl: Option<Player>) -> Option<Player> {
    match pl {
        Some(q) => if q.health.current_health == 0 {
            None
        } else {
            pl
        },
        None => None,
    }
}

/// The player of a new run: a quarter of the width left of the centre, at
/// full health, with no intent.
pub open spec fn starting_player(arena: Arena) -> Player {
    Player {
        id: PLAYER_ID,
        pos: Position { x: -(arena.half_width / 2) as i64, y: 0 },
        is_shooting: false,
        direction_x: DirectionX::Neutral,
        direction_y: DirectionY::Neutral,
        health: HealthBar {
            id: (PLAYER_ID + 2) as u64,
            max_health: PLAYER_MAX_HP,
            current_health: PLAYER_MAX_HP,
        },
    }
}

/// In a well-formed store every live ship has health left, never above its maximum.
pub proof fn lemma_wf_healths_in_bounds(w: WorldModel)
    requires
        w.wf(),
    ensures
        w.healths_in_bounds(),
{
    assert forall|i: int| 0 <= i < w.rockets.len() implies (#[trigger] w.rockets[i]).health.wf() by {
        assert(w.rockets[i].wf(w.arena, w.next_id as int));
    }
}

/// In a well-formed store every identifier names one entity: identifiers are
/// handed out in increasing order, even ones to ships and their health bars
/// and odd ones to shots, and every sequence keeps the order of creation.
pub proof fn lemma_ids_distinct(w: WorldModel)
    requires
        w.wf(),
    ensures
        w.ids_distinct(),
{
    let n = w.next_id as int;
    let m = w.next_shot_id as int;
    assert forall|i: int, j: int| 0 <= i < w.rockets.len() && 0 <= j < w.rockets.len() implies {
        &&& #[trigger] w.rockets[i].id != #[trigger] w.rockets[j].health.id
        &&& (i != j ==> w.rockets[i].id != w.rockets[j].id && w.rockets[i].health.id
            != w.rockets[j].health.id)
    } by {
        assert(w.rockets[i].wf(w.arena, n) && w.rockets[j].wf(w.arena, n));
        if i < j {
            assert(w.rockets[i].health.id < w.rockets[j].id);
        } else if j < i {
            assert(w.rockets[j].health.id < w.rockets[i].id);
        }
    }
    assert forall|i: int, j: int|
        0 <= i < w.projectiles.len() && 0 <= j < w.projectiles.len() && i != j implies #[trigger] w.projectiles[i].id
        != #[trigger] w.projectiles[j].id by {
        if i < j {
            assert(w.projectiles[i].id < w.projectiles[j].id);
        } else {
            assert(w.projectiles[j].id < w.projectiles[i].id);
        }
    }
    assert forall|i: int, j: int| 0 <= i < w.projectiles.len() && 0 <= j < w.rockets.len() implies {
        &&& #[trigger] w.projectiles[i].id != #[trigger] w.rockets[j].id
        &&& w.projectiles[i].id != w.rockets[j].health.id
    } by {
        assert(w.projectiles[i].wf(w.arena, m));
        assert(w.rockets[j].wf(w.arena, n));
    }
    if w.player.is_some() {
        let q = w.player.unwrap();
        assert(q.wf(w.arena, n));
        assert forall|j: int| 0 <= j < w.rockets.len() implies {
            &&& q.id != #[trigger] w.rockets[j].id
            &&& q.id != w.rockets[j].health.id
            &&& q.health.id != w.rockets[j].id
            &&& q.health.id != w.rockets[j].health.id
        } by {
            assert(w.rockets[j].wf(w.arena, n));
        }
        assert forall|j: int| 0 <= j < w.projectiles.len() implies q.id != #[trigger] w.projectiles[j].id
            && q.health.id != w.projectiles[j].id by {
            assert(w.projectiles[j].wf(w.arena, m));
        }
    }
}

proof fn lemma_rockets_wf_grow(s: Seq<Rocket>, a: Arena, n: int, m: int)
    requires
        rockets_wf(s, a, n),
        n <= m,
    ensures
        rockets_wf(s, a, m),
{
    assert forall|i: int| 0 <= i < s.len() implies #[trigger] s[i].wf(a, m) by {
        assert(s[i].wf(a, n));
    }
}

proof fn lemma_projectiles_wf_grow(s: Seq<Projectile>, a: Arena, n: int, m: int)
    requires
        projectiles_wf(s, a, n),
        n <= m,
    ensures
        projectiles_wf(s, a, m),
{
    assert forall|i: int| 0 <= i < s.len() implies #[trigger] s[i].wf(a, m) by {
        assert(s[i].wf(a, n));
    }
}

fn remove_rocket(v: &mut Vec<Rocket>, id: EntityId, Ghost(a): Ghost<Arena>, Ghost(n): Ghost<int>)
    requires
        rockets_wf(old(v)@, a, n),
        rockets_sorted(old(v)@),
    ensures
        final(v)@ == without_rocket(old(v)@, id),
        rockets_wf(final(v)@, a, n),
        rockets_sorted(final(v)@),
{
    let ghost s = v@;
    let len = v.len();
    let mut out: Vec<Rocket> = Vec::new();
    let mut i: usize = 0;
    assert(s.subrange(0, len as int) =~= s);
    assert(out@ + without_rocket(s, id) =~= without_rocket(s, id));
    while i < len
        invariant
            v@ == s,
            len == s.len(),
            i <= len,
            rockets_wf(s, a, n),
            rockets_wf(out@, a, n),
            rockets_sorted(s),
            rockets_sorted(out@),
            rockets_precede(out@, s, i as int),
            without_rocket(s, id) == out@ + without_rocket(s.subrange(i as int, len as int), id),
        decreases len - i,
    {
        let r = v[i];
        assert(s.subrange(i as int, len as int).drop_first() =~= s.subrange(i + 1, len as int));
        assert(s[i as int].wf(a, n));
        if r.id != id {
            assert(out@.push(r) + without_rocket(s.subrange(i + 1, len as int), id) =~= out@ + (
            seq![r] + without_rocket(s.subrange(i + 1, len as int), id)));
            proof {
                lemma_rockets_sorted_push(out@, s, i as int, r);
            }
            out.push(r);
        }
        i = i + 1;
    }
    assert(s.subrange(len as int, len as int) =~= Seq::<Rocket>::empty());
    assert(out@ + Seq::<Rocket>::empty() =~= out@);
    *v = out;
}

fn remove_projectile(
    v: &mut Vec<Projectile>,
    id: EntityId,
    Ghost(a): Ghost<Arena>,
    Ghost(n): Ghost<int>,
)
    requires
        projectiles_wf(old(v)@, a, n),
        projectiles_sorted(old(v)@),
    ensures
        final(v)@ == without_projectile(old(v)@, id),
        projectiles_wf(final(v)@, a, n),
        projectiles_sorted(final(v)@),
{
    let ghost s = v@;
    let len = v.len();
    let mut out: Vec<Projectile> = Vec::new();
    let mut i: usize = 0;
    assert(s.subrange(0, len as int) =~= s);
    assert(out@ + without_projectile(s, id) =~= without_projectile(s, id));
    while i < len
        invariant
            v@ == s,
            len == s.len(),
            i <= len,
            projectiles_wf(s, a, n),
            projectiles_wf(out@, a, n),
            projectiles_sorted(s),
            projectiles_sorted(out@),
            projectiles_precede(out@, s, i as int),
            without_projectile(s, id) == out@ + without_projectile(
                s.subrange(i as int, len as int),
                id,
            ),
        decreases len - i,
    {
        let p = v[i];
        assert(s.subrange(i as int, len as int).drop_first() =~= s.subrange(i + 1, len as int));
        assert(s[i as int].wf(a, n));
        if p.id != id {
            assert(out@.push(p) + without_projectile(s.subrange(i + 1, len as int), id) =~= out@ + (
            seq![p] + without_projectile(s.subrange(i + 1, len as int), id)));
            proof {
                lemma_projectiles_sorted_push(out@, s, i as int, p);
            }
            out.push(p);
        }
        i = i + 1;
    }
    assert(s.subrange(len as int, len as int) =~= Seq::<Projectile>::empty());
    assert(out@ + Seq::<Projectile>::empty() =~= out@);
    *v = out;
}

proof fn lemma_without_rocket_twice(s: Seq<Rocket>, id: EntityId)
    ensures
        without_rocket(without_rocket(s, id), id) == without_rocket(s, id),
    decreases s.len(),
{
    if s.len() > 0 {
        lemma_without_rocket_twice(s.drop_first(), id);
        if s[0].id != id {
            let t = seq![s[0]] + without_rocket(s.drop_first(), id);
            assert(t.drop_first() =~= without_rocket(s.drop_first(), id));
        }
    }
}

proof fn lemma_without_projectile_twice(s: Seq<Projectile>, id: EntityId)
    ensures
        without_projectile(without_projectile(s, id), id) == without_projectile(s, id),
    decreases s.len(),
{
    if s.len() > 0 {
        lemma_without_projectile_twice(s.drop_first(), id);
        if s[0].id != id {
            let t = seq![s[0]] + without_projectile(s.drop_first(), id);
            assert(t.drop_first() =~= without_projectile(s.drop_first(), id));
        }
    }
}

/// Destroying an entity twice has the effect of destroying it once: the
/// second request finds nothing left to remove.
pub proof fn lemma_destroy_idempotent(w: WorldModel, id: EntityId)
    ensures
        w.destroyed(id).destroyed(id) == w.destroyed(id),
{
    lemma_without_rocket_twice(w.rockets, id);
    lemma_without_projectile_twice(w.projectiles, id);
}

impl World {
    /// A new run: the player at a quarter of the width left of the centre,
    /// with full health; nothing else in the arena.
    pub fn new(arena: Arena, projectile_cancellation: bool) -> (w: World)
        requires
            arena.wf(),
        ensures
            w@.wf(),
            w@.arena == arena,
            w@.player == Some(starting_player(arena)),
            w@.rockets.len() == 0,
            w@.projectiles.len() == 0,
            w@.timers.rocket_spawn_ms == 0,
            w@.timers.player_fire_ms == 0,
            w@.timers.rocket_fire_ms == 0,
            w@.next_id == PLAYER_ID + 4,
            w@.next_shot_id == 1,
            w@.enemies_destroyed == 0,
            w@.projectile_cancellation == projectile_cancellation,
    {
        let player = Player {
            id: PLAYER_ID,
            pos: Position { x: -(arena.half_width / 2), y: 0 },
            is_shooting: false,
            direction_x: DirectionX::Neutral,
            direction_y: DirectionY::Neutral,
            health: HealthBar::new(PLAYER_ID + 2, PLAYER_MAX_HP),
        };
        World {
            arena,
            player: Some(player),
            rockets: Vec::new(),
            projectiles: Vec::new(),
            timers: Timers::new(),
            next_id: PLAYER_ID + 4,
            next_shot_id: 1,
            enemies_destroyed: 0,
            projectile_cancellation,
        }
    }

    /// Whether one more tick fits in the identifier and kill counters.
    pub fn has_room(&self) -> (r: bool)
        ensures
            r == self@.has_room(),
    {
        let n: u64 = self.rockets.len() as u64;
        self.next_id <= u64::MAX - 4 && self.next_shot_id <= u64::MAX - 2 && n <= (u64::MAX - 2
            - self.next_shot_id) / 2 && self.enemies_destroyed <= u64::MAX - 1 && n <= u64::MAX - 1
            - self.enemies_destroyed
    }

    /// Hands the tick's intent to the player.
    pub fn keyboard_input(&mut self, intent: Intent)
        requires
            old(self)@.wf(),
        ensures
            final(self)@ == old(self)@.with_intent(intent),
            final(self)@.wf(),
    {
        if let Some(q) = &mut self.player {
            q.direction_x = intent.x;
            q.direction_y = intent.y;
            q.is_shooting = q.is_shooting || intent.fire;
        }
    }

    /// The movement step of every ship and shot.
    pub fn movement(&mut self)
        requires
            old(self)@.wf(),
        ensures
            final(self)@ == old(self)@.moved(),
            final(self)@.wf(),
            final(self)@.rockets.len() <= old(self)@.rockets.len(),
    {
        let ghost n = self.next_id as int;
        if let Some(q) = &mut self.player {
            player_movement(q, &self.arena);
        }
        rocket_movement(&mut self.rockets, &self.arena, Ghost(n));
        projectile_movement(&mut self.projectiles, &self.arena, Ghost(self.next_shot_id as int));
    }

    /// The spawner's step: timers advance by `dt` milliseconds, and those
    /// that fire create shots and rockets; `roll` gives what a new rocket draws.
    pub fn spawn(&mut self, dt: u64, roll: SpawnRoll)
        requires
            old(self)@.wf(),
            old(self)@.has_room(),
            dt <= MAX_TICK_MS,
            roll.valid(old(self).arena),
        ensures
            final(self)@ == old(self)@.spawned(dt, roll),
            final(self)@.wf(),
            final(self)@.rockets.len() <= old(self)@.rockets.len() + 1,
    {
        let ghost a = self.arena;
        let ghost n0 = self.next_id as int;
        let fire_player = poll_timer(&mut self.timers.player_fire_ms, dt, PLAYER_FIRE_MS);
        let fire_rockets = poll_timer(&mut self.timers.rocket_fire_ms, dt, ROCKET_FIRE_MS);
        let spawn_one = poll_timer(&mut self.timers.rocket_spawn_ms, dt, ROCKET_SPAWN_MS);
        if fire_player {
            proof {
                if self.player.is_some() {
                    assert(self.player.unwrap().wf(a, n0));
                }
            }
            shoot_projectile_player(
                &mut self.player,
                &mut self.projectiles,
                &mut self.next_shot_id,
                Ghost(a),
            );
        }
        if fire_rockets {
            shoot_projectile_rocket(
                &self.rockets,
                &mut self.projectiles,
                &mut self.next_shot_id,
                Ghost(a),
                Ghost(n0),
            );
        }
        if spawn_one {
            let armed = roll.armed_die == ARMED_DIE_FACE;
            spawn_rocket(&mut self.rockets, &self.arena, roll.y_offset, armed, &mut self.next_id);
        }
        proof {
            if self.player.is_some() {
                assert(self.player.unwrap().wf(a, self.next_id as int));
            }
        }
        assert(self@ =~= old(self)@.spawned(dt, roll));
    }

    /// The collision passes of one tick; rockets destroyed by damage are counted.
    pub fn resolve_collisions(&mut self)
        requires
            old(self)@.wf(),
            old(self).enemies_destroyed + old(self)@.rockets.len() <= u64::MAX,
        ensures
            final(self)@ == old(self)@.resolved(),
            final(self)@.wf(),
            final(self)@.healths_in_bounds(),
    {
        let ghost a = self.arena;
        let ghost n = self.next_id as int;
        let ghost m = self.next_shot_id as int;
        if self.projectile_cancellation {
            player_rocket_projectile_collision(&mut self.projectiles, Ghost(a), Ghost(m));
        }
        let kills = player_projectile_rocket_collision(
            &mut self.rockets,
            &mut self.projectiles,
            Ghost(a),
            Ghost(n),
            Ghost(m),
        );
        self.enemies_destroyed = self.enemies_destroyed + kills as u64;
        proof {
            if self.player.is_some() {
                assert(self.player.unwrap().wf(a, n));
            }
        }
        rocket_projectile_player_collision(
            &mut self.player,
            &mut self.projectiles,
            Ghost(a),
            Ghost(n),
            Ghost(m),
        );
        rocket_player_collision(&mut self.player, &mut self.rockets, Ghost(a), Ghost(n));
        let dead = match &self.player {
            Some(q) => q.health.current_health == 0,
            None => false,
        };
        if dead {
            self.player = None;
        }
        assert(self@ =~= old(self)@.resolved());
        proof {
            lemma_wf_healths_in_bounds(self@);
        }
    }

    /// One tick of `dt` milliseconds with the player's `intent`; `roll` gives
    /// what a rocket spawned in this tick draws.
    pub fn step(&mut self, dt: u64, intent: Intent, roll: SpawnRoll)
        requires
            old(self)@.wf(),
            old(self)@.has_room(),
            dt <= MAX_TICK_MS,
            roll.valid(old(self).arena),
        ensures
            final(self)@ == old(self)@.ticked(dt, intent, roll),
            final(self)@.wf(),
            final(self)@.healths_in_bounds(),
    {
        self.keyboard_input(intent);
        self.movement();
        self.spawn(dt, roll);
        self.resolve_collisions();
    }

    /// What the spawner draws for one tick, at random.
    pub fn draw_roll(&self) -> (r: SpawnRoll)
        requires
            self.arena.wf(),
        ensures
            r.valid(self.arena),
    {
        let y_offset = random_in(self.arena.spawn_low(), self.arena.spawn_high());
        let armed_die = random_in(0, ARMED_DIE_FACES);
        SpawnRoll { y_offset, armed_die }
    }

    /// One tick of `dt` milliseconds with the player's `intent`, the spawner
    /// drawing at random.
    pub fn tick(&mut self, dt: u64, intent: Intent)
        requires
            old(self)@.wf(),
            old(self)@.has_room(),
            dt <= MAX_TICK_MS,
        ensures
            exists|roll: SpawnRoll|
                roll.valid(old(self).arena) && final(self)@ == #[trigger] old(self)@.ticked(
                    dt,
                    intent,
                    roll,
                ),
            final(self)@.wf(),
            final(self)@.healths_in_bounds(),
    {
        let roll = self.draw_roll();
        self.step(dt, intent, roll);
    }

    /// Destroys the ship or shot that `id` names, a ship together with its
    /// health bar; an identifier that names nothing live is ignored.
    pub fn destroy(&mut self, id: EntityId)
        requires
            old(self)@.wf(),
        ensures
            final(self)@ == old(self)@.destroyed(id),
            final(self)@.wf(),
    {
        let ghost a = self.arena;
        let ghost n = self.next_id as int;
        let gone = match &self.player {
            Some(q) => q.id == id,
            None => false,
        };
        if gone {
            self.player = None;
        }
        remove_rocket(&mut self.rockets, id, Ghost(a), Ghost(n));
        remove_projectile(&mut self.projectiles, id, Ghost(a), Ghost(self.next_shot_id as int));
        assert(self@ =~= old(self)@.destroyed(id));
    }

    /// The ship that owns health bar `bar`; `None` when no live ship has it.
    pub fn owner_of(&self, bar: EntityId) -> (r: Option<EntityId>)
        ensures
            r == self@.bar_owner(bar),
    {
        if let Some(q) = &self.player {
            if q.health.id == bar {
                return Some(q.id);
            }
        }
        let ghost s = self.rockets@;
        let n = self.rockets.len();
        let mut i: usize = 0;
        assert(s.subrange(0, n as int) =~= s);
        while i < n
            invariant
                self.rockets@ == s,
                n == s.len(),
                i <= n,
                self@.bar_owner(bar) == rocket_bar_owner(s.subrange(i as int, n as int), bar),
            decreases n - i,
        {
            assert(s.subrange(i as int, n as int).drop_first() =~= s.subrange(i + 1, n as int));
            assert(s.subrange(i as int, n as int)[0] == s[i as int]);
            if self.rockets[i].health.id == bar {
                return Some(self.rockets[i].id);
            }
            i = i + 1;
        }
        None
    }

    /// Creates a rocket at `pos` with a full health bar; returns its identifier.
    pub fn create_rocket(&mut self, pos: Position, armed: bool) -> (id: EntityId)
        requires
            old(self)@.wf(),
            old(self).arena.holds(pos),
            old(self).next_id + 4 <= u64::MAX,
        ensures
            id == old(self).next_id,
            final(self)@ == (WorldModel {
                rockets: old(self)@.rockets.push(
                    Rocket {
                        id,
                        pos,
                        is_shooting: armed,
                        health: HealthBar {
                            id: (id + 2) as u64,
                            max_health: ROCKET_MAX_HP,
                            current_health: ROCKET_MAX_HP,
                        },
                    },
                ),
                next_id: (id + 4) as u64,
                ..old(self)@
            }),
            final(self)@.wf(),
    {
        let ghost a = self.arena;
        let id = self.next_id;
        let ghost before = self.rockets@;
        let r = Rocket { id, pos, is_shooting: armed, health: HealthBar::new(id + 2, ROCKET_MAX_HP) };
        self.rockets.push(r);
        self.next_id = id + 4;
        proof {
            if self.player.is_some() {
                assert(self.player.unwrap().wf(a, id as int));
            }
        }
        assert forall|j: int| 0 <= j < self.rockets@.len() implies #[trigger] self.rockets@[j].wf(
            a,
            id + 4,
        ) by {
            if j < before.len() {
                assert(self.rockets@[j] == before[j]);
                assert(before[j].wf(a, id as int));
            } else {
                assert(self.rockets@[j] == r);
            }
        }
        assert forall|x: int, y: int| 0 <= x < y < self.rockets@.len() implies #[trigger] self.rockets@[x].health.id
            < #[trigger] self.rockets@[y].id by {
            assert(self.rockets@[x] == before[x]);
            assert(before[x].wf(a, id as int));
            if y < before.len() {
                assert(self.rockets@[y] == before[y]);
            }
        }
        assert(self@ =~= (WorldModel {
            rockets: old(self)@.rockets.push(
                Rocket {
                    id,
                    pos,
                    is_shooting: armed,
                    health: HealthBar {
                        id: (id + 2) as u64,
                        max_health: ROCKET_MAX_HP,
                        current_health: ROCKET_MAX_HP,
                    },
                },
            ),
            next_id: (id + 4) as u64,
            ..old(self)@
        }));
        id
    }

    /// Creates a shot at `pos`, the player's or a rocket's; returns its identifier.
    pub fn create_projectile(&mut self, pos: Position, is_player_projectile: bool) -> (id: EntityId)
        requires
            old(self)@.wf(),
            old(self).arena.holds(pos),
            old(self).next_shot_id + 2 <= u64::MAX,
        ensures
            id == old(self).next_shot_id,
            final(self)@ == (WorldModel {
                projectiles: old(self)@.projectiles.push(
                    Projectile { id, pos, is_player_projectile },
                ),
                next_shot_id: (id + 2) as u64,
                ..old(self)@
            }),
            final(self)@.wf(),
    {
        let ghost a = self.arena;
        let id = self.next_shot_id;
        let ghost before = self.projectiles@;
        let p = Projectile { id, pos, is_player_projectile };
        self.projectiles.push(p);
        self.next_shot_id = id + 2;
        assert forall|j: int|
            0 <= j < self.projectiles@.len() implies #[trigger] self.projectiles@[j].wf(
            a,
            id + 2,
        ) by {
            if j < before.len() {
                assert(self.projectiles@[j] == before[j]);
                assert(before[j].wf(a, id as int));
            } else {
                assert(self.projectiles@[j] == p);
            }
        }
        assert forall|x: int, y: int| 0 <= x < y < self.projectiles@.len() implies #[trigger] self.projectiles@[x].id
            < #[trigger] self.projectiles@[y].id by {
            assert(self.projectiles@[x] == before[x]);
            assert(before[x].wf(a, id as int));
            if y < before.len() {
                assert(self.projectiles@[y] == before[y]);
            }
        }
        assert(self@ =~= (WorldModel {
            projectiles: old(self)@.projectiles.push(Projectile { id, pos, is_player_projectile }),
            next_shot_id: (id + 2) as u64,
            ..old(self)@
        }));
        id
    }
}

} // verus!
