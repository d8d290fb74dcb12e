//! Ships, shots and health bars.

use vstd::prelude::*;

use crate::arena::Arena;
use crate::config::{HP_BAR_SCALE_DEN, HP_BAR_SCALE_NUM};
pub use crate::geometry::Position;

verus! {

/// Identifier of an entity of the store; never given out twice. Ships and
/// health bars have even identifiers, shots odd ones.
pub type EntityId = u64;

/// Identifier of the player ship; its health bar's is two more.
pub const PLAYER_ID: u64 = 0;

/// Horizontal intent of the player.
#[derive(Clone, Copy, Debug, PartialEq, Eq, Structural)]
pub enum DirectionX {
    Left,
    Right,
    Neutral,
}

/// Vertical intent of the player.
#[derive(Clone, Copy, Debug, PartialEq, Eq, Structural)]
pub enum DirectionY {
    Up,
    Down,
    Neutral,
}

/// What the player asks for in one tick: a direction per axis, and whether a
/// fire action begins.
#[derive(Clone, Copy, Debug, PartialEq, Eq, Structural)]
pub struct Intent {
    pub x: DirectionX,
    pub y: DirectionY,
    pub fire: bool,
}

/// The health record of a ship, kept as a child entity of its own.
#[derive(Clone, Copy, Debug, PartialEq, Eq, Structural)]
pub struct HealthBar {
    pub id: EntityId,
    pub max_health: u32,
    pub current_health: u32,
}

/// The player's ship.
#[derive(Clone, Copy, Debug, PartialEq, Eq, Structural)]
pub struct Player {
    pub id: EntityId,
    pub pos: Position,
    pub is_shooting: bool,
    pub direction_x: DirectionX,
    pub direction_y: DirectionY,
    pub health: HealthBar,
}

/// An enemy ship; an armed one fires on the rockets' volley timer.
#[derive(Clone, Copy, Debug, PartialEq, Eq, Structural)]
pub struct Rocket {
    pub id: EntityId,
    pub pos: Position,
    pub is_shooting: bool,
    pub health: HealthBar,
}

/// A shot in flight, fired by the player or by a rocket.
#[derive(Clone, Copy, Debug, PartialEq, Eq, Structural)]
pub struct Projectile {
    pub id: EntityId,
    pub pos: Position,
    pub is_player_projectile: bool,
}

impl HealthBar {
    /// Alive: some health left, never more than the maximum.
    pub open spec fn wf(self) -> bool {
        0 < self.current_health <= self.max_health
    }

    /// The record after one hit.
    pub open spec fn hit(self) -> HealthBar {
        HealthBar { current_health: (self.current_health - 1) as u32, ..self }
    }

    /// A full health bar.
    pub fn new(id: EntityId, max_health: u32) -> (r: HealthBar)
        ensures
            r.id == id,
            r.max_health == max_health,
            r.current_health == max_health,
    {
        HealthBar { id, max_health, current_health: max_health }
    }

    /// Horizontal scale of the bar as a fraction `(numerator, denominator)`:
    /// the full scale times the share of health left.
    pub fn scale(&self) -> (r: (u64, u64))
        ensures
            r.0 == HP_BAR_SCALE_NUM * self.current_health,
            r.1 == HP_BAR_SCALE_DEN * self.max_health,
    {
        (HP_BAR_SCALE_NUM * self.current_health as u64, HP_BAR_SCALE_DEN * self.max_health as u64)
    }

    /// Takes one hit; `true` when no health is left.
    pub fn take_hit(&mut self) -> (dead: bool)
        requires
            old(self).wf(),
        ensures
            *final(self) == old(self).hit(),
            dead == (final(self).current_health == 0),
            !dead ==> final(self).wf(),
    {
        self.current_health = self.current_health - 1;
        self.current_health == 0
    }
}

impl Player {
    /// Placed player: inside its box, health at most its maximum, identifiers
    /// issued before `next_id`. A placed player with no health left is dead
    /// but still stands until the collision step that killed it ends.
    pub open spec fn placed(self, a: Arena, next_id: int) -> bool {
        &&& a.player_box(self.pos)
        &&& self.health.current_health <= self.health.max_health
        &&& self.id == PLAYER_ID
        &&& self.health.id == PLAYER_ID + 2
        &&& self.health.id < next_id
    }

    /// Well-formed player: placed and alive.
    pub open spec fn wf(self, a: Arena, next_id: int) -> bool {
        self.placed(a, next_id) && self.health.wf()
    }

    /// The player after something strikes it: one point of health less while
    /// it has any; a dead player takes no more damage.
    pub open spec fn struck(self) -> Player {
        if self.health.current_health == 0 {
            self
        } else {
            Player { health: self.health.hit(), ..self }
        }
    }
}

impl Rocket {
    /// Placed rocket: in the field, health at most its maximum, identifiers
    /// issued before `next_id`.
    pub open spec fn placed(self, a: Arena, next_id: int) -> bool {
        &&& a.holds(self.pos)
        &&& self.health.current_health <= self.health.max_health
        &&& self.id % 2 == 0
        &&& PLAYER_ID + 4 <= self.id
        &&& self.health.id == self.id + 2
        &&& self.health.id < next_id
    }

    /// Well-formed rocket: placed and alive.
    pub open spec fn wf(self, a: Arena, next_id: int) -> bool {
        self.placed(a, next_id) && self.health.wf()
    }

    /// The rocket after a shot strikes it: one point of health less while it
    /// has any; a dead rocket takes no more damage.
    pub open spec fn struck(self) -> Rocket {
        if self.health.current_health == 0 {
            self
        } else {
            Rocket { health: self.health.hit(), ..self }
        }
    }
}

impl Projectile {
    /// Well-formed projectile: in the field, with an odd identifier issued
    /// before `next_id`.
    pub open spec fn wf(self, a: Arena, next_id: int) -> bool {
        &&& a.holds(self.pos)
        &&& self.id % 2 == 1
        &&& self.id < next_id
    }
}

/// The player, when present, is well formed.
pub open spec fn player_wf(pl: Option<Player>, a: Arena, next_id: int) -> bool {
    pl.is_some() ==> pl.unwrap().wf(a, next_id)
}

/// The player, when present, is placed.
pub open spec fn player_placed(pl: Option<Player>, a: Arena, next_id: int) -> bool {
    pl.is_some() ==> pl.unwrap().placed(a, next_id)
}

/// Every rocket of `s` is placed.
pub open spec fn rockets_placed(s: Seq<Rocket>, a: Arena, next_id: int) -> bool {
    forall|i: int| 0 <= i < s.len() ==> #[trigger] s[i].placed(a, next_id)
}

/// Every rocket of `s` is well formed.
pub open spec fn rockets_wf(s: Seq<Rocket>, a: Arena, next_id: int) -> bool {
    forall|i: int| 0 <= i < s.len() ==> #[trigger] s[i].wf(a, next_id)
}

/// Every projectile of `s` is well formed.
pub open spec fn projectiles_wf(s: Seq<Projectile>, a: Arena, next_id: int) -> bool {
    forall|i: int| 0 <= i < s.len() ==> #[trigger] s[i].wf(a, next_id)
}

} // verus!

verus! {

/// Rockets in the order of their identifiers, each rocket's health bar
/// before the next rocket.
pub open spec fn rockets_sorted(s: Seq<Rocket>) -> bool {
    forall|i: int, j: int| 0 <= i < j < s.len() ==> #[trigger] s[i].health.id < #[trigger] s[j].id
}

/// Projectiles in the order of their identifiers.
pub open spec fn projectiles_sorted(s: Seq<Projectile>) -> bool {
    forall|i: int, j: int| 0 <= i < j < s.len() ==> #[trigger] s[i].id < #[trigger] s[j].id
}

/// Removing a rocket keeps the order.
pub proof fn lemma_rockets_sorted_remove(s: Seq<Rocket>, k: int)
    requires
        rockets_sorted(s),
        0 <= k < s.len(),
    ensures
        rockets_sorted(s.remove(k)),
{
    let t = s.remove(k);
    assert forall|i: int, j: int| 0 <= i < j < t.len() implies #[trigger] t[i].health.id
        < #[trigger] t[j].id by {
        let i2 = if i < k { i } else { i + 1 };
        let j2 = if j < k { j } else { j + 1 };
        assert(t[i] == s[i2] && t[j] == s[j2]);
    }
}

/// Removing a projectile keeps the order.
pub proof fn lemma_projectiles_sorted_remove(s: Seq<Projectile>, k: int)
    requires
        projectiles_sorted(s),
        0 <= k < s.len(),
    ensures
        projectiles_sorted(s.remove(k)),
{
    let t = s.remove(k);
    assert forall|i: int, j: int| 0 <= i < j < t.len() implies #[trigger] t[i].id
        < #[trigger] t[j].id by {
        let i2 = if i < k { i } else { i + 1 };
        let j2 = if j < k { j } else { j + 1 };
        assert(t[i] == s[i2] && t[j] == s[j2]);
    }
}

/// Every rocket of `out` comes before every rocket of `s` from index `i` on.
pub open spec fn rockets_precede(out: Seq<Rocket>, s: Seq<Rocket>, i: int) -> bool {
    forall|k: int, j: int|
        0 <= k < out.len() && i <= j < s.len() ==> #[trigger] out[k].health.id < #[trigger] s[j].id
}

/// Every projectile of `out` comes before every projectile of `s` from index `i` on.
pub open spec fn projectiles_precede(out: Seq<Projectile>, s: Seq<Projectile>, i: int) -> bool {
    forall|k: int, j: int| 0 <= k < out.len() && i <= j < s.len() ==> #[trigger] out[k].id < #[trigger] s[j].id
}

/// Appending a rocket that carries the identifiers of `s[i]` to a sorted
/// prefix that precedes `s[i..]`.
pub proof fn lemma_rockets_sorted_push(out: Seq<Rocket>, s: Seq<Rocket>, i: int, x: Rocket)
    requires
        rockets_sorted(s),
        rockets_sorted(out),
        0 <= i < s.len(),
        x.id == s[i].id,
        x.health.id == s[i].health.id,
        rockets_precede(out, s, i),
    ensures
        rockets_sorted(out.push(x)),
        rockets_precede(out.push(x), s, i + 1),
{
    let t = out.push(x);
    assert forall|a: int, b: int| 0 <= a < b < t.len() implies #[trigger] t[a].health.id
        < #[trigger] t[b].id by {
        assert(t[a] == out[a]);
        if b < out.len() {
            assert(t[b] == out[b]);
        } else {
            assert(out[a].health.id < s[i].id);
        }
    }
    assert forall|k: int, j: int| 0 <= k < t.len() && i + 1 <= j < s.len() implies #[trigger] t[k].health.id
        < #[trigger] s[j].id by {
        if k < out.len() {
            assert(t[k] == out[k]);
        } else {
            assert(s[i].health.id < s[j].id);
        }
    }
}

/// Appending a projectile that carries the identifier of `s[i]` to a sorted
/// prefix that precedes `s[i..]`.
pub proof fn lemma_projectiles_sorted_push(
    out: Seq<Projectile>,
    s: Seq<Projectile>,
    i: int,
    x: Projectile,
)
    requires
        projectiles_sorted(s),
        projectiles_sorted(out),
        0 <= i < s.len(),
        x.id == s[i].id,
        projectiles_precede(out, s, i),
    ensures
        projectiles_sorted(out.push(x)),
        projectiles_precede(out.push(x), s, i + 1),
{
    let t = out.push(x);
    assert forall|a: int, b: int| 0 <= a < b < t.len() implies #[trigger] t[a].id
        < #[trigger] t[b].id by {
        assert(t[a] == out[a]);
        if b < out.len() {
            assert(t[b] == out[b]);
        } else {
            assert(out[a].id < s[i].id);
        }
    }
    assert forall|k: int, j: int| 0 <= k < t.len() && i + 1 <= j < s.len() implies #[trigger] t[k].id
        < #[trigger] s[j].id by {
        if k < out.len() {
            assert(t[k] == out[k]);
        } else {
            assert(s[i].id < s[j].id);
        }
    }
}

} // verus!
