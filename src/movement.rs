//! The movement step of ships and shots.

use vstd::prelude::*;

use crate::arena::Arena;
use crate::config::{PLAYER_SHOT_SPEED, PLAYER_SPEED, ROCKET_SHOT_SPEED, ROCKET_SPEED};
use crate::entity::{
    lemma_projectiles_sorted_push, lemma_rockets_sorted_push, projectiles_precede,
    projectiles_sorted, projectiles_wf, rockets_precede, rockets_sorted, rockets_wf, DirectionX,
    DirectionY, Player, Position, Projectile, Rocket,
};

verus! {

/// Where the player's horizontal intent would take it.
pub open spec fn intended_x(p: Player) -> int {
    match p.direction_x {
        DirectionX::Left => p.pos.x - PLAYER_SPEED,
        DirectionX::Right => p.pos.x + PLAYER_SPEED,
        DirectionX::Neutral => p.pos.x as int,
    }
}

/// Where the player's vertical intent would take it.
pub open spec fn intended_y(p: Player) -> int {
    match p.direction_y {
        DirectionY::Up => p.pos.y + PLAYER_SPEED,
        DirectionY::Down => p.pos.y - PLAYER_SPEED,
        DirectionY::Neutral => p.pos.y as int,
    }
}

/// The player after one movement step: on each axis it takes the step that
/// its intent asks for when the step ends inside the player's box, and stays
/// otherwise. Both intents are consumed, whether the step was taken or not.
pub open spec fn moved_player(p: Player, a: Arena) -> Player {
    let x = if a.player_x_ok(intended_x(p)) { intended_x(p) } else { p.pos.x as int };
    let y = if a.player_y_ok(intended_y(p)) { intended_y(p) } else { p.pos.y as int };
    Player {
        pos: Position { x: x as i64, y: y as i64 },
        direction_x: DirectionX::Neutral,
        direction_y: DirectionY::Neutral,
        ..p
    }
}

/// A rocket after one step left, or `None` once it has crossed the left edge.
pub open spec fn drifted_rocket(r: Rocket, a: Arena) -> Option<Rocket> {
    let x = r.pos.x - ROCKET_SPEED;
    if x < -a.half_width {
        None
    } else {
        Some(Rocket { pos: Position { x: x as i64, y: r.pos.y }, ..r })
    }
}

/// All rockets after one step, in their order, without those that left.
pub open spec fn drifted_rockets(s: Seq<Rocket>, a: Arena) -> Seq<Rocket>
    decreases s.len(),
{
    if s.len() == 0 {
        s
    } else {
        let rest = drifted_rockets(s.drop_first(), a);
        match drifted_rocket(s[0], a) {
            Some(r) => seq![r] + rest,
            None => rest,
        }
    }
}

/// A projectile after one step, or `None` once it has crossed the edge it
/// flies toward: the right one for the player's, the left one for a rocket's.
pub open spec fn drifted_projectile(p: Projectile, a: Arena) -> Option<Projectile> {
    if p.is_player_projectile {
        let x = p.pos.x + PLAYER_SHOT_SPEED;
        if x > a.half_width {
            None
        } else {
            Some(Projectile { pos: Position { x: x as i64, y: p.pos.y }, ..p })
        }
    } else {
        let x = p.pos.x - ROCKET_SHOT_SPEED;
        if x < -a.half_width {
            None
        } else {
            Some(Projectile { pos: Position { x: x as i64, y: p.pos.y }, ..p })
        }
    }
}

/// All projectiles after one step, in their order, without those that left.
pub open spec fn drifted_projectiles(s: Seq<Projectile>, a: Arena) -> Seq<Projectile>
    decreases s.len(),
{
    if s.len() == 0 {
        s
    } else {
        let rest = drifted_projectiles(s.drop_first(), a);
        match drifted_projectile(s[0], a) {
            Some(p) => seq![p] + rest,
            None => rest,
        }
    }
}

/// A projectile after `n` movement steps, or `None` once it has left.
pub open spec fn projectile_after(p: Projectile, a: Arena, n: nat) -> Option<Projectile>
    decreases n,
{
    if n == 0 {
        Some(p)
    } else {
        match projectile_after(p, a, (n - 1) as nat) {
            Some(q) => drifted_projectile(q, a),
            None => None,
        }
    }
}

/// A rocket after `n` movement steps, or `None` once it has left.
pub open spec fn rocket_after(r: Rocket, a: Arena, n: nat) -> Option<Rocket>
    decreases n,
{
    if n == 0 {
        Some(r)
    } else {
        match rocket_after(r, a, (n - 1) as nat) {
            Some(q) => drifted_rocket(q, a),
            None => None,
        }
    }
}

/// A player's shot fired inside the arena at `x0` is still in flight after
/// `n` steps exactly while `x0 + n * PLAYER_SHOT_SPEED` has not passed the
/// right edge; it is then at that abscissa, at its height. So it is removed
/// on the first step that takes it past the right edge, never earlier.
pub proof fn lemma_player_shot_lifetime(p: Projectile, a: Arena, n: nat)
    requires
        a.wf(),
        a.holds(p.pos),
        p.is_player_projectile,
        p.pos.x <= a.half_width,
    ensures
        projectile_after(p, a, n).is_some() <==> p.pos.x + n * PLAYER_SHOT_SPEED <= a.half_width,
        projectile_after(p, a, n).is_some() ==> projectile_after(p, a, n).unwrap() == (Projectile {
            pos: Position { x: (p.pos.x + n * PLAYER_SHOT_SPEED) as i64, y: p.pos.y },
            ..p
        }),
    decreases n,
{
    if n > 0 {
        lemma_player_shot_lifetime(p, a, (n - 1) as nat);
    }
}

/// A rocket at `x0` in the field is still there after `n` steps exactly
/// while `x0 - n * ROCKET_SPEED` has not passed the left edge; it is then at
/// that abscissa, at its height, its health untouched. So it is removed on
/// the first step that takes it past the left edge, never earlier.
pub proof fn lemma_rocket_lifetime(r: Rocket, a: Arena, n: nat)
    requires
        a.wf(),
        a.holds(r.pos),
        -a.half_width <= r.pos.x,
    ensures
        rocket_after(r, a, n).is_some() <==> r.pos.x - n * ROCKET_SPEED >= -a.half_width,
        rocket_after(r, a, n).is_some() ==> rocket_after(r, a, n).unwrap() == (Rocket {
            pos: Position { x: (r.pos.x - n * ROCKET_SPEED) as i64, y: r.pos.y },
            ..r
        }),
    decreases n,
{
    if n > 0 {
        lemma_rocket_lifetime(r, a, (n - 1) as nat);
    }
}

/// Moves the player one step by its intent and consumes the intent.
pub fn player_movement(p: &mut Player, a: &Arena)
    requires
        a.wf(),
        a.player_box(old(p).pos),
    ensures
        *final(p) == moved_player(*old(p), *a),
        a.player_box(final(p).pos),
{
    let y: i64 = match p.direction_y {
        DirectionY::Up => p.pos.y + PLAYER_SPEED,
        DirectionY::Down => p.pos.y - PLAYER_SPEED,
        DirectionY::Neutral => p.pos.y,
    };
    if -a.half_height + crate::config::PLAYER_MARGIN <= y && y <= a.half_height
        - crate::config::PLAYER_MARGIN {
        p.pos.y = y;
    }
    let x: i64 = match p.direction_x {
        DirectionX::Left => p.pos.x - PLAYER_SPEED,
        DirectionX::Right => p.pos.x + PLAYER_SPEED,
        DirectionX::Neutral => p.pos.x,
    };
    if -a.half_width + crate::config::PLAYER_MARGIN <= x && x <= a.half_width
        - crate::config::PLAYER_MARGIN {
        p.pos.x = x;
    }
    p.direction_x = DirectionX::Neutral;
    p.direction_y = DirectionY::Neutral;
}

/// Moves every rocket one step left and drops those that crossed the left edge.
pub fn rocket_movement(rockets: &mut Vec<Rocket>, a: &Arena, Ghost(next_id): Ghost<int>)
    requires
        a.wf(),
        rockets_wf(old(rockets)@, *a, next_id),
        rockets_sorted(old(rockets)@),
    ensures
        rockets_sorted(final(rockets)@),
        final(rockets)@ == drifted_rockets(old(rockets)@, *a),
        final(rockets)@.len() <= old(rockets)@.len(),
        rockets_wf(final(rockets)@, *a, next_id),
{
    let ghost s = rockets@;
    let n = rockets.len();
    let mut out: Vec<Rocket> = Vec::new();
    let mut i: usize = 0;
    assert(s.subrange(0, n as int) =~= s);
    assert(out@ + drifted_rockets(s, *a) =~= drifted_rockets(s, *a));
    while i < n
        invariant
            a.wf(),
            rockets@ == s,
            n == s.len(),
            i <= n,
            rockets_wf(s, *a, next_id),
            rockets_wf(out@, *a, next_id),
            rockets_sorted(s),
            rockets_sorted(out@),
            rockets_precede(out@, s, i as int),
            out@.len() <= i,
            drifted_rockets(s, *a) == out@ + drifted_rockets(s.subrange(i as int, n as int), *a),
        decreases n - i,
    {
        let r = rockets[i];
        assert(s.subrange(i as int, n as int).drop_first() =~= s.subrange(i + 1, n as int));
        assert(s[i as int].wf(*a, next_id));
        let x: i64 = r.pos.x - ROCKET_SPEED;
        if x >= -a.half_width {
            let moved = Rocket { pos: Position { x, y: r.pos.y }, ..r };
            assert(out@.push(moved) + drifted_rockets(s.subrange(i + 1, n as int), *a) =~= out@
                + (seq![moved] + drifted_rockets(s.subrange(i + 1, n as int), *a)));
            proof {
                lemma_rockets_sorted_push(out@, s, i as int, moved);
            }
            out.push(moved);
        }
        i = i + 1;
    }
    assert(s.subrange(n as int, n as int) =~= Seq::<Rocket>::empty());
    assert(out@ + Seq::<Rocket>::empty() =~= out@);
    *rockets = out;
}

/// Moves every projectile one step toward the side it flies to and drops
/// those that crossed that edge.
pub fn projectile_movement(
    projectiles: &mut Vec<Projectile>,
    a: &Arena,
    Ghost(next_id): Ghost<int>,
)
    requires
        a.wf(),
        projectiles_wf(old(projectiles)@, *a, next_id),
        projectiles_sorted(old(projectiles)@),
    ensures
        projectiles_sorted(final(projectiles)@),
        final(projectiles)@ == drifted_projectiles(old(projectiles)@, *a),
        projectiles_wf(final(projectiles)@, *a, next_id),
{
    let ghost s = projectiles@;
    let n = projectiles.len();
    let mut out: Vec<Projectile> = Vec::new();
    let mut i: usize = 0;
    assert(s.subrange(0, n as int) =~= s);
    assert(out@ + drifted_projectiles(s, *a) =~= drifted_projectiles(s, *a));
    while i < n
        invariant
            a.wf(),
            projectiles@ == s,
            n == s.len(),
            i <= n,
            projectiles_wf(s, *a, next_id),
            projectiles_wf(out@, *a, next_id),
            projectiles_sorted(s),
            projectiles_sorted(out@),
            projectiles_precede(out@, s, i as int),
            drifted_projectiles(s, *a) == out@ + drifted_projectiles(
                s.subrange(i as int, n as int),
                *a,
            ),
        decreases n - i,
    {
        let p = projectiles[i];
        assert(s.subrange(i as int, n as int).drop_first() =~= s.subrange(i + 1, n as int));
        assert(s[i as int].wf(*a, next_id));
        let kept: bool;
        let x: i64;
        if p.is_player_projectile {
            x = p.pos.x + PLAYER_SHOT_SPEED;
            kept = x <= a.half_width;
        } else {
            x = p.pos.x - ROCKET_SHOT_SPEED;
            kept = x >= -a.half_width;
        }
        if kept {
            let moved = Projectile { pos: Position { x, y: p.pos.y }, ..p };
            assert(out@.push(moved) + drifted_projectiles(s.subrange(i + 1, n as int), *a) =~= out@
                + (seq![moved] + drifted_projectiles(s.subrange(i + 1, n as int), *a)));
            proof {
                lemma_projectiles_sorted_push(out@, s, i as int, moved);
            }
            out.push(moved);
        }
        i = i + 1;
    }
    assert(s.subrange(n as int, n as int) =~= Seq::<Projectile>::empty());
    assert(out@ + Seq::<Projectile>::empty() =~= out@);
    *projectiles = out;
}

} // verus!
